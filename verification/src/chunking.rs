//! Cutting a stream's samples into windows of a fixed size.
//!
//! Samples leave a buffer oldest first, a whole window at a time. What does
//! not fill a window stays behind, in order, until more samples arrive or the
//! buffer is flushed.

use vstd::prelude::*;

verus! {

/// The whole windows of `size` samples at the front of `samples`, in order.
pub open spec fn full_chunks(samples: Seq<i16>, size: nat) -> Seq<Seq<i16>>
    recommends
        size > 0,
{
    Seq::new(
        samples.len() / size,
        |k: int| samples.subrange(k * size as int, (k + 1) * size as int),
    )
}

/// What is left of `samples` behind its whole windows.
pub open spec fn leftover(samples: Seq<i16>, size: nat) -> Seq<i16>
    recommends
        size > 0,
{
    samples.skip((samples.len() / size) * size as int)
}

/// The chunks laid end to end.
pub open spec fn glued(chunks: Seq<Seq<i16>>) -> Seq<i16>
    decreases chunks.len(),
{
    if chunks.len() == 0 {
        Seq::empty()
    } else {
        glued(chunks.drop_last()) + chunks.last()
    }
}

/// A chunk without sound: every sample is zero. A chunk without samples is
/// one of them.
pub open spec fn is_silent(pcm: Seq<i16>) -> bool {
    forall|i: int| 0 <= i < pcm.len() ==> #[trigger] pcm[i] == 0
}

/// The chunks that carry sound, in their order.
pub open spec fn audible(chunks: Seq<Seq<i16>>) -> Seq<Seq<i16>> {
    chunks.filter(|chunk: Seq<i16>| !is_silent(chunk))
}

/// The contents of a list of chunks.
pub open spec fn chunk_views(chunks: Seq<Vec<i16>>) -> Seq<Seq<i16>> {
    chunks.map_values(|chunk: Vec<i16>| chunk@)
}

/// Where the `count`-th window ends: within the samples, as long as `count`
/// windows fit.
pub proof fn lemma_window_bounds(len: nat, size: nat, count: nat)
    requires
        size > 0,
        count <= len / size,
    ensures
        count * size <= len,
        (len / size) * size <= len,
        len - (len / size) * size < size,
        (count + 1) * size == count * size + size,
{
    assert((len / size) * size <= len && len - (len / size) * size < size) by (nonlinear_arith)
        requires
            size > 0,
    ;
    assert(count * size <= (len / size) * size) by (nonlinear_arith)
        requires
            count <= len / size,
    ;
    assert((count + 1) * size == count * size + size) by (nonlinear_arith);
}

/// `count` windows and less than one more make up `len` only if `count` is
/// the number of whole windows in `len`.
pub proof fn lemma_window_count(len: nat, size: nat, count: nat)
    requires
        size > 0,
        count * size <= len < count * size + size,
    ensures
        len / size == count,
{
    vstd::arithmetic::div_mod::lemma_fundamental_div_mod_converse(
        len as int,
        size as int,
        count as int,
        len - count * size,
    );
}

/// Every window holds exactly `size` samples, and what is left over is
/// shorter than a window.
pub proof fn lemma_chunk_sizes(samples: Seq<i16>, size: nat)
    requires
        size > 0,
    ensures
        forall|k: int|
            0 <= k < full_chunks(samples, size).len() ==> (#[trigger] full_chunks(
                samples,
                size,
            )[k]).len() == size,
        leftover(samples, size).len() < size,
        full_chunks(samples, size).len() == samples.len() / size,
{
    lemma_window_bounds(samples.len(), size, samples.len() / size);
    assert forall|k: int| 0 <= k < full_chunks(samples, size).len() implies (#[trigger] full_chunks(
        samples,
        size,
    )[k]).len() == size by {
        lemma_window_bounds(samples.len(), size, k as nat);
        lemma_window_bounds(samples.len(), size, (k + 1) as nat);
    }
}

/// The first `count` windows, laid end to end, are the first `count * size`
/// samples.
pub proof fn lemma_glued_prefix(samples: Seq<i16>, size: nat, count: nat)
    requires
        size > 0,
        count <= samples.len() / size,
    ensures
        count * size <= samples.len(),
        glued(full_chunks(samples, size).take(count as int)) == samples.take(count * size as int),
    decreases count,
{
    lemma_window_bounds(samples.len(), size, count);
    let windows = full_chunks(samples, size);
    assert(windows.len() == samples.len() / size);
    if count == 0 {
        assert(count * size == 0) by (nonlinear_arith)
            requires
                count == 0,
        ;
        assert(windows.take(0).len() == 0);
        assert(glued(windows.take(0)) =~= samples.take(0));
    } else {
        let before = (count - 1) as nat;
        lemma_glued_prefix(samples, size, before);
        lemma_window_bounds(samples.len(), size, before);
        let taken = windows.take(count as int);
        assert(taken.len() == count);
        assert(taken.drop_last() =~= windows.take(before as int));
        assert(taken.last() == windows[before as int]);
        assert(windows[before as int] == samples.subrange(
            before * size as int,
            (before + 1) * size as int,
        ));
        assert(glued(taken) == glued(taken.drop_last()) + taken.last());
        assert(samples.take(before * size as int) + samples.subrange(
            before * size as int,
            (before + 1) * size as int,
        ) =~= samples.take(count * size as int));
        assert(glued(taken) == samples.take(count * size as int));
    }
}

/// Cutting loses nothing and reorders nothing: the windows followed by what
/// is left over are the samples.
pub proof fn lemma_chunks_cover(samples: Seq<i16>, size: nat)
    requires
        size > 0,
    ensures
        glued(full_chunks(samples, size)) + leftover(samples, size) == samples,
{
    let count = samples.len() / size;
    lemma_glued_prefix(samples, size, count);
    let windows = full_chunks(samples, size);
    assert(windows.take(count as int) =~= windows);
    assert(samples.take(count * size as int) + samples.skip(count * size as int) =~= samples);
}

/// Laying chunks end to end goes chunk by chunk.
pub proof fn lemma_glued_concat(first: Seq<Seq<i16>>, second: Seq<Seq<i16>>)
    ensures
        glued(first + second) == glued(first) + glued(second),
    decreases second.len(),
{
    if second.len() == 0 {
        assert(first + second =~= first);
        assert(glued(first) + glued(second) =~= glued(first));
    } else {
        lemma_glued_concat(first, second.drop_last());
        assert((first + second).drop_last() =~= first + second.drop_last());
        assert((first + second).last() == second.last());
        assert(glued(first + second) =~= glued(first) + glued(second));
    }
}

/// Takes the whole windows of `size` samples off the front of `buffer`,
/// oldest first, and leaves the rest.
pub fn drain_chunks(buffer: &mut Vec<i16>, size: usize) -> (chunks: Vec<Vec<i16>>)
    requires
        size >= 1,
    ensures
        chunk_views(chunks@) == full_chunks(old(buffer)@, size as nat),
        final(buffer)@ == leftover(old(buffer)@, size as nat),
{
    let ghost samples = buffer@;
    let ghost windows = full_chunks(samples, size as nat);
    let mut chunks: Vec<Vec<i16>> = Vec::new();
    proof {
        assert(chunk_views(chunks@) =~= windows.take(0));
        assert(samples.skip(0) =~= samples);
    }
    while buffer.len() >= size
        invariant
            size >= 1,
            windows == full_chunks(samples, size as nat),
            chunks@.len() <= samples.len() / (size as nat),
            chunks@.len() * size <= samples.len(),
            chunk_views(chunks@) == windows.take(chunks@.len() as int),
            buffer@ == samples.skip(chunks@.len() * size as int),
        decreases buffer@.len(),
    {
        let ghost count = chunks@.len();
        proof {
            assert(count * size + size <= samples.len());
            assert(count + 1 <= samples.len() / (size as nat)) by {
                assert((count + 1) * size == count * size + size) by (nonlinear_arith);
                vstd::arithmetic::div_mod::lemma_div_is_ordered(
                    (count + 1) * size as int,
                    samples.len() as int,
                    size as int,
                );
                vstd::arithmetic::div_mod::lemma_div_multiples_vanish(
                    (count + 1) as int,
                    size as int,
                );
                assert((count + 1) * size == size * (count + 1)) by (nonlinear_arith);
            }
            lemma_window_bounds(samples.len(), size as nat, count);
            lemma_window_bounds(samples.len(), size as nat, (count + 1) as nat);
        }
        let mut chunk = buffer.split_off(size);
        std::mem::swap(buffer, &mut chunk);
        proof {
            assert(chunk@ =~= windows[count as int]);
            assert(buffer@ =~= samples.skip((count + 1) * size as int));
        }
        chunks.push(chunk);
        proof {
            assert(chunk_views(chunks@) =~= windows.take((count + 1) as int));
        }
    }
    proof {
        let count = chunks@.len();
        lemma_window_bounds(samples.len(), size as nat, count);
        lemma_window_count(samples.len(), size as nat, count);
        assert(windows.take(count as int) =~= windows);
    }
    chunks
}

/// Whether a chunk is without sound: it has no sample, or none but zeros.
pub fn all_silent(samples: &[i16]) -> (silent: bool)
    ensures
        silent == is_silent(samples@),
{
    let mut i: usize = 0;
    while i < samples.len()
        invariant
            i <= samples@.len(),
            forall|j: int| 0 <= j < i ==> #[trigger] samples@[j] == 0,
        decreases samples@.len() - i,
    {
        if samples[i] != 0 {
            return false;
        }
        i += 1;
    }
    true
}

} // verus!
