//! What holds of the engine whatever the events are.
//!
//! The statements are over the model of the engine and the roster, which
//! the executable operations are proved to follow.

use crate::captions::{eligible, needs_relabel, relabelled, relabelled_entry, EntryView};
use crate::chunking::{
    audible, full_chunks, glued, is_silent, leftover, lemma_chunk_sizes, lemma_chunks_cover,
    lemma_glued_concat,
};
use crate::events::{dispatched_chunks, AudioView, DispatchView, EffectView};
use crate::identity::SpeakerView;
use crate::model::{
    all_flushed, and_then, announced, audio_taken, buffered, disconnected, dispatched,
    dispatched_each, flushed, gone_silent, idle, is_mapped, lemma_dispatched_each_sound,
    lemma_dispatched_sound, lemma_flushed_buffers, lemma_resolution_sound, membership_seen, pushed,
    resolution, silence_flushed, silence_taken, spoke_up, stay, stream_closed, streams_of, ticked,
    well_formed, AggregatorView, CaptionPipelineConfig, Step,
};
use crate::roster::{
    after_guess, consistent, guess_of, is_member, is_sole_member, is_waiting,
    lemma_confirmed_consistent, lemma_departed_consistent, lemma_filter_pending,
    lemma_joined_consistent, lemma_others_than, membership_change, observed, others_than,
    sole_member, waiting_in, MembershipChange, PendingJoin, RosterView,
};
use vstd::prelude::*;

verus! {

/// The samples of the chunks among the effects, chunk by chunk, in the
/// order of dispatch.
pub open spec fn dispatched_samples(effects: Seq<EffectView>) -> Seq<Seq<i16>> {
    dispatched_chunks(effects).map_values(|chunk: DispatchView| chunk.pcm)
}

/// The audio of one stream over several ticks: the samples of each tick
/// and the time at which they arrived.
pub struct TimedSamples {
    pub samples: Seq<i16>,
    pub at: u64,
}

/// The samples of the ticks, laid end to end in the order of arrival.
pub open spec fn received(ticks: Seq<TimedSamples>) -> Seq<i16>
    decreases ticks.len(),
{
    if ticks.len() == 0 {
        Seq::empty()
    } else {
        received(ticks.drop_last()) + ticks.last().samples
    }
}

/// The engine after the ticks of one stream were pushed one after
/// another.
pub open spec fn fed(
    aggregator: AggregatorView,
    roster: RosterView,
    ssrc: u32,
    ticks: Seq<TimedSamples>,
) -> Step
    decreases ticks.len(),
{
    if ticks.len() == 0 {
        stay(aggregator, roster)
    } else {
        let before = fed(aggregator, roster, ssrc, ticks.drop_last());
        and_then(
            before,
            pushed(before.aggregator, before.roster, ssrc, ticks.last().samples, ticks.last().at),
        )
    }
}

/// Every chunk holds exactly `size` samples.
pub open spec fn all_of_size(chunks: Seq<Seq<i16>>, size: nat) -> bool {
    forall|k: int| 0 <= k < chunks.len() ==> (#[trigger] chunks[k]).len() == size
}

/// The chunks among two runs of effects are those of the first followed
/// by those of the second.
pub proof fn lemma_dispatched_chunks_concat(first: Seq<EffectView>, second: Seq<EffectView>)
    ensures
        dispatched_chunks(first + second) == dispatched_chunks(first) + dispatched_chunks(second),
        dispatched_samples(first + second) == dispatched_samples(first) + dispatched_samples(
            second,
        ),
    decreases second.len(),
{
    if second.len() == 0 {
        assert(first + second =~= first);
        assert(dispatched_chunks(first) + dispatched_chunks(second) =~= dispatched_chunks(first));
    } else {
        lemma_dispatched_chunks_concat(first, second.drop_last());
        assert((first + second).drop_last() =~= first + second.drop_last());
        assert((first + second).last() == second.last());
        assert(dispatched_chunks(first + second) =~= dispatched_chunks(first) + dispatched_chunks(
            second,
        ));
    }
    assert(dispatched_samples(first + second) =~= dispatched_samples(first) + dispatched_samples(
        second,
    ));
}

/// None of the chunks is without sound.
pub open spec fn none_silent(chunks: Seq<Seq<i16>>) -> bool {
    forall|k: int| 0 <= k < chunks.len() ==> !is_silent(#[trigger] chunks[k])
}

/// The chunks that are cut while the ticks of one stream are taken in,
/// starting from what the buffer held, in the order in which they are cut.
pub open spec fn cut_over(held: Seq<i16>, ticks: Seq<TimedSamples>, size: nat) -> Seq<Seq<i16>>
    decreases ticks.len(),
{
    if ticks.len() == 0 {
        Seq::empty()
    } else {
        cut_over(held, ticks.drop_last(), size) + full_chunks(
            left_over(held, ticks.drop_last(), size) + ticks.last().samples,
            size,
        )
    }
}

/// What stays buffered once the ticks of one stream were taken in.
pub open spec fn left_over(held: Seq<i16>, ticks: Seq<TimedSamples>, size: nat) -> Seq<i16>
    decreases ticks.len(),
{
    if ticks.len() == 0 {
        held
    } else {
        leftover(left_over(held, ticks.drop_last(), size) + ticks.last().samples, size)
    }
}

/// What a flush hands out of a buffer: all of it as one chunk, or nothing
/// where it is without sound.
pub open spec fn flush_yield(held: Seq<i16>) -> Seq<Seq<i16>> {
    if is_silent(held) {
        Seq::empty()
    } else {
        seq![held]
    }
}

/// One more chunk is audible or not.
pub proof fn lemma_audible_push(chunks: Seq<Seq<i16>>, chunk: Seq<i16>)
    ensures
        audible(chunks.push(chunk)) == if is_silent(chunk) {
            audible(chunks)
        } else {
            audible(chunks).push(chunk)
        },
{
    reveal(Seq::filter);
    assert(chunks.push(chunk).drop_last() =~= chunks);
    assert(chunks.push(chunk).last() == chunk);
}

/// The audible chunks of two runs are those of the first followed by those
/// of the second; they keep their sizes; and where no chunk is without
/// sound, all are audible.
pub proof fn lemma_audible(first: Seq<Seq<i16>>, second: Seq<Seq<i16>>, size: nat)
    ensures
        audible(first + second) == audible(first) + audible(second),
        all_of_size(second, size) ==> all_of_size(audible(second), size),
        none_silent(second) ==> audible(second) == second,
    decreases second.len(),
{
    reveal(Seq::filter);
    if second.len() == 0 {
        assert(first + second =~= first);
        assert(audible(first) + audible(second) =~= audible(first));
    } else {
        let front = second.drop_last();
        let last = second.last();
        lemma_audible(first, front, size);
        lemma_audible_push(first + front, last);
        lemma_audible_push(front, last);
        assert(front.push(last) =~= second);
        assert((first + front).push(last) =~= first + second);
        assert(audible(first) + audible(front).push(last) =~= (audible(first) + audible(
            front,
        )).push(last));
        if all_of_size(second, size) {
            assert forall|k: int| 0 <= k < front.len() implies (#[trigger] front[k]).len()
                == size by {
                assert(front[k] == second[k]);
            }
            assert(second[second.len() - 1].len() == size);
        }
        if none_silent(second) {
            assert forall|k: int| 0 <= k < front.len() implies !is_silent(#[trigger] front[k]) by {
                assert(front[k] == second[k]);
            }
            assert(!is_silent(second[second.len() - 1]));
        }
    }
}

/// A dispatch asks for exactly one chunk, with the samples and the speaker
/// it was given; for none when the samples are without sound.
pub proof fn lemma_dispatched_yield(
    aggregator: AggregatorView,
    roster: RosterView,
    identity: SpeakerView,
    pcm: Seq<i16>,
    now: u64,
)
    ensures
        is_silent(pcm) ==> dispatched(aggregator, roster, identity, pcm, now) == stay(
            aggregator,
            roster,
        ),
        is_silent(pcm) ==> dispatched_chunks(
            dispatched(aggregator, roster, identity, pcm, now).effects,
        ) == Seq::<DispatchView>::empty(),
        !is_silent(pcm) ==> dispatched_chunks(
            dispatched(aggregator, roster, identity, pcm, now).effects,
        ) == seq![
            DispatchView {
                channel_id: aggregator.config.channel_id,
                guild_id: aggregator.config.guild_id,
                speaker: identity,
                pcm,
                sample_rate: aggregator.config.sample_rate,
            },
        ],
        dispatched_samples(dispatched(aggregator, roster, identity, pcm, now).effects)
            == flush_yield(pcm),
{
    reveal_with_fuel(dispatched_chunks, 3);
    let effects = dispatched(aggregator, roster, identity, pcm, now).effects;
    if !is_silent(pcm) {
        let chunk = DispatchView {
            channel_id: aggregator.config.channel_id,
            guild_id: aggregator.config.guild_id,
            speaker: identity,
            pcm,
            sample_rate: aggregator.config.sample_rate,
        };
        assert(effects.last() == EffectView::Dispatch(chunk));
        let front = effects.drop_last();
        assert(dispatched_chunks(front) =~= Seq::<DispatchView>::empty()) by {
            if front.len() > 0 {
                assert(front.len() == 1);
                assert(front.drop_last() =~= Seq::<EffectView>::empty());
            }
        }
        assert(dispatched_chunks(effects) =~= seq![chunk]);
        assert(dispatched_samples(effects) =~= seq![pcm]);
    } else {
        assert(effects =~= Seq::<EffectView>::empty());
        assert(dispatched_samples(effects) =~= Seq::<Seq<i16>>::empty());
    }
}

/// Dispatching chunks one after another asks for exactly those of them that
/// carry sound, in order, each attributed to the speaker given.
pub proof fn lemma_dispatched_each_yield(
    aggregator: AggregatorView,
    roster: RosterView,
    identity: SpeakerView,
    chunks: Seq<Seq<i16>>,
    now: u64,
)
    ensures
        dispatched_samples(dispatched_each(aggregator, roster, identity, chunks, now).effects)
            == audible(chunks),
        forall|k: int|
            0 <= k < dispatched_chunks(
                dispatched_each(aggregator, roster, identity, chunks, now).effects,
            ).len() ==> (#[trigger] dispatched_chunks(
                dispatched_each(aggregator, roster, identity, chunks, now).effects,
            )[k]).speaker == identity,
    decreases chunks.len(),
{
    reveal(Seq::filter);
    if chunks.len() == 0 {
        assert(dispatched_samples(Seq::<EffectView>::empty()) =~= audible(chunks));
    } else {
        let front = chunks.drop_last();
        lemma_dispatched_each_yield(aggregator, roster, identity, front, now);
        let before = dispatched_each(aggregator, roster, identity, front, now);
        let step = dispatched(before.aggregator, before.roster, identity, chunks.last(), now);
        lemma_dispatched_yield(before.aggregator, before.roster, identity, chunks.last(), now);
        lemma_dispatched_chunks_concat(before.effects, step.effects);
        lemma_audible_push(front, chunks.last());
        assert(front.push(chunks.last()) =~= chunks);
        assert(audible(front) + seq![chunks.last()] =~= audible(front).push(chunks.last()));
        assert(audible(front) + Seq::<Seq<i16>>::empty() =~= audible(front));
    }
}

/// Pushing samples cuts what is buffered, followed by the samples, into
/// whole chunks of the configured size and a rest that is shorter: nothing
/// is lost and nothing reordered on the way into the chunks. The chunks
/// that carry sound are dispatched, in order, each attributed to the
/// speaker that the stream resolves to; a chunk of nothing but zeros is
/// dropped. The rest stays buffered. So where no chunk is without sound,
/// the chunks dispatched, laid end to end, followed by what stays buffered,
/// are what was buffered followed by the samples pushed.
pub proof fn law_push_conserves_samples(
    aggregator: AggregatorView,
    roster: RosterView,
    ssrc: u32,
    samples: Seq<i16>,
    now: u64,
)
    requires
        well_formed(aggregator),
        consistent(roster),
    ensures
        ({
            let size = aggregator.config.chunk_samples as nat;
            let step = pushed(aggregator, roster, ssrc, samples, now);
            let cut = full_chunks(buffered(aggregator, ssrc) + samples, size);
            &&& dispatched_samples(step.effects) == audible(cut)
            &&& buffered(step.aggregator, ssrc) == leftover(
                buffered(aggregator, ssrc) + samples,
                size,
            )
            &&& glued(cut) + buffered(step.aggregator, ssrc) == buffered(aggregator, ssrc) + samples
            &&& none_silent(cut) ==> glued(dispatched_samples(step.effects)) + buffered(
                step.aggregator,
                ssrc,
            ) == buffered(aggregator, ssrc) + samples
            &&& all_of_size(cut, size)
            &&& all_of_size(dispatched_samples(step.effects), size)
            &&& buffered(step.aggregator, ssrc).len() < size
            &&& forall|other: u32|
                other != ssrc ==> #[trigger] buffered(step.aggregator, other) == buffered(
                    aggregator,
                    other,
                )
            &&& well_formed(step.aggregator)
            &&& consistent(step.roster)
            &&& step.aggregator.config == aggregator.config
            &&& samples.len() > 0 ==> forall|k: int|
                0 <= k < dispatched_chunks(step.effects).len() ==> (#[trigger] dispatched_chunks(
                    step.effects,
                )[k]).speaker == resolution(aggregator, roster, ssrc, None).identity
        }),
{
    let size = aggregator.config.chunk_samples as nat;
    let held = buffered(aggregator, ssrc);
    let all = held + samples;
    let cut = full_chunks(all, size);
    lemma_chunk_sizes(all, size);
    lemma_chunks_cover(all, size);
    lemma_audible(Seq::empty(), cut, size);
    if samples.len() == 0 {
        assert(all =~= held);
        assert(held.len() < size);
        assert(all.len() / size == 0) by (nonlinear_arith)
            requires
                all.len() < size,
        ;
        assert(cut =~= Seq::<Seq<i16>>::empty());
        assert(leftover(all, size) =~= held) by {
            assert(0 * size == 0) by (nonlinear_arith);
        }
        assert(dispatched_samples(Seq::<EffectView>::empty()) =~= Seq::<Seq<i16>>::empty());
    } else {
        lemma_resolution_sound(aggregator, roster, ssrc, None);
        let resolved = resolution(aggregator, roster, ssrc, None);
        let kept = AggregatorView {
            buffers: resolved.aggregator.buffers.insert(
                ssrc,
                crate::buffer::BufferView {
                    samples: leftover(all, size),
                    speaker: resolved.identity,
                    last_activity: now,
                },
            ),
            ..resolved.aggregator
        };
        assert(well_formed(kept));
        lemma_dispatched_each_sound(kept, resolved.roster, resolved.identity, cut, now);
        lemma_dispatched_each_yield(kept, resolved.roster, resolved.identity, cut, now);
    }
}

/// A flush hands out everything that was buffered as one chunk, shorter
/// than a full chunk, and leaves no buffer. A buffer that is missing, empty
/// or holds nothing but zeros gives no chunk.
pub proof fn law_flush_empties_buffer(
    aggregator: AggregatorView,
    roster: RosterView,
    ssrc: u32,
    now: u64,
)
    requires
        well_formed(aggregator),
        consistent(roster),
    ensures
        dispatched_samples(flushed(aggregator, roster, ssrc, now).effects) == flush_yield(
            buffered(aggregator, ssrc),
        ),
        !is_silent(buffered(aggregator, ssrc)) ==> glued(
            dispatched_samples(flushed(aggregator, roster, ssrc, now).effects),
        ) == buffered(aggregator, ssrc),
        buffered(aggregator, ssrc).len() < aggregator.config.chunk_samples,
        !flushed(aggregator, roster, ssrc, now).aggregator.buffers.contains_key(ssrc),
        forall|other: u32|
            other != ssrc ==> #[trigger] buffered(
                flushed(aggregator, roster, ssrc, now).aggregator,
                other,
            ) == buffered(aggregator, other),
        well_formed(flushed(aggregator, roster, ssrc, now).aggregator),
        consistent(flushed(aggregator, roster, ssrc, now).roster),
        flushed(aggregator, roster, ssrc, now).aggregator.config == aggregator.config,
{
    reveal_with_fuel(glued, 2);
    if aggregator.buffers.contains_key(ssrc) {
        let buffer = aggregator.buffers[ssrc];
        let without = AggregatorView { buffers: aggregator.buffers.remove(ssrc), ..aggregator };
        assert(well_formed(without));
        if buffer.samples.len() > 0 {
            lemma_resolution_sound(without, roster, ssrc, Some(buffer.speaker));
            let resolved = resolution(without, roster, ssrc, Some(buffer.speaker));
            lemma_dispatched_sound(
                resolved.aggregator,
                resolved.roster,
                resolved.identity,
                buffer.samples,
                now,
            );
            lemma_dispatched_yield(
                resolved.aggregator,
                resolved.roster,
                resolved.identity,
                buffer.samples,
                now,
            );
            let pieces = seq![buffer.samples];
            assert(pieces.drop_last() =~= Seq::<Seq<i16>>::empty());
            assert(glued(pieces) =~= buffer.samples);
        } else {
            assert(dispatched_samples(Seq::<EffectView>::empty()) =~= Seq::<Seq<i16>>::empty());
        }
    } else {
        assert(dispatched_samples(Seq::<EffectView>::empty()) =~= Seq::<Seq<i16>>::empty());
    }
}

/// A stream that has gone silent is flushed once: what it held goes out
/// as one chunk, shorter than a full chunk, unless it is nothing but zeros,
/// and nothing stays buffered, so that a second silence flush, whenever it
/// comes, does nothing until new samples arrive. A stream that has not gone
/// silent is left alone.
pub proof fn law_silence_flush_once(
    aggregator: AggregatorView,
    roster: RosterView,
    ssrc: u32,
    now: u64,
    later: u64,
)
    requires
        well_formed(aggregator),
        consistent(roster),
    ensures
        gone_silent(aggregator, ssrc, now) ==> dispatched_samples(
            silence_flushed(aggregator, roster, ssrc, now).effects,
        ) == flush_yield(buffered(aggregator, ssrc)) && 0 < buffered(aggregator, ssrc).len()
            < aggregator.config.chunk_samples,
        !gone_silent(aggregator, ssrc, now) ==> silence_flushed(aggregator, roster, ssrc, now)
            == stay(aggregator, roster),
        gone_silent(aggregator, ssrc, now) ==> buffered(
            silence_flushed(aggregator, roster, ssrc, now).aggregator,
            ssrc,
        ).len() == 0 && !gone_silent(
            silence_flushed(aggregator, roster, ssrc, now).aggregator,
            ssrc,
            later,
        ) && silence_flushed(
            silence_flushed(aggregator, roster, ssrc, now).aggregator,
            silence_flushed(aggregator, roster, ssrc, now).roster,
            ssrc,
            later,
        ) == stay(
            silence_flushed(aggregator, roster, ssrc, now).aggregator,
            silence_flushed(aggregator, roster, ssrc, now).roster,
        ),
        forall|other: u32|
            other != ssrc ==> #[trigger] buffered(
                silence_flushed(aggregator, roster, ssrc, now).aggregator,
                other,
            ) == buffered(aggregator, other),
        well_formed(silence_flushed(aggregator, roster, ssrc, now).aggregator),
        consistent(silence_flushed(aggregator, roster, ssrc, now).roster),
{
    if gone_silent(aggregator, ssrc, now) {
        law_flush_empties_buffer(aggregator, roster, ssrc, now);
    }
}

/// Over any sequence of ticks of one stream, the samples that were
/// buffered at the start, followed by the samples received in the order of
/// arrival, are cut into chunks of exactly the configured size, in order and
/// without loss, and a rest that stays buffered. The chunks that carry
/// sound are the chunks dispatched, in the order of dispatch; chunks of
/// nothing but zeros are dropped. So where no chunk is without sound, the
/// chunks dispatched, laid end to end, followed by what is still buffered,
/// are what was buffered followed by what was received.
pub proof fn law_stream_conserves_samples(
    aggregator: AggregatorView,
    roster: RosterView,
    ssrc: u32,
    ticks: Seq<TimedSamples>,
)
    requires
        well_formed(aggregator),
        consistent(roster),
    ensures
        ({
            let size = aggregator.config.chunk_samples as nat;
            let run = fed(aggregator, roster, ssrc, ticks);
            let cut = cut_over(buffered(aggregator, ssrc), ticks, size);
            &&& dispatched_samples(run.effects) == audible(cut)
            &&& buffered(run.aggregator, ssrc) == left_over(buffered(aggregator, ssrc), ticks, size)
            &&& glued(cut) + buffered(run.aggregator, ssrc) == buffered(aggregator, ssrc)
                + received(ticks)
            &&& none_silent(cut) ==> glued(dispatched_samples(run.effects)) + buffered(
                run.aggregator,
                ssrc,
            ) == buffered(aggregator, ssrc) + received(ticks)
            &&& all_of_size(cut, size)
            &&& all_of_size(dispatched_samples(run.effects), size)
            &&& buffered(run.aggregator, ssrc).len() < size
            &&& well_formed(run.aggregator)
            &&& consistent(run.roster)
            &&& run.aggregator.config == aggregator.config
        }),
    decreases ticks.len(),
{
    let size = aggregator.config.chunk_samples as nat;
    let held = buffered(aggregator, ssrc);
    if ticks.len() == 0 {
        assert(dispatched_samples(Seq::<EffectView>::empty()) =~= Seq::<Seq<i16>>::empty());
        lemma_audible(Seq::empty(), Seq::empty(), size);
        assert(glued(Seq::<Seq<i16>>::empty()) + held =~= held + received(ticks));
    } else {
        let front = ticks.drop_last();
        let last = ticks.last();
        law_stream_conserves_samples(aggregator, roster, ssrc, front);
        let before = fed(aggregator, roster, ssrc, front);
        let step = pushed(before.aggregator, before.roster, ssrc, last.samples, last.at);
        law_push_conserves_samples(before.aggregator, before.roster, ssrc, last.samples, last.at);
        lemma_dispatched_chunks_concat(before.effects, step.effects);
        let early = cut_over(held, front, size);
        let left = left_over(held, front, size);
        let late = full_chunks(left + last.samples, size);
        lemma_audible(early, late, size);
        lemma_audible(Seq::empty(), early + late, size);
        lemma_glued_concat(early, late);
        let rest = buffered(step.aggregator, ssrc);
        assert(glued(early + late) + rest =~= glued(early) + (glued(late) + rest));
        assert(glued(early) + (left + last.samples) =~= (glued(early) + left) + last.samples);
        assert((held + received(front)) + last.samples =~= held + received(ticks));
        assert forall|k: int| 0 <= k < (early + late).len() implies (#[trigger] (early + late)[k]).len()
            == size by {
            if k < early.len() {
                assert((early + late)[k] == early[k]);
            } else {
                assert((early + late)[k] == late[k - early.len()]);
            }
        }
    }
}

/// Over the whole life of a stream that started with an empty buffer, from
/// its first tick to its flush: the samples received are cut, in order and
/// without loss, into chunks of exactly the configured size and a last one
/// that is shorter, and those of them that carry sound are the chunks
/// dispatched, in order. Where none is without sound, the chunks dispatched,
/// laid end to end, are exactly the samples received.
pub proof fn law_stream_lifetime(
    aggregator: AggregatorView,
    roster: RosterView,
    ssrc: u32,
    ticks: Seq<TimedSamples>,
    now: u64,
)
    requires
        well_formed(aggregator),
        consistent(roster),
        buffered(aggregator, ssrc).len() == 0,
    ensures
        ({
            let size = aggregator.config.chunk_samples as nat;
            let run = fed(aggregator, roster, ssrc, ticks);
            let end = flushed(run.aggregator, run.roster, ssrc, now);
            let cut = cut_over(Seq::empty(), ticks, size);
            let rest = left_over(Seq::empty(), ticks, size);
            &&& dispatched_samples(and_then(run, end).effects) == audible(cut) + flush_yield(rest)
            &&& glued(cut) + rest == received(ticks)
            &&& all_of_size(cut, size)
            &&& rest.len() < size
            &&& none_silent(cut) && (rest.len() == 0 || !is_silent(rest)) ==> glued(
                dispatched_samples(and_then(run, end).effects),
            ) == received(ticks)
            &&& buffered(end.aggregator, ssrc).len() == 0
        }),
{
    reveal_with_fuel(glued, 2);
    let size = aggregator.config.chunk_samples as nat;
    let run = fed(aggregator, roster, ssrc, ticks);
    let end = flushed(run.aggregator, run.roster, ssrc, now);
    assert(buffered(aggregator, ssrc) =~= Seq::<i16>::empty());
    law_stream_conserves_samples(aggregator, roster, ssrc, ticks);
    law_flush_empties_buffer(run.aggregator, run.roster, ssrc, now);
    lemma_dispatched_chunks_concat(run.effects, end.effects);
    let cut = cut_over(Seq::empty(), ticks, size);
    let rest = left_over(Seq::empty(), ticks, size);
    let late = flush_yield(rest);
    lemma_glued_concat(audible(cut), late);
    assert(Seq::<i16>::empty() + received(ticks) =~= received(ticks));
    if !is_silent(rest) {
        assert(late.drop_last() =~= Seq::<Seq<i16>>::empty());
        assert(glued(late) =~= rest);
    } else {
        assert(glued(late) =~= Seq::<i16>::empty());
        if rest.len() == 0 {
            assert(glued(cut) + rest =~= glued(cut));
            assert(glued(audible(cut)) + glued(late) =~= glued(audible(cut)));
        }
    }
}

/// With exactly one join pending into the channel, a stream that the
/// identity map does not know is given to that user: the user is the
/// identity, the identity map remembers the guess, and the user is no
/// longer pending. Asked again at once, the roster finds no pending join
/// into the channel and falls through to the single participant of the
/// channel, or to nobody.
pub proof fn law_single_pending_join_is_taken(
    aggregator: AggregatorView,
    roster: RosterView,
    ssrc: u32,
)
    requires
        well_formed(aggregator),
        consistent(roster),
        !aggregator.identities.contains_key(ssrc),
        waiting_in(roster.pending, aggregator.config.channel_id).len() == 1,
    ensures
        ({
            let user_id = waiting_in(roster.pending, aggregator.config.channel_id)[0].user_id;
            let resolved = resolution(aggregator, roster, ssrc, None);
            &&& resolved.identity == SpeakerView::Known(user_id)
            &&& resolved.aggregator.identities == aggregator.identities.insert(ssrc, user_id)
            &&& resolved.roster.pending == others_than(roster.pending, user_id)
            &&& forall|i: int|
                0 <= i < resolved.roster.pending.len() ==> (
                #[trigger] resolved.roster.pending[i]).user_id != user_id
            &&& waiting_in(resolved.roster.pending, aggregator.config.channel_id).len() == 0
            &&& guess_of(resolved.roster, aggregator.config.channel_id) == sole_member(
                resolved.roster.participants,
                aggregator.config.channel_id,
            )
            &&& after_guess(resolved.roster, aggregator.config.channel_id) == resolved.roster
            &&& resolved.roster.participants == roster.participants
        }),
{
    let channel_id = aggregator.config.channel_id;
    let in_channel = |entry: PendingJoin| entry.channel_id == channel_id;
    let waiting = waiting_in(roster.pending, channel_id);
    let user_id = waiting[0].user_id;
    let rest = others_than(roster.pending, user_id);
    lemma_filter_pending(roster.pending, in_channel);
    lemma_filter_pending(roster.pending, |entry: PendingJoin| entry.user_id != user_id);
    lemma_filter_pending(rest, in_channel);
    let again = waiting_in(rest, channel_id);
    if again.len() > 0 {
        let entry = again[0];
        assert(rest.contains(entry));
        let k = choose|k: int| 0 <= k < rest.len() && rest[k] == entry;
        assert(roster.pending.contains(rest[k]));
        let j = choose|j: int| 0 <= j < roster.pending.len() && roster.pending[j] == entry;
        assert(waiting.contains(roster.pending[j]));
        let w = choose|w: int| 0 <= w < waiting.len() && waiting[w] == entry;
        assert(w == 0);
        assert(rest[k].user_id != user_id);
    }
}

/// With two or more joins pending into the channel, the roster declines
/// to guess, and so does it with nobody pending into the channel and two
/// or more participants in it. A stream that has no identity yet then
/// resolves to a placeholder, never to one of the candidates.
pub proof fn law_ambiguity_gives_placeholder(
    aggregator: AggregatorView,
    roster: RosterView,
    ssrc: u32,
    first: u64,
    second: u64,
)
    requires
        well_formed(aggregator),
        consistent(roster),
        !aggregator.identities.contains_key(ssrc),
        waiting_in(roster.pending, aggregator.config.channel_id).len() >= 2 || (waiting_in(
            roster.pending,
            aggregator.config.channel_id,
        ).len() == 0 && first != second && is_member(
            roster.participants,
            aggregator.config.channel_id,
            first,
        ) && is_member(roster.participants, aggregator.config.channel_id, second)),
    ensures
        guess_of(roster, aggregator.config.channel_id).is_none(),
        resolution(aggregator, roster, ssrc, None).identity is Placeholder,
        resolution(aggregator, roster, ssrc, None).roster == roster,
        resolution(aggregator, roster, ssrc, None).aggregator.identities == aggregator.identities,
{
    let channel_id = aggregator.config.channel_id;
    let waiting = waiting_in(roster.pending, channel_id);
    if waiting.len() >= 2 {
        lemma_filter_pending(roster.pending, |entry: PendingJoin| entry.channel_id == channel_id);
        let a = waiting[0];
        let b = waiting[1];
        assert(roster.pending.contains(a));
        assert(roster.pending.contains(b));
        let i = choose|i: int| 0 <= i < roster.pending.len() && roster.pending[i] == a;
        let j = choose|j: int| 0 <= j < roster.pending.len() && roster.pending[j] == b;
        assert(is_member(roster.participants, roster.pending[i].channel_id, a.user_id));
        assert(is_member(roster.participants, roster.pending[j].channel_id, b.user_id));
        assert(a.user_id != b.user_id);
        assert forall|user_id: u64| !is_sole_member(roster.participants, channel_id, user_id) by {
            if is_sole_member(roster.participants, channel_id, user_id) {
                assert(is_member(roster.participants, channel_id, a.user_id));
                assert(is_member(roster.participants, channel_id, b.user_id));
            }
        }
    } else {
        assert forall|user_id: u64| !is_sole_member(roster.participants, channel_id, user_id) by {
            if is_sole_member(roster.participants, channel_id, user_id) {
                assert(is_member(roster.participants, channel_id, first));
                assert(is_member(roster.participants, channel_id, second));
            }
        }
    }
}

/// The identity map wins. While it knows a stream, resolving that stream
/// gives the user it holds, whatever the buffer carries and whatever the
/// roster would guess, and changes nothing. And resolving any stream never
/// takes an entry out of the identity map or changes one.
pub proof fn law_known_identity_stays(
    aggregator: AggregatorView,
    roster: RosterView,
    ssrc: u32,
    existing: Option<SpeakerView>,
)
    ensures
        aggregator.identities.contains_key(ssrc) ==> resolution(
            aggregator,
            roster,
            ssrc,
            existing,
        ).identity == SpeakerView::Known(aggregator.identities[ssrc]) && resolution(
            aggregator,
            roster,
            ssrc,
            existing,
        ).aggregator == aggregator && resolution(aggregator, roster, ssrc, existing).roster
            == roster,
        forall|other: u32| #[trigger]
            aggregator.identities.contains_key(other) ==> resolution(
                aggregator,
                roster,
                ssrc,
                existing,
            ).aggregator.identities.contains_key(other) && resolution(
                aggregator,
                roster,
                ssrc,
                existing,
            ).aggregator.identities[other] == aggregator.identities[other],
        crate::model::carried_user(existing).is_some() ==> resolution(
            aggregator,
            roster,
            ssrc,
            existing,
        ).identity is Known,
{
}

/// Relabelling is idempotent. After a correction no entry is eligible any
/// more: the same correction again reports no change and changes nothing.
/// And a correction that finds no eligible entry, and so reports no change,
/// has changed nothing.
pub proof fn law_relabel_is_idempotent(
    entries: Seq<EntryView>,
    placeholder: Seq<char>,
    new_id: u64,
    new_name: Seq<char>,
)
    ensures
        !needs_relabel(relabelled(entries, placeholder, new_id, new_name), placeholder),
        relabelled(
            relabelled(entries, placeholder, new_id, new_name),
            placeholder,
            new_id,
            new_name,
        ) == relabelled(entries, placeholder, new_id, new_name),
        !needs_relabel(entries, placeholder) ==> relabelled(
            entries,
            placeholder,
            new_id,
            new_name,
        ) == entries,
        forall|i: int|
            0 <= i < entries.len() && (#[trigger] entries[i]).speaker_id.is_some() ==> relabelled(
                entries,
                placeholder,
                new_id,
                new_name,
            )[i] == entries[i],
{
    let once = relabelled(entries, placeholder, new_id, new_name);
    assert forall|i: int| 0 <= i < once.len() implies !eligible(#[trigger] once[i], placeholder) by {
        assert(once[i] == relabelled_entry(entries[i], placeholder, new_id, new_name));
    }
    assert(relabelled(once, placeholder, new_id, new_name) =~= once);
    if !needs_relabel(entries, placeholder) {
        assert(once =~= entries);
    }
}

/// The stream belongs to the user, by the identity map.
pub open spec fn is_stream_of(identities: Map<u32, u64>, user_id: u64, ssrc: u32) -> bool {
    identities.contains_key(ssrc) && identities[ssrc] == user_id
}

/// The state after some streams of a user were closed: those streams have
/// left the identity map and the buffers, and nothing else has changed in
/// either.
pub open spec fn closed_exactly(
    before: AggregatorView,
    after: AggregatorView,
    closed: Seq<u32>,
) -> bool {
    &&& after.config == before.config
    &&& after.labels == before.labels
    &&& forall|ssrc: u32| #[trigger]
        after.identities.contains_key(ssrc) <==> before.identities.contains_key(ssrc)
            && !closed.contains(ssrc)
    &&& forall|ssrc: u32| #[trigger]
        after.identities.contains_key(ssrc) ==> after.identities[ssrc] == before.identities[ssrc]
    &&& forall|ssrc: u32| #[trigger]
        after.buffers.contains_key(ssrc) <==> before.buffers.contains_key(ssrc) && !closed.contains(
            ssrc,
        )
    &&& forall|ssrc: u32| #[trigger]
        after.buffers.contains_key(ssrc) ==> after.buffers[ssrc] == before.buffers[ssrc]
}

/// Closing streams of a user one by one closes exactly those streams.
proof fn lemma_disconnected_closes(
    aggregator: AggregatorView,
    roster: RosterView,
    user_id: u64,
    streams: Seq<u32>,
    now: u64,
)
    requires
        well_formed(aggregator),
        consistent(roster),
        streams.no_duplicates(),
        forall|i: int|
            0 <= i < streams.len() ==> is_stream_of(
                aggregator.identities,
                user_id,
                #[trigger] streams[i],
            ),
    ensures
        well_formed(disconnected(aggregator, roster, user_id, streams, now).aggregator),
        consistent(disconnected(aggregator, roster, user_id, streams, now).roster),
        closed_exactly(
            aggregator,
            disconnected(aggregator, roster, user_id, streams, now).aggregator,
            streams,
        ),
        streams.len() > 0 && aggregator.config.publish_speaker ==> disconnected(
            aggregator,
            roster,
            user_id,
            streams,
            now,
        ).aggregator.current_speaker != Some(user_id),
        streams.len() == 0 ==> disconnected(aggregator, roster, user_id, streams, now) == stay(
            aggregator,
            roster,
        ),
    decreases streams.len(),
{
    if streams.len() > 0 {
        let front = streams.drop_last();
        let ssrc = streams.last();
        assert forall|i: int| 0 <= i < front.len() implies is_stream_of(
            aggregator.identities,
            user_id,
            #[trigger] front[i],
        ) by {
            assert(front[i] == streams[i]);
        }
        assert(front.no_duplicates()) by {
            assert forall|i: int, j: int| 0 <= i < front.len() && 0 <= j < front.len() && i
                != j implies front[i] != front[j] by {
                assert(front[i] == streams[i] && front[j] == streams[j]);
            }
        }
        lemma_disconnected_closes(aggregator, roster, user_id, front, now);
        let before = disconnected(aggregator, roster, user_id, front, now);
        assert(!front.contains(ssrc)) by {
            if front.contains(ssrc) {
                let k = choose|k: int| 0 <= k < front.len() && front[k] == ssrc;
                assert(streams[k] == ssrc);
                assert(streams[streams.len() - 1] == ssrc);
            }
        }
        assert(is_stream_of(aggregator.identities, user_id, streams[streams.len() - 1]));
        assert(before.aggregator.identities.contains_key(ssrc));
        lemma_flushed_buffers(before.aggregator, before.roster, ssrc, now);
        law_flush_empties_buffer(before.aggregator, before.roster, ssrc, now);
        lemma_flush_keeps_identities(before.aggregator, before.roster, ssrc, now);
        let out = flushed(before.aggregator, before.roster, ssrc, now);
        let after = stream_closed(before.aggregator, before.roster, ssrc, user_id, now).aggregator;
        assert forall|other: u32|
            streams.contains(other) <==> front.contains(other) || other == ssrc by {
            if streams.contains(other) {
                let k = choose|k: int| 0 <= k < streams.len() && streams[k] == other;
                if k < front.len() {
                    assert(front[k] == other);
                }
            }
            if front.contains(other) {
                let k = choose|k: int| 0 <= k < front.len() && front[k] == other;
                assert(streams[k] == other);
            }
            if other == ssrc {
                assert(streams[streams.len() - 1] == other);
            }
        }
        assert(well_formed(after));
        assert(closed_exactly(aggregator, after, streams));
    }
}

/// Flushing a stream that the identity map knows changes nothing in the
/// identity map nor in the labels.
proof fn lemma_flush_keeps_identities(
    aggregator: AggregatorView,
    roster: RosterView,
    ssrc: u32,
    now: u64,
)
    requires
        well_formed(aggregator),
        consistent(roster),
        aggregator.identities.contains_key(ssrc),
    ensures
        flushed(aggregator, roster, ssrc, now).aggregator.identities == aggregator.identities,
        flushed(aggregator, roster, ssrc, now).aggregator.labels == aggregator.labels,
        flushed(aggregator, roster, ssrc, now).aggregator.config == aggregator.config,
{
    if aggregator.buffers.contains_key(ssrc) {
        let buffer = aggregator.buffers[ssrc];
        let without = AggregatorView { buffers: aggregator.buffers.remove(ssrc), ..aggregator };
        assert(well_formed(without));
        if buffer.samples.len() > 0 {
            lemma_resolution_sound(without, roster, ssrc, Some(buffer.speaker));
            let resolved = resolution(without, roster, ssrc, Some(buffer.speaker));
            lemma_dispatched_sound(
                resolved.aggregator,
                resolved.roster,
                resolved.identity,
                buffer.samples,
                now,
            );
        }
    }
}

/// When a user disconnects, every stream that the identity map has for
/// them is flushed and leaves the identity map, whatever the order in which
/// the streams are closed: afterwards no stream maps to the user and none
/// of their streams has a buffer, every other stream keeps its user and its
/// buffer, and the user is not the current speaker where one is published
/// and a stream was closed.
pub proof fn law_disconnect_closes_all_streams(
    aggregator: AggregatorView,
    roster: RosterView,
    user_id: u64,
    order: Seq<u32>,
    now: u64,
)
    requires
        well_formed(aggregator),
        consistent(roster),
        streams_of(aggregator.identities, user_id, order),
    ensures
        ({
            let after = disconnected(aggregator, roster, user_id, order, now).aggregator;
            &&& forall|ssrc: u32| !is_stream_of(after.identities, user_id, ssrc)
            &&& forall|ssrc: u32| #[trigger]
                after.identities.contains_key(ssrc) <==> aggregator.identities.contains_key(ssrc)
                    && aggregator.identities[ssrc] != user_id
            &&& forall|ssrc: u32| #[trigger]
                after.identities.contains_key(ssrc) ==> after.identities[ssrc]
                    == aggregator.identities[ssrc]
            &&& forall|ssrc: u32| #[trigger]
                after.buffers.contains_key(ssrc) <==> aggregator.buffers.contains_key(ssrc)
                    && !is_stream_of(aggregator.identities, user_id, ssrc)
            &&& forall|ssrc: u32| #[trigger]
                after.buffers.contains_key(ssrc) ==> after.buffers[ssrc] == aggregator.buffers[ssrc]
            &&& order.len() > 0 && aggregator.config.publish_speaker ==> after.current_speaker
                != Some(user_id)
            &&& well_formed(after)
            &&& consistent(disconnected(aggregator, roster, user_id, order, now).roster)
        }),
{
    assert forall|i: int| 0 <= i < order.len() implies is_stream_of(
        aggregator.identities,
        user_id,
        #[trigger] order[i],
    ) by {
        assert(order.contains(order[i]));
    }
    lemma_disconnected_closes(aggregator, roster, user_id, order, now);
    let after = disconnected(aggregator, roster, user_id, order, now).aggregator;
    assert forall|ssrc: u32| !is_stream_of(after.identities, user_id, ssrc) by {
        if is_stream_of(after.identities, user_id, ssrc) {
            assert(after.identities.contains_key(ssrc));
            assert(aggregator.identities.contains_key(ssrc));
            assert(order.contains(ssrc));
        }
    }
}

/// While every pending join is into the channel asked about, as it is for
/// a roster that follows one call, the guess depends on the length of the
/// queue alone: a queue of one gives its user, any other queue leaves the
/// guess to the participants of the channel.
pub proof fn law_guess_in_one_channel(roster: RosterView, channel_id: u64)
    requires
        forall|i: int|
            0 <= i < roster.pending.len() ==> (#[trigger] roster.pending[i]).channel_id
                == channel_id,
    ensures
        waiting_in(roster.pending, channel_id) == roster.pending,
        roster.pending.len() == 1 ==> guess_of(roster, channel_id) == Some(
            roster.pending[0].user_id,
        ),
        roster.pending.len() != 1 ==> guess_of(roster, channel_id) == sole_member(
            roster.participants,
            channel_id,
        ) && after_guess(roster, channel_id) == roster,
{
    lemma_filter_keeps_all(roster.pending, channel_id);
}

/// A filter that every entry passes keeps the queue as it is.
proof fn lemma_filter_keeps_all(pending: Seq<PendingJoin>, channel_id: u64)
    requires
        forall|i: int|
            0 <= i < pending.len() ==> (#[trigger] pending[i]).channel_id == channel_id,
    ensures
        waiting_in(pending, channel_id) == pending,
    decreases pending.len(),
{
    reveal(Seq::filter);
    if pending.len() > 0 {
        let front = pending.drop_last();
        assert forall|i: int| 0 <= i < front.len() implies (#[trigger] front[i]).channel_id
            == channel_id by {
            assert(front[i] == pending[i]);
        }
        lemma_filter_keeps_all(front, channel_id);
        assert(pending[pending.len() - 1].channel_id == channel_id);
        assert(front.push(pending.last()) =~= pending);
    } else {
        assert(waiting_in(pending, channel_id) =~= pending);
    }
}

/// Nobody is pending whom the identity map has for a stream.
pub open spec fn pending_unmapped(aggregator: AggregatorView, roster: RosterView) -> bool {
    forall|ssrc: u32| #[trigger]
        aggregator.identities.contains_key(ssrc) ==> !is_waiting(
            roster.pending,
            aggregator.identities[ssrc],
        )
}

/// The engine and the roster are each in order, and nobody is pending whom
/// the identity map has for a stream.
pub open spec fn settled(aggregator: AggregatorView, roster: RosterView) -> bool {
    &&& well_formed(aggregator)
    &&& consistent(roster)
    &&& pending_unmapped(aggregator, roster)
}

/// Whoever is pending after a user's joins were dropped was pending before,
/// and is not that user.
proof fn lemma_fewer_pending(pending: Seq<PendingJoin>, dropped: u64, user_id: u64)
    requires
        is_waiting(others_than(pending, dropped), user_id),
    ensures
        is_waiting(pending, user_id),
        user_id != dropped,
{
    lemma_others_than(pending, dropped);
    let rest = others_than(pending, dropped);
    let i = choose|i: int| 0 <= i < rest.len() && (#[trigger] rest[i]).user_id == user_id;
    assert(pending.contains(rest[i]));
    let k = choose|k: int| 0 <= k < pending.len() && pending[k] == rest[i];
    assert(pending[k].user_id == user_id);
}

/// Dropping a user's pending joins, with the identity map as it was or with
/// one more stream for that user, leaves nobody pending whom the map has.
proof fn lemma_drop_keeps_unmapped(
    aggregator: AggregatorView,
    roster: RosterView,
    after: AggregatorView,
    after_roster: RosterView,
    dropped: u64,
)
    requires
        pending_unmapped(aggregator, roster),
        after_roster.pending == others_than(roster.pending, dropped),
        forall|ssrc: u32| #[trigger]
            after.identities.contains_key(ssrc) ==> after.identities[ssrc] == dropped || (
            aggregator.identities.contains_key(ssrc) && aggregator.identities[ssrc]
                == after.identities[ssrc]),
    ensures
        pending_unmapped(after, after_roster),
        !is_waiting(after_roster.pending, dropped),
{
    assert forall|ssrc: u32| #[trigger] after.identities.contains_key(ssrc) implies !is_waiting(
        after_roster.pending,
        after.identities[ssrc],
    ) by {
        if is_waiting(after_roster.pending, after.identities[ssrc]) {
            lemma_fewer_pending(roster.pending, dropped, after.identities[ssrc]);
            assert(aggregator.identities.contains_key(ssrc));
        }
    }
    if is_waiting(after_roster.pending, dropped) {
        lemma_fewer_pending(roster.pending, dropped, dropped);
    }
}

/// The only participant of a channel is not pending, unless they are the
/// only one pending into it.
proof fn lemma_sole_member_not_waiting(roster: RosterView, channel_id: u64, user_id: u64)
    requires
        consistent(roster),
        waiting_in(roster.pending, channel_id).len() != 1,
        sole_member(roster.participants, channel_id) == Some(user_id),
    ensures
        !is_waiting(roster.pending, user_id),
{
    if is_waiting(roster.pending, user_id) {
        let in_channel = |entry: PendingJoin| entry.channel_id == channel_id;
        let i = choose|i: int|
            0 <= i < roster.pending.len() && (#[trigger] roster.pending[i]).user_id == user_id;
        assert(is_sole_member(roster.participants, channel_id, user_id));
        assert(is_member(roster.participants, roster.pending[i].channel_id, user_id));
        assert(roster.pending[i].channel_id == channel_id);
        lemma_filter_pending(roster.pending, in_channel);
        let waiting = waiting_in(roster.pending, channel_id);
        assert(waiting.contains(roster.pending[i]));
        assert(waiting.len() >= 2);
        let a = waiting[0];
        let b = waiting[1];
        assert(roster.pending.contains(a));
        assert(roster.pending.contains(b));
        let j = choose|j: int| 0 <= j < roster.pending.len() && roster.pending[j] == a;
        let k = choose|k: int| 0 <= k < roster.pending.len() && roster.pending[k] == b;
        assert(is_member(roster.participants, roster.pending[j].channel_id, a.user_id));
        assert(is_member(roster.participants, roster.pending[k].channel_id, b.user_id));
        assert(a.user_id != b.user_id);
        assert(is_member(roster.participants, channel_id, a.user_id));
        assert(is_member(roster.participants, channel_id, b.user_id));
    }
}

proof fn lemma_resolution_settled(
    aggregator: AggregatorView,
    roster: RosterView,
    ssrc: u32,
    existing: Option<SpeakerView>,
)
    requires
        settled(aggregator, roster),
    ensures
        settled(
            resolution(aggregator, roster, ssrc, existing).aggregator,
            resolution(aggregator, roster, ssrc, existing).roster,
        ),
{
    lemma_resolution_sound(aggregator, roster, ssrc, existing);
    let resolved = resolution(aggregator, roster, ssrc, existing);
    let channel_id = aggregator.config.channel_id;
    let guess = guess_of(roster, channel_id);
    if !aggregator.identities.contains_key(ssrc) && crate::model::carried_user(existing).is_none()
        && guess.is_some() {
        let user_id = guess.unwrap();
        if waiting_in(roster.pending, channel_id).len() == 1 {
            lemma_drop_keeps_unmapped(
                aggregator,
                roster,
                resolved.aggregator,
                resolved.roster,
                user_id,
            );
        } else {
            lemma_sole_member_not_waiting(roster, channel_id, user_id);
            assert(resolved.roster == roster);
        }
    }
}

proof fn lemma_dispatched_settled(
    aggregator: AggregatorView,
    roster: RosterView,
    identity: SpeakerView,
    pcm: Seq<i16>,
    now: u64,
)
    requires
        settled(aggregator, roster),
    ensures
        settled(
            dispatched(aggregator, roster, identity, pcm, now).aggregator,
            dispatched(aggregator, roster, identity, pcm, now).roster,
        ),
{
    lemma_dispatched_sound(aggregator, roster, identity, pcm, now);
    let step = dispatched(aggregator, roster, identity, pcm, now);
    if !is_silent(pcm) {
        if let SpeakerView::Known(user_id) = identity {
            lemma_drop_keeps_unmapped(aggregator, roster, step.aggregator, step.roster, user_id);
        }
    }
}

proof fn lemma_dispatched_each_settled(
    aggregator: AggregatorView,
    roster: RosterView,
    identity: SpeakerView,
    chunks: Seq<Seq<i16>>,
    now: u64,
)
    requires
        settled(aggregator, roster),
    ensures
        settled(
            dispatched_each(aggregator, roster, identity, chunks, now).aggregator,
            dispatched_each(aggregator, roster, identity, chunks, now).roster,
        ),
    decreases chunks.len(),
{
    if chunks.len() > 0 {
        lemma_dispatched_each_settled(aggregator, roster, identity, chunks.drop_last(), now);
        let before = dispatched_each(aggregator, roster, identity, chunks.drop_last(), now);
        lemma_dispatched_settled(before.aggregator, before.roster, identity, chunks.last(), now);
    }
}

proof fn lemma_pushed_settled(
    aggregator: AggregatorView,
    roster: RosterView,
    ssrc: u32,
    samples: Seq<i16>,
    now: u64,
)
    requires
        settled(aggregator, roster),
    ensures
        settled(
            pushed(aggregator, roster, ssrc, samples, now).aggregator,
            pushed(aggregator, roster, ssrc, samples, now).roster,
        ),
{
    if samples.len() > 0 {
        lemma_resolution_settled(aggregator, roster, ssrc, None);
        let resolved = resolution(aggregator, roster, ssrc, None);
        let size = aggregator.config.chunk_samples as nat;
        let all = buffered(resolved.aggregator, ssrc) + samples;
        let kept = AggregatorView {
            buffers: resolved.aggregator.buffers.insert(
                ssrc,
                crate::buffer::BufferView {
                    samples: leftover(all, size),
                    speaker: resolved.identity,
                    last_activity: now,
                },
            ),
            ..resolved.aggregator
        };
        lemma_chunk_sizes(all, size);
        assert(well_formed(kept));
        assert(pending_unmapped(kept, resolved.roster));
        lemma_dispatched_each_settled(
            kept,
            resolved.roster,
            resolved.identity,
            full_chunks(all, size),
            now,
        );
    }
}

proof fn lemma_flushed_settled(aggregator: AggregatorView, roster: RosterView, ssrc: u32, now: u64)
    requires
        settled(aggregator, roster),
    ensures
        settled(
            flushed(aggregator, roster, ssrc, now).aggregator,
            flushed(aggregator, roster, ssrc, now).roster,
        ),
{
    if aggregator.buffers.contains_key(ssrc) {
        let buffer = aggregator.buffers[ssrc];
        let without = AggregatorView { buffers: aggregator.buffers.remove(ssrc), ..aggregator };
        assert(well_formed(without));
        assert(pending_unmapped(without, roster));
        if buffer.samples.len() > 0 {
            lemma_resolution_settled(without, roster, ssrc, Some(buffer.speaker));
            let resolved = resolution(without, roster, ssrc, Some(buffer.speaker));
            lemma_dispatched_settled(
                resolved.aggregator,
                resolved.roster,
                resolved.identity,
                buffer.samples,
                now,
            );
        }
    }
}

proof fn lemma_spoke_up_settled(
    aggregator: AggregatorView,
    roster: RosterView,
    ssrc: u32,
    user_id: Option<u64>,
    is_speaking: bool,
    now: u64,
)
    requires
        settled(aggregator, roster),
    ensures
        settled(
            spoke_up(aggregator, roster, ssrc, user_id, is_speaking, now).aggregator,
            spoke_up(aggregator, roster, ssrc, user_id, is_speaking, now).roster,
        ),
{
    let first = match user_id {
        Some(user_id) => announced(aggregator, roster, ssrc, user_id),
        None => stay(aggregator, roster),
    };
    if let Some(user_id) = user_id {
        lemma_confirmed_consistent(roster, user_id);
        lemma_drop_keeps_unmapped(aggregator, roster, first.aggregator, first.roster, user_id);
        assert(well_formed(first.aggregator));
    }
    if !is_speaking {
        lemma_flushed_settled(first.aggregator, first.roster, ssrc, now);
    }
}

proof fn lemma_audio_taken_settled(
    aggregator: AggregatorView,
    roster: RosterView,
    speaking: Seq<AudioView>,
    now: u64,
)
    requires
        settled(aggregator, roster),
    ensures
        settled(
            audio_taken(aggregator, roster, speaking, now).aggregator,
            audio_taken(aggregator, roster, speaking, now).roster,
        ),
    decreases speaking.len(),
{
    if speaking.len() > 0 {
        lemma_audio_taken_settled(aggregator, roster, speaking.drop_last(), now);
        let before = audio_taken(aggregator, roster, speaking.drop_last(), now);
        if let Some(samples) = speaking.last().decoded_voice {
            lemma_pushed_settled(
                before.aggregator,
                before.roster,
                speaking.last().ssrc,
                samples,
                now,
            );
        }
    }
}

proof fn lemma_silence_taken_settled(
    aggregator: AggregatorView,
    roster: RosterView,
    silent: Seq<u32>,
    now: u64,
)
    requires
        settled(aggregator, roster),
    ensures
        settled(
            silence_taken(aggregator, roster, silent, now).aggregator,
            silence_taken(aggregator, roster, silent, now).roster,
        ),
    decreases silent.len(),
{
    if silent.len() > 0 {
        lemma_silence_taken_settled(aggregator, roster, silent.drop_last(), now);
        let before = silence_taken(aggregator, roster, silent.drop_last(), now);
        lemma_flushed_settled(before.aggregator, before.roster, silent.last(), now);
    }
}

proof fn lemma_disconnected_settled(
    aggregator: AggregatorView,
    roster: RosterView,
    user_id: u64,
    streams: Seq<u32>,
    now: u64,
)
    requires
        settled(aggregator, roster),
    ensures
        settled(
            disconnected(aggregator, roster, user_id, streams, now).aggregator,
            disconnected(aggregator, roster, user_id, streams, now).roster,
        ),
    decreases streams.len(),
{
    if streams.len() > 0 {
        lemma_disconnected_settled(aggregator, roster, user_id, streams.drop_last(), now);
        let before = disconnected(aggregator, roster, user_id, streams.drop_last(), now);
        lemma_flushed_settled(before.aggregator, before.roster, streams.last(), now);
    }
}

proof fn lemma_all_flushed_settled(
    aggregator: AggregatorView,
    roster: RosterView,
    streams: Seq<u32>,
    now: u64,
)
    requires
        settled(aggregator, roster),
    ensures
        settled(
            all_flushed(aggregator, roster, streams, now).aggregator,
            all_flushed(aggregator, roster, streams, now).roster,
        ),
    decreases streams.len(),
{
    if streams.len() > 0 {
        lemma_all_flushed_settled(aggregator, roster, streams.drop_last(), now);
        let before = all_flushed(aggregator, roster, streams.drop_last(), now);
        lemma_flushed_settled(before.aggregator, before.roster, streams.last(), now);
    }
}

/// Nobody is ever pending whom the identity map has for a live stream. It
/// holds of an aggregator that has seen nothing, whatever the roster. And
/// where it holds before an event of the transport, it holds after it: after
/// a speaking event, after a tick, after a disconnect, in whatever order the
/// streams of the user are closed, and after the flush at the end of the
/// call. An announced user and a user guessed from the pending joins leave
/// the pending queue in the same step in which the identity map takes them.
pub proof fn law_pending_users_are_unmapped(
    config: CaptionPipelineConfig,
    aggregator: AggregatorView,
    roster: RosterView,
    ssrc: u32,
    user_id: Option<u64>,
    is_speaking: bool,
    speaking: Seq<AudioView>,
    silent: Seq<u32>,
    leaver: u64,
    order: Seq<u32>,
    now: u64,
)
    requires
        settled(aggregator, roster),
    ensures
        config.chunk_samples >= 1 ==> settled(idle(config), roster),
        settled(
            spoke_up(aggregator, roster, ssrc, user_id, is_speaking, now).aggregator,
            spoke_up(aggregator, roster, ssrc, user_id, is_speaking, now).roster,
        ),
        user_id.is_some() ==> !is_waiting(
            spoke_up(aggregator, roster, ssrc, user_id, is_speaking, now).roster.pending,
            user_id.unwrap(),
        ),
        settled(
            ticked(aggregator, roster, speaking, silent, now).aggregator,
            ticked(aggregator, roster, speaking, silent, now).roster,
        ),
        settled(
            disconnected(aggregator, roster, leaver, order, now).aggregator,
            disconnected(aggregator, roster, leaver, order, now).roster,
        ),
        settled(
            all_flushed(aggregator, roster, order, now).aggregator,
            all_flushed(aggregator, roster, order, now).roster,
        ),
{
    lemma_spoke_up_settled(aggregator, roster, ssrc, user_id, is_speaking, now);
    lemma_audio_taken_settled(aggregator, roster, speaking, now);
    let heard_all = audio_taken(aggregator, roster, speaking, now);
    lemma_silence_taken_settled(heard_all.aggregator, heard_all.roster, silent, now);
    lemma_disconnected_settled(aggregator, roster, leaver, order, now);
    lemma_all_flushed_settled(aggregator, roster, order, now);
    if let Some(user) = user_id {
        let after = spoke_up(aggregator, roster, ssrc, user_id, is_speaking, now);
        assert(after.aggregator.identities.contains_key(ssrc) && after.aggregator.identities[ssrc]
            == user) by {
            let first = announced(aggregator, roster, ssrc, user);
            assert(first.aggregator.identities.contains_key(ssrc));
            if !is_speaking {
                lemma_confirmed_consistent(roster, user);
                lemma_drop_keeps_unmapped(aggregator, roster, first.aggregator, first.roster, user);
                lemma_flush_keeps_identities(first.aggregator, first.roster, ssrc, now);
            }
        }
    }
}

/// Nobody becomes pending whom the identity map has for a stream when a
/// change of voice state is followed through the aggregator: a user who
/// leaves stops being pending, and a user who joins becomes pending only
/// while the identity map has no stream for them.
pub proof fn law_membership_keeps_pending_unmapped(
    aggregator: AggregatorView,
    roster: RosterView,
    bot_id: u64,
    user_id: u64,
    old_channel: Option<u64>,
    new_channel: Option<u64>,
    now: u64,
)
    requires
        settled(aggregator, roster),
    ensures
        settled(
            aggregator,
            membership_seen(aggregator, roster, bot_id, user_id, old_channel, new_channel, now),
        ),
{
    let channel_id = aggregator.config.channel_id;
    let followed = observed(
        roster,
        Some(channel_id),
        bot_id,
        user_id,
        old_channel,
        new_channel,
        now,
    );
    let after = membership_seen(
        aggregator,
        roster,
        bot_id,
        user_id,
        old_channel,
        new_channel,
        now,
    );
    if user_id != bot_id {
        match membership_change(channel_id, old_channel, new_channel) {
            MembershipChange::Joined => {
                lemma_joined_consistent(roster, channel_id, user_id, now);
                lemma_confirmed_consistent(followed, user_id);
                let rest = others_than(roster.pending, user_id);
                assert forall|other: u64|
                    other != user_id && is_waiting(followed.pending, other) implies is_waiting(
                    roster.pending,
                    other,
                ) by {
                    let i = choose|i: int|
                        0 <= i < followed.pending.len() && (#[trigger] followed.pending[i]).user_id
                            == other;
                    assert(i < rest.len());
                    assert(rest[i] == followed.pending[i]);
                    assert(is_waiting(rest, other));
                    lemma_fewer_pending(roster.pending, user_id, other);
                }
                assert forall|ssrc: u32| #[trigger]
                    aggregator.identities.contains_key(ssrc) implies !is_waiting(
                    after.pending,
                    aggregator.identities[ssrc],
                ) by {
                    let mapped = aggregator.identities[ssrc];
                    if is_waiting(after.pending, mapped) {
                        if is_mapped(aggregator.identities, user_id) {
                            lemma_fewer_pending(followed.pending, user_id, mapped);
                        } else {
                            assert(mapped != user_id);
                        }
                    }
                }
            },
            MembershipChange::Left => {
                lemma_departed_consistent(roster, user_id);
                lemma_confirmed_consistent(followed, user_id);
                assert forall|ssrc: u32| #[trigger]
                    aggregator.identities.contains_key(ssrc) implies !is_waiting(
                    after.pending,
                    aggregator.identities[ssrc],
                ) by {
                    let mapped = aggregator.identities[ssrc];
                    if is_waiting(after.pending, mapped) {
                        if is_mapped(aggregator.identities, user_id) {
                            lemma_fewer_pending(followed.pending, user_id, mapped);
                        }
                        lemma_fewer_pending(roster.pending, user_id, mapped);
                    }
                }
            },
            MembershipChange::Unchanged => {
                lemma_confirmed_consistent(roster, user_id);
                assert forall|ssrc: u32| #[trigger]
                    aggregator.identities.contains_key(ssrc) implies !is_waiting(
                    after.pending,
                    aggregator.identities[ssrc],
                ) by {
                    let mapped = aggregator.identities[ssrc];
                    if is_waiting(after.pending, mapped) && is_mapped(
                        aggregator.identities,
                        user_id,
                    ) {
                        lemma_fewer_pending(roster.pending, user_id, mapped);
                    }
                }
            },
        }
    } else {
        lemma_confirmed_consistent(roster, user_id);
        assert forall|ssrc: u32| #[trigger]
            aggregator.identities.contains_key(ssrc) implies !is_waiting(
            after.pending,
            aggregator.identities[ssrc],
        ) by {
            let mapped = aggregator.identities[ssrc];
            if is_waiting(after.pending, mapped) && is_mapped(aggregator.identities, user_id) {
                lemma_fewer_pending(roster.pending, user_id, mapped);
            }
        }
    }
}

} // verus!
