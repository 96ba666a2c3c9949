//! The engine as a transition system over mathematical values.
//!
//! Each function here says what one operation of the aggregator does to the
//! identity map, the placeholder labels, the stream buffers, the current
//! speaker and the roster, and which effects it asks for, in order. The
//! executable aggregator is proved to do exactly this.

use crate::buffer::BufferView;
use crate::chunking::{full_chunks, is_silent, leftover};
use crate::events::{AudioView, DispatchView, EffectView};
use crate::identity::{placeholder_text, SpeakerView};
use crate::roster::{
    after_guess, confirmed, consistent, guess_of, heard, lemma_guess_consistent,
    lemma_heard_consistent, observed, RosterView,
};
use crate::shared_map::entry_of;
use crate::telemetry::metrics::elapsed_between;
use vstd::prelude::*;

verus! {

/// What a caption pipeline is set up with. `silence_flush` is in
/// nanoseconds; `publish_speaker` says whether anybody listens for the
/// current speaker.
#[derive(Clone, Copy, Debug, PartialEq, Eq, Structural)]
pub struct CaptionPipelineConfig {
    pub guild_id: u64,
    pub channel_id: u64,
    pub chunk_samples: usize,
    pub sample_rate: u32,
    pub silence_flush: u64,
    pub publish_speaker: bool,
}

/// The aggregator as a mathematical value.
pub struct AggregatorView {
    pub config: CaptionPipelineConfig,
    /// Stream session id to the user it was announced or guessed to be.
    pub identities: Map<u32, u64>,
    /// Stream session id to the placeholder label minted for it.
    pub labels: Map<u32, Seq<char>>,
    /// Stream session id to its buffer.
    pub buffers: Map<u32, BufferView>,
    pub current_speaker: Option<u64>,
}

/// The outcome of an operation: the new state and the effects asked for.
pub struct Step {
    pub aggregator: AggregatorView,
    pub roster: RosterView,
    pub effects: Seq<EffectView>,
}

/// The outcome of an operation that leaves the roster alone.
pub struct Shown {
    pub aggregator: AggregatorView,
    pub effects: Seq<EffectView>,
}

/// The outcome of resolving a stream's identity.
pub struct Resolution {
    pub identity: SpeakerView,
    pub aggregator: AggregatorView,
    pub roster: RosterView,
}

/// The aggregator's invariant: chunks have at least one sample, no buffer
/// holds a whole chunk, and every label is the one minted for its stream.
pub open spec fn well_formed(aggregator: AggregatorView) -> bool {
    &&& aggregator.config.chunk_samples >= 1
    &&& forall|ssrc: u32| #[trigger]
        aggregator.buffers.contains_key(ssrc) ==> aggregator.buffers[ssrc].samples.len()
            < aggregator.config.chunk_samples
    &&& forall|ssrc: u32| #[trigger]
        aggregator.labels.contains_key(ssrc) ==> aggregator.labels[ssrc] == placeholder_text(ssrc)
}

/// An aggregator that has seen nothing yet.
pub open spec fn idle(config: CaptionPipelineConfig) -> AggregatorView {
    AggregatorView {
        config,
        identities: Map::empty(),
        labels: Map::empty(),
        buffers: Map::empty(),
        current_speaker: None,
    }
}

/// Nothing happens.
pub open spec fn stay(aggregator: AggregatorView, roster: RosterView) -> Step {
    Step { aggregator, roster, effects: Seq::empty() }
}

/// One outcome followed by another that started from it.
pub open spec fn and_then(first: Step, second: Step) -> Step {
    Step {
        aggregator: second.aggregator,
        roster: second.roster,
        effects: first.effects + second.effects,
    }
}

/// An outcome that leaves the roster alone, beside that roster.
pub open spec fn beside(shown: Shown, roster: RosterView) -> Step {
    Step { aggregator: shown.aggregator, roster, effects: shown.effects }
}

/// The samples buffered for a stream; none when it has no buffer.
pub open spec fn buffered(aggregator: AggregatorView, ssrc: u32) -> Seq<i16> {
    if aggregator.buffers.contains_key(ssrc) {
        aggregator.buffers[ssrc].samples
    } else {
        Seq::empty()
    }
}

// ---------------------------------------------------------------------
// Identity resolution
// ---------------------------------------------------------------------
/// The user of an identity that a buffer carries, if it carries a known one.
pub open spec fn carried_user(existing: Option<SpeakerView>) -> Option<u64> {
    match existing {
        Some(SpeakerView::Known(user_id)) => Some(user_id),
        _ => None,
    }
}

/// The label of an identity that a buffer carries, if it carries a
/// placeholder.
pub open spec fn carried_label(existing: Option<SpeakerView>) -> Option<Seq<char>> {
    match existing {
        Some(SpeakerView::Placeholder(label)) => Some(label),
        _ => None,
    }
}

/// Resolves the speaker of stream `ssrc`, given the identity its buffer
/// carries, if any.
///
/// An entry of the identity map wins. Else an identity that is already
/// known stays. Else the roster's guess is taken and written into the
/// identity map. Else a placeholder stays, or the stream's label is reused,
/// or a label is minted and remembered.
pub open spec fn resolution(
    aggregator: AggregatorView,
    roster: RosterView,
    ssrc: u32,
    existing: Option<SpeakerView>,
) -> Resolution {
    let guess = guess_of(roster, aggregator.config.channel_id);
    if aggregator.identities.contains_key(ssrc) {
        Resolution { identity: SpeakerView::Known(aggregator.identities[ssrc]), aggregator, roster }
    } else if carried_user(existing).is_some() {
        Resolution {
            identity: SpeakerView::Known(carried_user(existing).unwrap()),
            aggregator,
            roster,
        }
    } else if guess.is_some() {
        Resolution {
            identity: SpeakerView::Known(guess.unwrap()),
            aggregator: AggregatorView {
                identities: aggregator.identities.insert(ssrc, guess.unwrap()),
                ..aggregator
            },
            roster: after_guess(roster, aggregator.config.channel_id),
        }
    } else if carried_label(existing).is_some() {
        Resolution {
            identity: SpeakerView::Placeholder(carried_label(existing).unwrap()),
            aggregator,
            roster,
        }
    } else if aggregator.labels.contains_key(ssrc) {
        Resolution {
            identity: SpeakerView::Placeholder(aggregator.labels[ssrc]),
            aggregator,
            roster,
        }
    } else {
        Resolution {
            identity: SpeakerView::Placeholder(placeholder_text(ssrc)),
            aggregator: AggregatorView {
                labels: aggregator.labels.insert(ssrc, placeholder_text(ssrc)),
                ..aggregator
            },
            roster,
        }
    }
}

// ---------------------------------------------------------------------
// Current speaker
// ---------------------------------------------------------------------
/// `user_id` becomes the current speaker, and is published, unless nobody
/// listens or the user already is the current speaker.
pub open spec fn speaker_set(aggregator: AggregatorView, user_id: u64) -> Shown {
    if aggregator.config.publish_speaker && aggregator.current_speaker != Some(user_id) {
        Shown {
            aggregator: AggregatorView { current_speaker: Some(user_id), ..aggregator },
            effects: seq![EffectView::PublishSpeaker(Some(user_id))],
        }
    } else {
        Shown { aggregator, effects: Seq::empty() }
    }
}

/// If `user_id` is the current speaker, nobody is from now on, and that is
/// published.
pub open spec fn speaker_cleared(aggregator: AggregatorView, user_id: u64) -> Shown {
    if aggregator.config.publish_speaker && aggregator.current_speaker == Some(user_id) {
        Shown {
            aggregator: AggregatorView { current_speaker: None, ..aggregator },
            effects: seq![EffectView::PublishSpeaker(None)],
        }
    } else {
        Shown { aggregator, effects: Seq::empty() }
    }
}

// ---------------------------------------------------------------------
// Dispatch
// ---------------------------------------------------------------------
/// The request to transcribe `pcm` as spoken by `identity`.
pub open spec fn dispatch_of(
    aggregator: AggregatorView,
    identity: SpeakerView,
    pcm: Seq<i16>,
) -> EffectView {
    EffectView::Dispatch(
        DispatchView {
            channel_id: aggregator.config.channel_id,
            guild_id: aggregator.config.guild_id,
            speaker: identity,
            pcm,
            sample_rate: aggregator.config.sample_rate,
        },
    )
}

/// Dispatches one chunk. A chunk without sound, one that is empty or holds
/// nothing but zeros, is dropped and nothing happens. For any other chunk a
/// known speaker becomes the current speaker and is noted by the roster as
/// heard, and the chunk is handed over.
pub open spec fn dispatched(
    aggregator: AggregatorView,
    roster: RosterView,
    identity: SpeakerView,
    pcm: Seq<i16>,
    now: u64,
) -> Step {
    if is_silent(pcm) {
        stay(aggregator, roster)
    } else {
        match identity {
            SpeakerView::Known(user_id) => {
                let shown = speaker_set(aggregator, user_id);
                Step {
                    aggregator: shown.aggregator,
                    roster: heard(roster, user_id, now),
                    effects: shown.effects.push(dispatch_of(aggregator, identity, pcm)),
                }
            },
            SpeakerView::Placeholder(_) => Step {
                aggregator,
                roster,
                effects: seq![dispatch_of(aggregator, identity, pcm)],
            },
        }
    }
}

/// Dispatches the chunks one after another, in order.
pub open spec fn dispatched_each(
    aggregator: AggregatorView,
    roster: RosterView,
    identity: SpeakerView,
    chunks: Seq<Seq<i16>>,
    now: u64,
) -> Step
    decreases chunks.len(),
{
    if chunks.len() == 0 {
        stay(aggregator, roster)
    } else {
        let before = dispatched_each(aggregator, roster, identity, chunks.drop_last(), now);
        and_then(
            before,
            dispatched(before.aggregator, before.roster, identity, chunks.last(), now),
        )
    }
}

// ---------------------------------------------------------------------
// Buffering
// ---------------------------------------------------------------------
/// Appends `samples` to the buffer of `ssrc`, attributes the buffer to
/// `identity`, and dispatches every whole chunk that the buffer then holds,
/// oldest first. What does not fill a chunk stays buffered.
pub open spec fn consumed(
    aggregator: AggregatorView,
    roster: RosterView,
    ssrc: u32,
    identity: SpeakerView,
    samples: Seq<i16>,
    now: u64,
) -> Step {
    if samples.len() == 0 {
        stay(aggregator, roster)
    } else {
        let all = buffered(aggregator, ssrc) + samples;
        let size = aggregator.config.chunk_samples as nat;
        let kept = AggregatorView {
            buffers: aggregator.buffers.insert(
                ssrc,
                BufferView { samples: leftover(all, size), speaker: identity, last_activity: now },
            ),
            ..aggregator
        };
        dispatched_each(kept, roster, identity, full_chunks(all, size), now)
    }
}

/// Takes in the audio of one stream for one tick: where there is any, the
/// identity is resolved and the samples are consumed.
pub open spec fn pushed(
    aggregator: AggregatorView,
    roster: RosterView,
    ssrc: u32,
    samples: Seq<i16>,
    now: u64,
) -> Step {
    if samples.len() == 0 {
        stay(aggregator, roster)
    } else {
        let resolved = resolution(aggregator, roster, ssrc, None);
        consumed(resolved.aggregator, resolved.roster, ssrc, resolved.identity, samples, now)
    }
}

/// Flushes the stream: its buffer is removed, and what it held is
/// dispatched as one chunk, however short.
pub open spec fn flushed(aggregator: AggregatorView, roster: RosterView, ssrc: u32, now: u64) -> Step {
    if !aggregator.buffers.contains_key(ssrc) {
        stay(aggregator, roster)
    } else {
        let buffer = aggregator.buffers[ssrc];
        let without = AggregatorView { buffers: aggregator.buffers.remove(ssrc), ..aggregator };
        if buffer.samples.len() == 0 {
            stay(without, roster)
        } else {
            let resolved = resolution(without, roster, ssrc, Some(buffer.speaker));
            dispatched(resolved.aggregator, resolved.roster, resolved.identity, buffer.samples, now)
        }
    }
}

/// The stream's buffer holds samples and has not been added to for longer
/// than the silence threshold.
pub open spec fn gone_silent(aggregator: AggregatorView, ssrc: u32, now: u64) -> bool {
    &&& aggregator.buffers.contains_key(ssrc)
    &&& aggregator.buffers[ssrc].samples.len() > 0
    &&& elapsed_between(aggregator.buffers[ssrc].last_activity, now)
        > aggregator.config.silence_flush
}

/// Flushes the stream if it has gone silent, as any flush does: the buffer
/// is removed and what it held is dispatched as one chunk. Otherwise
/// nothing happens.
pub open spec fn silence_flushed(
    aggregator: AggregatorView,
    roster: RosterView,
    ssrc: u32,
    now: u64,
) -> Step {
    if gone_silent(aggregator, ssrc, now) {
        flushed(aggregator, roster, ssrc, now)
    } else {
        stay(aggregator, roster)
    }
}

// ---------------------------------------------------------------------
// Transport events
// ---------------------------------------------------------------------
/// The transport announced that stream `ssrc` belongs to `user_id`: the
/// identity map says so from now on, the user is confirmed and so no longer
/// pending, and a placeholder label that the stream had is retired and
/// relabelled.
pub open spec fn announced(
    aggregator: AggregatorView,
    roster: RosterView,
    ssrc: u32,
    user_id: u64,
) -> Step {
    let mapped = AggregatorView {
        identities: aggregator.identities.insert(ssrc, user_id),
        ..aggregator
    };
    if aggregator.labels.contains_key(ssrc) {
        Step {
            aggregator: AggregatorView { labels: aggregator.labels.remove(ssrc), ..mapped },
            roster: confirmed(roster, user_id),
            effects: seq![
                EffectView::Relabel { placeholder: aggregator.labels[ssrc], user_id },
            ],
        }
    } else {
        Step { aggregator: mapped, roster: confirmed(roster, user_id), effects: Seq::empty() }
    }
}

/// The identity map has a stream for the user.
pub open spec fn is_mapped(identities: Map<u32, u64>, user_id: u64) -> bool {
    exists|ssrc: u32| #[trigger] identities.contains_key(ssrc) && identities[ssrc] == user_id
}

/// The roster after a change of a user's voice state was seen during a
/// call: the change is followed as the roster follows it, and a user who
/// joins while the identity map has a stream for them is confirmed at once,
/// so that nobody is pending whom the identity map has.
pub open spec fn membership_seen(
    aggregator: AggregatorView,
    roster: RosterView,
    bot_id: u64,
    user_id: u64,
    old_channel: Option<u64>,
    new_channel: Option<u64>,
    now: u64,
) -> RosterView {
    let followed = observed(
        roster,
        Some(aggregator.config.channel_id),
        bot_id,
        user_id,
        old_channel,
        new_channel,
        now,
    );
    if is_mapped(aggregator.identities, user_id) {
        confirmed(followed, user_id)
    } else {
        followed
    }
}

/// The user a speaking event is about: the one it names, or else the one
/// the identity map has for its stream.
pub open spec fn speaking_user(
    aggregator: AggregatorView,
    ssrc: u32,
    user_id: Option<u64>,
) -> Option<u64> {
    match user_id {
        Some(user_id) => Some(user_id),
        None => entry_of(aggregator.identities, ssrc),
    }
}

/// A speaking event. An announced owner is recorded and confirmed first.
/// Microphone on: the user becomes the current speaker. Microphone off: the
/// stream is flushed, and the user stops being the current speaker.
pub open spec fn spoke_up(
    aggregator: AggregatorView,
    roster: RosterView,
    ssrc: u32,
    user_id: Option<u64>,
    is_speaking: bool,
    now: u64,
) -> Step {
    let first = match user_id {
        Some(user_id) => announced(aggregator, roster, ssrc, user_id),
        None => stay(aggregator, roster),
    };
    if is_speaking {
        match speaking_user(first.aggregator, ssrc, user_id) {
            Some(speaker) => and_then(
                first,
                beside(speaker_set(first.aggregator, speaker), first.roster),
            ),
            None => first,
        }
    } else {
        let second = and_then(first, flushed(first.aggregator, first.roster, ssrc, now));
        match speaking_user(second.aggregator, ssrc, user_id) {
            Some(speaker) => and_then(
                second,
                beside(speaker_cleared(second.aggregator, speaker), second.roster),
            ),
            None => second,
        }
    }
}

/// The audio of a tick, stream by stream in the order given.
pub open spec fn audio_taken(
    aggregator: AggregatorView,
    roster: RosterView,
    speaking: Seq<AudioView>,
    now: u64,
) -> Step
    decreases speaking.len(),
{
    if speaking.len() == 0 {
        stay(aggregator, roster)
    } else {
        let before = audio_taken(aggregator, roster, speaking.drop_last(), now);
        match speaking.last().decoded_voice {
            Some(samples) => and_then(
                before,
                pushed(before.aggregator, before.roster, speaking.last().ssrc, samples, now),
            ),
            None => before,
        }
    }
}

/// The silent streams of a tick, one by one in the order given.
pub open spec fn silence_taken(
    aggregator: AggregatorView,
    roster: RosterView,
    silent: Seq<u32>,
    now: u64,
) -> Step
    decreases silent.len(),
{
    if silent.len() == 0 {
        stay(aggregator, roster)
    } else {
        let before = silence_taken(aggregator, roster, silent.drop_last(), now);
        and_then(
            before,
            silence_flushed(before.aggregator, before.roster, silent.last(), now),
        )
    }
}

/// One tick: first the audio, then the streams that fell silent.
pub open spec fn ticked(
    aggregator: AggregatorView,
    roster: RosterView,
    speaking: Seq<AudioView>,
    silent: Seq<u32>,
    now: u64,
) -> Step {
    let heard_all = audio_taken(aggregator, roster, speaking, now);
    and_then(heard_all, silence_taken(heard_all.aggregator, heard_all.roster, silent, now))
}

/// One stream of a user who left: it is flushed, it leaves the identity
/// map, and the user stops being the current speaker.
pub open spec fn stream_closed(
    aggregator: AggregatorView,
    roster: RosterView,
    ssrc: u32,
    user_id: u64,
    now: u64,
) -> Step {
    let out = flushed(aggregator, roster, ssrc, now);
    let unmapped = AggregatorView {
        identities: out.aggregator.identities.remove(ssrc),
        ..out.aggregator
    };
    and_then(out, beside(speaker_cleared(unmapped, user_id), out.roster))
}

/// A user left: their streams are closed one by one in the order given.
pub open spec fn disconnected(
    aggregator: AggregatorView,
    roster: RosterView,
    user_id: u64,
    streams: Seq<u32>,
    now: u64,
) -> Step
    decreases streams.len(),
{
    if streams.len() == 0 {
        stay(aggregator, roster)
    } else {
        let before = disconnected(aggregator, roster, user_id, streams.drop_last(), now);
        and_then(
            before,
            stream_closed(before.aggregator, before.roster, streams.last(), user_id, now),
        )
    }
}

/// The call ends: the streams are flushed one by one in the order given.
pub open spec fn all_flushed(
    aggregator: AggregatorView,
    roster: RosterView,
    streams: Seq<u32>,
    now: u64,
) -> Step
    decreases streams.len(),
{
    if streams.len() == 0 {
        stay(aggregator, roster)
    } else {
        let before = all_flushed(aggregator, roster, streams.drop_last(), now);
        and_then(before, flushed(before.aggregator, before.roster, streams.last(), now))
    }
}

/// `streams` lists the streams that the identity map has for `user_id`,
/// each once.
pub open spec fn streams_of(identities: Map<u32, u64>, user_id: u64, streams: Seq<u32>) -> bool {
    &&& streams.no_duplicates()
    &&& forall|ssrc: u32|
        streams.contains(ssrc) <==> #[trigger] identities.contains_key(ssrc) && identities[ssrc]
            == user_id
}

// ---------------------------------------------------------------------
// The invariants are kept
// ---------------------------------------------------------------------
/// Two aggregators agree on everything but the current speaker.
pub open spec fn same_tables(first: AggregatorView, second: AggregatorView) -> bool {
    &&& first.config == second.config
    &&& first.identities == second.identities
    &&& first.labels == second.labels
    &&& first.buffers == second.buffers
}

/// Resolving an identity keeps both invariants and touches no buffer. The
/// identity map and the labels only gain entries, and only for the stream
/// that was asked about.
pub proof fn lemma_resolution_sound(
    aggregator: AggregatorView,
    roster: RosterView,
    ssrc: u32,
    existing: Option<SpeakerView>,
)
    requires
        well_formed(aggregator),
        consistent(roster),
    ensures
        well_formed(resolution(aggregator, roster, ssrc, existing).aggregator),
        consistent(resolution(aggregator, roster, ssrc, existing).roster),
        resolution(aggregator, roster, ssrc, existing).aggregator.buffers == aggregator.buffers,
        resolution(aggregator, roster, ssrc, existing).aggregator.config == aggregator.config,
        resolution(aggregator, roster, ssrc, existing).aggregator.current_speaker
            == aggregator.current_speaker,
{
    lemma_guess_consistent(roster, aggregator.config.channel_id);
}

/// Dispatching a chunk keeps both invariants and touches no table.
pub proof fn lemma_dispatched_sound(
    aggregator: AggregatorView,
    roster: RosterView,
    identity: SpeakerView,
    pcm: Seq<i16>,
    now: u64,
)
    requires
        well_formed(aggregator),
        consistent(roster),
    ensures
        well_formed(dispatched(aggregator, roster, identity, pcm, now).aggregator),
        consistent(dispatched(aggregator, roster, identity, pcm, now).roster),
        same_tables(dispatched(aggregator, roster, identity, pcm, now).aggregator, aggregator),
{
    if let SpeakerView::Known(user_id) = identity {
        lemma_heard_consistent(roster, user_id, now);
    }
}

/// Dispatching chunks one after another keeps both invariants and touches
/// no table.
pub proof fn lemma_dispatched_each_sound(
    aggregator: AggregatorView,
    roster: RosterView,
    identity: SpeakerView,
    chunks: Seq<Seq<i16>>,
    now: u64,
)
    requires
        well_formed(aggregator),
        consistent(roster),
    ensures
        well_formed(dispatched_each(aggregator, roster, identity, chunks, now).aggregator),
        consistent(dispatched_each(aggregator, roster, identity, chunks, now).roster),
        same_tables(
            dispatched_each(aggregator, roster, identity, chunks, now).aggregator,
            aggregator,
        ),
    decreases chunks.len(),
{
    if chunks.len() > 0 {
        lemma_dispatched_each_sound(aggregator, roster, identity, chunks.drop_last(), now);
        let before = dispatched_each(aggregator, roster, identity, chunks.drop_last(), now);
        lemma_dispatched_sound(before.aggregator, before.roster, identity, chunks.last(), now);
    }
}


/// A flush takes the buffer of its stream away and leaves every other
/// buffer as it is.
pub proof fn lemma_flushed_buffers(
    aggregator: AggregatorView,
    roster: RosterView,
    ssrc: u32,
    now: u64,
)
    requires
        well_formed(aggregator),
        consistent(roster),
    ensures
        flushed(aggregator, roster, ssrc, now).aggregator.buffers == aggregator.buffers.remove(
            ssrc,
        ),
{
    if aggregator.buffers.contains_key(ssrc) {
        let buffer = aggregator.buffers[ssrc];
        let without = AggregatorView { buffers: aggregator.buffers.remove(ssrc), ..aggregator };
        assert(well_formed(without));
        if buffer.samples.len() > 0 {
            lemma_resolution_sound(without, roster, ssrc, Some(buffer.speaker));
            let resolved = resolution(without, roster, ssrc, Some(buffer.speaker));
            lemma_dispatched_sound(
                resolved.aggregator,
                resolved.roster,
                resolved.identity,
                buffer.samples,
                now,
            );
        }
    } else {
        assert(aggregator.buffers.remove(ssrc) =~= aggregator.buffers);
    }
}

} // verus!
