//! The audio aggregator: it takes the transport's events, keeps the
//! identity map, the placeholder labels and the stream buffers, and hands
//! back what has to be done: chunks to transcribe, labels to correct, the
//! current speaker to publish.
//!
//! The aggregator decides; it does not wait. The caller reads the clock,
//! carries the effects out, and feeds the next event.

use crate::buffer::{AudioBuffer, BufferView};
use crate::chunking::{all_silent, chunk_views, drain_chunks, leftover, lemma_chunk_sizes};
use crate::events::{
    audio_views, effect_views, emit, ChunkDispatch, DisconnectEvent, Effect, EffectView,
    SpeakingStateEvent, TransportEvent, VoiceTick,
};
use crate::identity::{placeholder_for, placeholder_text, SpeakerIdentity, SpeakerView};
use crate::model::{
    all_flushed, and_then, announced, audio_taken, consumed, disconnected, dispatch_of, dispatched,
    dispatched_each, flushed, idle, is_mapped, lemma_dispatched_sound, lemma_flushed_buffers,
    lemma_resolution_sound, membership_seen, pushed, resolution, silence_flushed, silence_taken,
    speaker_cleared, speaker_set, speaking_user, spoke_up, stay, stream_closed, streams_of, ticked,
    well_formed, AggregatorView, CaptionPipelineConfig,
};
use crate::roster::VoiceRoster;
use crate::shared_map::{
    buffer_entries, buffer_table_insert, buffer_table_keys, buffer_table_new, buffer_table_remove,
    entry_of, label_entries, label_table_get, label_table_insert, label_table_new,
    label_table_remove, lists_all, lists_domain, user_entries, user_table_get, user_table_insert,
    user_table_new, user_table_pairs, user_table_remove,
};
use dashmap::DashMap;
use vstd::prelude::*;

verus! {

/// Demultiplexes the streams of one call, buffers and chunks their audio,
/// and attributes every chunk to a speaker.
pub struct AudioAggregator {
    config: CaptionPipelineConfig,
    ssrc_map: DashMap<u32, u64>,
    buffers: DashMap<u32, AudioBuffer>,
    placeholder_labels: DashMap<u32, String>,
    current_speaker: Option<u64>,
}

/// The contents of an identity that may be there.
pub open spec fn identity_view(identity: Option<SpeakerIdentity>) -> Option<SpeakerView> {
    match identity {
        Some(identity) => Some(identity@),
        None => None,
    }
}

impl View for AudioAggregator {
    type V = AggregatorView;

    closed spec fn view(&self) -> AggregatorView {
        AggregatorView {
            config: self.config,
            identities: user_entries(self.ssrc_map),
            labels: label_entries(self.placeholder_labels),
            buffers: buffer_entries(self.buffers),
            current_speaker: self.current_speaker,
        }
    }
}

impl AudioAggregator {
    /// The aggregator's invariant holds of this value.
    pub open spec fn wf(&self) -> bool {
        well_formed(self@)
    }

    /// An aggregator that has seen no event yet. A chunk must hold at least
    /// one sample.
    pub fn new(config: CaptionPipelineConfig) -> (aggregator: Self)
        requires
            config.chunk_samples >= 1,
        ensures
            aggregator.wf(),
            aggregator@ == idle(config),
    {
        AudioAggregator {
            config,
            ssrc_map: user_table_new(),
            buffers: buffer_table_new(),
            placeholder_labels: label_table_new(),
            current_speaker: None,
        }
    }

    /// What the aggregator was set up with.
    pub fn config(&self) -> (config: CaptionPipelineConfig)
        ensures
            config == self@.config,
    {
        self.config
    }

    /// Who is published as speaking now.
    pub fn current_speaker(&self) -> (speaker: Option<u64>)
        ensures
            speaker == self@.current_speaker,
    {
        self.current_speaker
    }

    /// The user that the identity map has for a stream.
    pub fn lookup_user(&self, ssrc: u32) -> (user_id: Option<u64>)
        ensures
            user_id == entry_of(self@.identities, ssrc),
    {
        user_table_get(&self.ssrc_map, ssrc)
    }

    /// The number of samples buffered for a stream.
    pub fn buffered_len(&mut self, ssrc: u32) -> (len: usize)
        ensures
            final(self)@ == old(self)@,
            len == crate::model::buffered(old(self)@, ssrc).len(),
    {
        match buffer_table_remove(&mut self.buffers, ssrc) {
            Some(buffer) => {
                let len = buffer.samples.len();
                let _ = buffer_table_insert(&mut self.buffers, ssrc, buffer);
                assert(self@.buffers =~= old(self)@.buffers);
                len
            },
            None => {
                assert(self@.buffers =~= old(self)@.buffers);
                0
            },
        }
    }

    /// The speaker that the buffer of a stream is attributed to, if the
    /// stream has a buffer.
    pub fn buffered_speaker(&mut self, ssrc: u32) -> (speaker: Option<SpeakerIdentity>)
        ensures
            final(self)@ == old(self)@,
            speaker.is_some() == old(self)@.buffers.contains_key(ssrc),
            speaker.is_some() ==> speaker.unwrap()@ == old(self)@.buffers[ssrc].speaker,
    {
        match buffer_table_remove(&mut self.buffers, ssrc) {
            Some(buffer) => {
                let speaker = buffer.speaker.duplicate();
                let _ = buffer_table_insert(&mut self.buffers, ssrc, buffer);
                assert(self@.buffers =~= old(self)@.buffers);
                Some(speaker)
            },
            None => {
                assert(self@.buffers =~= old(self)@.buffers);
                None
            },
        }
    }

    /// The placeholder label of a stream: the one it has, or else a new one
    /// that is remembered.
    pub fn placeholder_label(&mut self, ssrc: u32) -> (label: String)
        ensures
            label@ == (if old(self)@.labels.contains_key(ssrc) {
                old(self)@.labels[ssrc]
            } else {
                placeholder_text(ssrc)
            }),
            final(self)@ == (AggregatorView {
                labels: if old(self)@.labels.contains_key(ssrc) {
                    old(self)@.labels
                } else {
                    old(self)@.labels.insert(ssrc, placeholder_text(ssrc))
                },
                ..old(self)@
            }),
    {
        match label_table_get(&self.placeholder_labels, ssrc) {
            Some(existing) => existing,
            None => {
                let label = placeholder_for(ssrc);
                let _ = label_table_insert(&mut self.placeholder_labels, ssrc, label.clone());
                label
            },
        }
    }

    /// The user a speaking event is about: the one it names, or else the
    /// one the identity map has for its stream.
    pub fn resolve_speaking_user(&self, speaking: &SpeakingStateEvent) -> (user_id: Option<u64>)
        ensures
            user_id == speaking_user(self@, speaking.ssrc, speaking.user_id),
    {
        match speaking.user_id {
            Some(user_id) => Some(user_id),
            None => self.lookup_user(speaking.ssrc),
        }
    }

    /// Makes `speaker` the current speaker and asks for that to be
    /// published, unless nobody listens or nothing changes.
    pub fn set_current_speaker(&mut self, speaker: u64, effects: &mut Vec<Effect>)
        ensures
            final(self)@ == speaker_set(old(self)@, speaker).aggregator,
            effect_views(final(effects)@) == effect_views(old(effects)@) + speaker_set(
                old(self)@,
                speaker,
            ).effects,
    {
        if self.config.publish_speaker {
            let unchanged = match self.current_speaker {
                Some(current) => current == speaker,
                None => false,
            };
            if !unchanged {
                self.current_speaker = Some(speaker);
                emit(effects, Effect::PublishSpeaker(Some(speaker)));
                assert(effect_views(effects@) =~= effect_views(old(effects)@) + speaker_set(
                    old(self)@,
                    speaker,
                ).effects);
                return ;
            }
        }
        assert(effect_views(effects@) =~= effect_views(old(effects)@) + speaker_set(
            old(self)@,
            speaker,
        ).effects);
    }

    /// If `speaker` is the current speaker, makes nobody the current
    /// speaker and asks for that to be published.
    pub fn clear_current_speaker(&mut self, speaker: u64, effects: &mut Vec<Effect>)
        ensures
            final(self)@ == speaker_cleared(old(self)@, speaker).aggregator,
            effect_views(final(effects)@) == effect_views(old(effects)@) + speaker_cleared(
                old(self)@,
                speaker,
            ).effects,
    {
        if self.config.publish_speaker {
            let current = match self.current_speaker {
                Some(current) => current == speaker,
                None => false,
            };
            if current {
                self.current_speaker = None;
                emit(effects, Effect::PublishSpeaker(None));
                assert(effect_views(effects@) =~= effect_views(old(effects)@) + speaker_cleared(
                    old(self)@,
                    speaker,
                ).effects);
                return ;
            }
        }
        assert(effect_views(effects@) =~= effect_views(old(effects)@) + speaker_cleared(
            old(self)@,
            speaker,
        ).effects);
    }

    /// Resolves the speaker of a stream, given the identity that its
    /// buffer carries, if any.
    ///
    /// An entry of the identity map wins. Else an identity that is already
    /// known stays. Else the roster's guess is taken and written into the
    /// identity map. Else a placeholder stays, or the stream's label is
    /// reused, or a label is minted and remembered.
    pub fn resolve_identity(
        &mut self,
        roster: &mut VoiceRoster,
        ssrc: u32,
        existing: Option<SpeakerIdentity>,
    ) -> (identity: SpeakerIdentity)
        requires
            old(self).wf(),
            old(roster).wf(),
        ensures
            final(self).wf(),
            final(roster).wf(),
            identity@ == resolution(
                old(self)@,
                old(roster)@,
                ssrc,
                identity_view(existing),
            ).identity,
            final(self)@ == resolution(
                old(self)@,
                old(roster)@,
                ssrc,
                identity_view(existing),
            ).aggregator,
            final(roster)@ == resolution(
                old(self)@,
                old(roster)@,
                ssrc,
                identity_view(existing),
            ).roster,
    {
        proof {
            lemma_resolution_sound(self@, roster@, ssrc, identity_view(existing));
        }
        if let Some(user_id) = self.lookup_user(ssrc) {
            return SpeakerIdentity::Known(user_id);
        }
        if let Some(SpeakerIdentity::Known(user_id)) = existing {
            return SpeakerIdentity::Known(user_id);
        }
        if let Some(user_id) = roster.guess_speaker(self.config.channel_id) {
            let _ = user_table_insert(&mut self.ssrc_map, ssrc, user_id);
            return SpeakerIdentity::Known(user_id);
        }
        match existing {
            Some(SpeakerIdentity::Placeholder { label }) => SpeakerIdentity::Placeholder { label },
            _ => SpeakerIdentity::Placeholder { label: self.placeholder_label(ssrc) },
        }
    }

    /// Dispatches one chunk. A chunk without sound, one that is empty or
    /// holds nothing but zeros, is dropped and nothing happens. For any
    /// other chunk a known speaker becomes the current speaker and is noted
    /// by the roster as heard, and the chunk is handed over.
    pub fn dispatch_chunk(
        &mut self,
        roster: &mut VoiceRoster,
        identity: SpeakerIdentity,
        samples: Vec<i16>,
        now: u64,
        effects: &mut Vec<Effect>,
    )
        requires
            old(self).wf(),
            old(roster).wf(),
        ensures
            final(self).wf(),
            final(roster).wf(),
            final(self)@ == dispatched(
                old(self)@,
                old(roster)@,
                identity@,
                samples@,
                now,
            ).aggregator,
            final(roster)@ == dispatched(old(self)@, old(roster)@, identity@, samples@, now).roster,
            effect_views(final(effects)@) == effect_views(old(effects)@) + dispatched(
                old(self)@,
                old(roster)@,
                identity@,
                samples@,
                now,
            ).effects,
    {
        proof {
            lemma_dispatched_sound(self@, roster@, identity@, samples@, now);
        }
        if all_silent(samples.as_slice()) {
            assert(effect_views(effects@) =~= effect_views(old(effects)@) + Seq::empty());
            return ;
        }
        let ghost request = dispatch_of(self@, identity@, samples@);
        if let SpeakerIdentity::Known(user_id) = identity {
            self.set_current_speaker(user_id, effects);
            roster.note_spoke(user_id, now);
        }
        emit(
            effects,
            Effect::Dispatch(
                ChunkDispatch {
                    channel_id: self.config.channel_id,
                    guild_id: self.config.guild_id,
                    speaker: identity,
                    pcm: samples,
                    sample_rate: self.config.sample_rate,
                },
            ),
        );
        assert(effect_views(effects@) =~= effect_views(old(effects)@) + dispatched(
            old(self)@,
            old(roster)@,
            identity@,
            samples@,
            now,
        ).effects);
    }

    /// Asks for the persisted entries that carry `placeholder` to be
    /// rewritten to `user_id`. The correction itself happens out of band.
    pub fn relabel_placeholder_entries(
        &self,
        placeholder: String,
        user_id: u64,
        effects: &mut Vec<Effect>,
    )
        ensures
            effect_views(final(effects)@) == effect_views(old(effects)@).push(
                EffectView::Relabel { placeholder: placeholder@, user_id },
            ),
    {
        emit(effects, Effect::Relabel { placeholder, user_id });
    }

    /// Appends `samples` to the buffer of `ssrc`, attributes the buffer to
    /// `identity`, and dispatches every whole chunk that the buffer then
    /// holds, oldest first. What does not fill a chunk stays buffered.
    pub fn consume_samples(
        &mut self,
        roster: &mut VoiceRoster,
        ssrc: u32,
        identity: SpeakerIdentity,
        samples: &[i16],
        now: u64,
        effects: &mut Vec<Effect>,
    )
        requires
            old(self).wf(),
            old(roster).wf(),
        ensures
            final(self).wf(),
            final(roster).wf(),
            final(self)@ == consumed(
                old(self)@,
                old(roster)@,
                ssrc,
                identity@,
                samples@,
                now,
            ).aggregator,
            final(roster)@ == consumed(
                old(self)@,
                old(roster)@,
                ssrc,
                identity@,
                samples@,
                now,
            ).roster,
            effect_views(final(effects)@) == effect_views(old(effects)@) + consumed(
                old(self)@,
                old(roster)@,
                ssrc,
                identity@,
                samples@,
                now,
            ).effects,
    {
        if samples.len() == 0 {
            assert(effect_views(effects@) =~= effect_views(old(effects)@) + Seq::empty());
            return ;
        }
        let ghost start = self@;
        let ghost start_roster = roster@;
        let ghost base = effect_views(effects@);
        let ghost size = self.config.chunk_samples as nat;
        let ghost all = crate::model::buffered(start, ssrc) + samples@;
        let mut entry = match buffer_table_remove(&mut self.buffers, ssrc) {
            Some(buffer) => buffer,
            None => AudioBuffer::new(identity.duplicate(), now),
        };
        entry.speaker = identity.duplicate();
        append_samples(&mut entry.samples, samples);
        entry.last_activity = now;
        let chunks = drain_chunks(&mut entry.samples, self.config.chunk_samples);
        let _ = buffer_table_insert(&mut self.buffers, ssrc, entry);
        let ghost kept = self@;
        let ghost windows = chunk_views(chunks@);
        let ghost owned = chunks@;
        proof {
            lemma_chunk_sizes(all, size);
            assert(kept.buffers =~= start.buffers.insert(
                ssrc,
                BufferView { samples: leftover(all, size), speaker: identity@, last_activity: now },
            ));
            assert(well_formed(kept));
            assert(windows.take(0) =~= Seq::empty());
            assert(effect_views(effects@) =~= base + dispatched_each(
                kept,
                start_roster,
                identity@,
                windows.take(0),
                now,
            ).effects);
        }
        for chunk in it: chunks
            invariant
                it.seq() == owned,
                windows == chunk_views(owned),
                self.wf(),
                roster.wf(),
                well_formed(kept),
                crate::roster::consistent(start_roster),
                self@ == dispatched_each(
                    kept,
                    start_roster,
                    identity@,
                    windows.take(it.index()),
                    now,
                ).aggregator,
                roster@ == dispatched_each(
                    kept,
                    start_roster,
                    identity@,
                    windows.take(it.index()),
                    now,
                ).roster,
                effect_views(effects@) == base + dispatched_each(
                    kept,
                    start_roster,
                    identity@,
                    windows.take(it.index()),
                    now,
                ).effects,
        {
            let ghost done = it.index();
            let ghost before = dispatched_each(
                kept,
                start_roster,
                identity@,
                windows.take(done),
                now,
            );
            proof {
                assert(windows.take(done + 1).drop_last() =~= windows.take(done));
                assert(windows.take(done + 1).last() == chunk@);
            }
            self.dispatch_chunk(roster, identity.duplicate(), chunk, now, effects);
            proof {
                let step = dispatched(before.aggregator, before.roster, identity@, chunk@, now);
                assert(effect_views(effects@) =~= base + and_then(before, step).effects);
            }
        }
        proof {
            assert(windows.take(windows.len() as int) =~= windows);
        }
    }

    /// Takes in the audio of one stream for one tick: where there is any,
    /// the identity is resolved and the samples are consumed.
    pub fn push_samples(
        &mut self,
        roster: &mut VoiceRoster,
        ssrc: u32,
        samples: &[i16],
        now: u64,
        effects: &mut Vec<Effect>,
    )
        requires
            old(self).wf(),
            old(roster).wf(),
        ensures
            final(self).wf(),
            final(roster).wf(),
            final(self)@ == pushed(old(self)@, old(roster)@, ssrc, samples@, now).aggregator,
            final(roster)@ == pushed(old(self)@, old(roster)@, ssrc, samples@, now).roster,
            effect_views(final(effects)@) == effect_views(old(effects)@) + pushed(
                old(self)@,
                old(roster)@,
                ssrc,
                samples@,
                now,
            ).effects,
    {
        if samples.len() == 0 {
            assert(effect_views(effects@) =~= effect_views(old(effects)@) + Seq::empty());
            return ;
        }
        let identity = self.resolve_identity(roster, ssrc, None);
        self.consume_samples(roster, ssrc, identity, samples, now, effects);
    }

    /// Flushes a stream: its buffer is removed, and what it held is
    /// dispatched as one chunk, however short.
    pub fn flush_stream(
        &mut self,
        roster: &mut VoiceRoster,
        ssrc: u32,
        now: u64,
        effects: &mut Vec<Effect>,
    )
        requires
            old(self).wf(),
            old(roster).wf(),
        ensures
            final(self).wf(),
            final(roster).wf(),
            final(self)@ == flushed(old(self)@, old(roster)@, ssrc, now).aggregator,
            final(roster)@ == flushed(old(self)@, old(roster)@, ssrc, now).roster,
            effect_views(final(effects)@) == effect_views(old(effects)@) + flushed(
                old(self)@,
                old(roster)@,
                ssrc,
                now,
            ).effects,
    {
        match buffer_table_remove(&mut self.buffers, ssrc) {
            None => {
                assert(self@.buffers =~= old(self)@.buffers);
                assert(effect_views(effects@) =~= effect_views(old(effects)@) + Seq::empty());
            },
            Some(entry) => {
                assert(well_formed(self@));
                if entry.samples.len() > 0 {
                    let AudioBuffer { samples, speaker, last_activity: _ } = entry;
                    let identity = self.resolve_identity(roster, ssrc, Some(speaker));
                    self.dispatch_chunk(roster, identity, samples, now, effects);
                } else {
                    assert(effect_views(effects@) =~= effect_views(old(effects)@) + Seq::empty());
                }
            },
        }
    }

    /// Flushes a stream if it has gone silent: its buffer holds samples and
    /// has not been added to for longer than the silence threshold. The
    /// buffer is removed and what it held is dispatched as one chunk.
    pub fn flush_expired(
        &mut self,
        roster: &mut VoiceRoster,
        ssrc: u32,
        now: u64,
        effects: &mut Vec<Effect>,
    )
        requires
            old(self).wf(),
            old(roster).wf(),
        ensures
            final(self).wf(),
            final(roster).wf(),
            final(self)@ == silence_flushed(old(self)@, old(roster)@, ssrc, now).aggregator,
            final(roster)@ == silence_flushed(old(self)@, old(roster)@, ssrc, now).roster,
            effect_views(final(effects)@) == effect_views(old(effects)@) + silence_flushed(
                old(self)@,
                old(roster)@,
                ssrc,
                now,
            ).effects,
    {
        match buffer_table_remove(&mut self.buffers, ssrc) {
            None => {
                assert(self@.buffers =~= old(self)@.buffers);
                assert(effect_views(effects@) =~= effect_views(old(effects)@) + Seq::empty());
            },
            Some(entry) => {
                let idle = if now >= entry.last_activity {
                    now - entry.last_activity
                } else {
                    0
                };
                if idle > self.config.silence_flush && entry.samples.len() > 0 {
                    assert(well_formed(self@));
                    let AudioBuffer { samples, speaker, last_activity: _ } = entry;
                    let identity = self.resolve_identity(roster, ssrc, Some(speaker));
                    self.dispatch_chunk(roster, identity, samples, now, effects);
                } else {
                    let _ = buffer_table_insert(&mut self.buffers, ssrc, entry);
                    assert(self@.buffers =~= old(self)@.buffers);
                    assert(effect_views(effects@) =~= effect_views(old(effects)@) + Seq::empty());
                }
            },
        }
    }

    /// A speaking event of the transport. An announced owner is recorded
    /// in the identity map and stops being pending, and a placeholder label
    /// of the stream is retired and relabelled. Microphone on: the user becomes the current
    /// speaker. Microphone off: the stream is flushed, and the user stops
    /// being the current speaker.
    pub fn on_speaking(
        &mut self,
        roster: &mut VoiceRoster,
        speaking: &SpeakingStateEvent,
        now: u64,
    ) -> (effects: Vec<Effect>)
        requires
            old(self).wf(),
            old(roster).wf(),
        ensures
            final(self).wf(),
            final(roster).wf(),
            final(self)@ == spoke_up(
                old(self)@,
                old(roster)@,
                speaking.ssrc,
                speaking.user_id,
                speaking.is_speaking,
                now,
            ).aggregator,
            final(roster)@ == spoke_up(
                old(self)@,
                old(roster)@,
                speaking.ssrc,
                speaking.user_id,
                speaking.is_speaking,
                now,
            ).roster,
            effect_views(effects@) == spoke_up(
                old(self)@,
                old(roster)@,
                speaking.ssrc,
                speaking.user_id,
                speaking.is_speaking,
                now,
            ).effects,
    {
        let mut effects: Vec<Effect> = Vec::new();
        let ghost first = match speaking.user_id {
            Some(user_id) => announced(self@, roster@, speaking.ssrc, user_id),
            None => stay(self@, roster@),
        };
        assert(effect_views(effects@) =~= Seq::empty());
        if let Some(user_id) = speaking.user_id {
            let _ = user_table_insert(&mut self.ssrc_map, speaking.ssrc, user_id);
            roster.note_confirmed(user_id);
            if let Some(label) = label_table_remove(&mut self.placeholder_labels, speaking.ssrc) {
                self.relabel_placeholder_entries(label, user_id, &mut effects);
            } else {
                assert(self@.labels =~= old(self)@.labels);
            }
        }
        assert(self@ == first.aggregator);
        assert(effect_views(effects@) =~= first.effects);
        assert(well_formed(self@));
        if speaking.is_speaking {
            if let Some(user_id) = self.resolve_speaking_user(speaking) {
                self.set_current_speaker(user_id, &mut effects);
            }
        } else {
            self.flush_stream(roster, speaking.ssrc, now, &mut effects);
            let ghost second = and_then(
                first,
                flushed(first.aggregator, first.roster, speaking.ssrc, now),
            );
            assert(effect_views(effects@) =~= second.effects);
            if let Some(user_id) = self.resolve_speaking_user(speaking) {
                self.clear_current_speaker(user_id, &mut effects);
            }
        }
        effects
    }

    /// One tick of the transport: the audio of every stream is taken in,
    /// in the order given, and then every stream that fell silent is
    /// flushed if its silence has lasted long enough.
    pub fn on_voice_tick(&mut self, roster: &mut VoiceRoster, tick: &VoiceTick, now: u64) -> (effects:
        Vec<Effect>)
        requires
            old(self).wf(),
            old(roster).wf(),
        ensures
            final(self).wf(),
            final(roster).wf(),
            final(self)@ == ticked(
                old(self)@,
                old(roster)@,
                audio_views(tick.speaking@),
                tick.silent@,
                now,
            ).aggregator,
            final(roster)@ == ticked(
                old(self)@,
                old(roster)@,
                audio_views(tick.speaking@),
                tick.silent@,
                now,
            ).roster,
            effect_views(effects@) == ticked(
                old(self)@,
                old(roster)@,
                audio_views(tick.speaking@),
                tick.silent@,
                now,
            ).effects,
    {
        let mut effects: Vec<Effect> = Vec::new();
        let ghost start = self@;
        let ghost start_roster = roster@;
        let ghost speaking = audio_views(tick.speaking@);
        let ghost silent = tick.silent@;
        let mut i: usize = 0;
        proof {
            assert(speaking.take(0) =~= Seq::empty());
            assert(effect_views(effects@) =~= Seq::empty());
        }
        while i < tick.speaking.len()
            invariant
                i <= tick.speaking@.len(),
                speaking == audio_views(tick.speaking@),
                self.wf(),
                roster.wf(),
                self@ == audio_taken(start, start_roster, speaking.take(i as int), now).aggregator,
                roster@ == audio_taken(start, start_roster, speaking.take(i as int), now).roster,
                effect_views(effects@) == audio_taken(
                    start,
                    start_roster,
                    speaking.take(i as int),
                    now,
                ).effects,
            decreases tick.speaking@.len() - i,
        {
            let audio = &tick.speaking[i];
            let ghost before = audio_taken(start, start_roster, speaking.take(i as int), now);
            proof {
                assert(speaking.take(i + 1).drop_last() =~= speaking.take(i as int));
                assert(speaking.take(i + 1).last() == audio@);
            }
            match &audio.decoded_voice {
                Some(decoded) => {
                    self.push_samples(roster, audio.ssrc, decoded.as_slice(), now, &mut effects);
                    proof {
                        let step = pushed(
                            before.aggregator,
                            before.roster,
                            audio.ssrc,
                            decoded@,
                            now,
                        );
                        assert(effect_views(effects@) =~= and_then(before, step).effects);
                    }
                },
                None => {},
            }
            i += 1;
        }
        let ghost heard_all = audio_taken(start, start_roster, speaking, now);
        let mut j: usize = 0;
        proof {
            assert(speaking.take(i as int) =~= speaking);
            assert(silent.take(0) =~= Seq::empty());
            assert(effect_views(effects@) =~= heard_all.effects + silence_taken(
                heard_all.aggregator,
                heard_all.roster,
                silent.take(0),
                now,
            ).effects);
        }
        while j < tick.silent.len()
            invariant
                j <= tick.silent@.len(),
                silent == tick.silent@,
                self.wf(),
                roster.wf(),
                self@ == silence_taken(
                    heard_all.aggregator,
                    heard_all.roster,
                    silent.take(j as int),
                    now,
                ).aggregator,
                roster@ == silence_taken(
                    heard_all.aggregator,
                    heard_all.roster,
                    silent.take(j as int),
                    now,
                ).roster,
                effect_views(effects@) == heard_all.effects + silence_taken(
                    heard_all.aggregator,
                    heard_all.roster,
                    silent.take(j as int),
                    now,
                ).effects,
            decreases tick.silent@.len() - j,
        {
            let ssrc = tick.silent[j];
            let ghost before = silence_taken(
                heard_all.aggregator,
                heard_all.roster,
                silent.take(j as int),
                now,
            );
            proof {
                assert(silent.take(j + 1).drop_last() =~= silent.take(j as int));
                assert(silent.take(j + 1).last() == ssrc);
            }
            self.flush_expired(roster, ssrc, now, &mut effects);
            proof {
                let step = silence_flushed(before.aggregator, before.roster, ssrc, now);
                assert(effect_views(effects@) =~= heard_all.effects + and_then(
                    before,
                    step,
                ).effects);
            }
            j += 1;
        }
        proof {
            assert(silent.take(j as int) =~= silent);
        }
        effects
    }

    /// The streams that the identity map has for a user, in the order in
    /// which the map hands them out.
    pub fn streams_of_user(&self, user_id: u64) -> (streams: Vec<u32>)
        ensures
            streams_of(self@.identities, user_id, streams@),
    {
        let pairs = user_table_pairs(&self.ssrc_map);
        let ghost entries = self@.identities;
        let mut streams: Vec<u32> = Vec::new();
        let mut i: usize = 0;
        while i < pairs.len()
            invariant
                i <= pairs@.len(),
                lists_all(pairs@, entries),
                streams@.no_duplicates(),
                forall|k: int|
                    0 <= k < streams@.len() ==> listed_before(
                        pairs@,
                        i as int,
                        #[trigger] streams@[k],
                        user_id,
                    ),
                forall|j: int|
                    0 <= j < i && (#[trigger] pairs@[j]).1 == user_id ==> streams@.contains(
                        pairs@[j].0,
                    ),
            decreases pairs@.len() - i,
        {
            let pair = pairs[i];
            let ghost before = streams@;
            if pair.1 == user_id {
                proof {
                    assert forall|k: int| 0 <= k < before.len() implies #[trigger] before[k]
                        != pair.0 by {
                        assert(listed_before(pairs@, i as int, before[k], user_id));
                        let j = choose|j: int|
                            0 <= j < i && (#[trigger] pairs@[j]).0 == before[k] && pairs@[j].1
                                == user_id;
                        assert(pairs@[j].0 != pairs@[i as int].0);
                    }
                }
                streams.push(pair.0);
                proof {
                    assert(pairs@[i as int].0 == pair.0);
                    assert(listed_before(pairs@, i + 1, pair.0, user_id));
                    assert(streams@[before.len() as int] == pair.0);
                }
            }
            proof {
                assert forall|k: int| 0 <= k < streams@.len() implies listed_before(
                    pairs@,
                    i + 1,
                    #[trigger] streams@[k],
                    user_id,
                ) by {
                    if k < before.len() {
                        assert(streams@[k] == before[k]);
                        assert(listed_before(pairs@, i as int, before[k], user_id));
                        let j = choose|j: int|
                            0 <= j < i && (#[trigger] pairs@[j]).0 == before[k] && pairs@[j].1
                                == user_id;
                        assert(0 <= j < i + 1 && pairs@[j].0 == streams@[k]);
                    }
                }
                assert forall|j: int|
                    0 <= j < i + 1 && (#[trigger] pairs@[j]).1 == user_id implies streams@.contains(
                    pairs@[j].0,
                ) by {
                    if j < i {
                        assert(before.contains(pairs@[j].0));
                        let k = choose|k: int| 0 <= k < before.len() && before[k] == pairs@[j].0;
                        assert(streams@[k] == pairs@[j].0);
                    } else {
                        assert(streams@[before.len() as int] == pairs@[j].0);
                    }
                }
            }
            i += 1;
        }
        proof {
            assert forall|ssrc: u32|
                streams@.contains(ssrc) <==> #[trigger] entries.contains_key(ssrc) && entries[ssrc]
                    == user_id by {
                if streams@.contains(ssrc) {
                    let k = choose|k: int| 0 <= k < streams@.len() && streams@[k] == ssrc;
                    assert(listed_before(pairs@, i as int, streams@[k], user_id));
                    let j = choose|j: int|
                        0 <= j < i && (#[trigger] pairs@[j]).0 == ssrc && pairs@[j].1 == user_id;
                    assert(entries.contains_pair(pairs@[j].0, pairs@[j].1));
                }
                if entries.contains_key(ssrc) && entries[ssrc] == user_id {
                    let j = choose|j: int| 0 <= j < pairs@.len() && (#[trigger] pairs@[j]).0 == ssrc;
                    assert(entries.contains_pair(pairs@[j].0, pairs@[j].1));
                    assert(streams@.contains(pairs@[j].0));
                }
            }
        }
        streams
    }

    /// A user left the call: every stream that the identity map has for
    /// them is flushed and leaves the map, and the user stops being the
    /// current speaker. The streams are closed in the order in which
    /// `streams` of the outcome lists them.
    pub fn on_disconnect(
        &mut self,
        roster: &mut VoiceRoster,
        disconnect: &DisconnectEvent,
        now: u64,
    ) -> (outcome: ClosedStreams)
        requires
            old(self).wf(),
            old(roster).wf(),
        ensures
            final(self).wf(),
            final(roster).wf(),
            streams_of(old(self)@.identities, disconnect.user_id, outcome.streams@),
            final(self)@ == disconnected(
                old(self)@,
                old(roster)@,
                disconnect.user_id,
                outcome.streams@,
                now,
            ).aggregator,
            final(roster)@ == disconnected(
                old(self)@,
                old(roster)@,
                disconnect.user_id,
                outcome.streams@,
                now,
            ).roster,
            effect_views(outcome.effects@) == disconnected(
                old(self)@,
                old(roster)@,
                disconnect.user_id,
                outcome.streams@,
                now,
            ).effects,
    {
        let user_id = disconnect.user_id;
        let streams = self.streams_of_user(user_id);
        let mut effects: Vec<Effect> = Vec::new();
        let ghost start = self@;
        let ghost start_roster = roster@;
        let ghost order = streams@;
        let mut i: usize = 0;
        proof {
            assert(order.take(0) =~= Seq::empty());
            assert(effect_views(effects@) =~= Seq::empty());
        }
        while i < streams.len()
            invariant
                i <= streams@.len(),
                order == streams@,
                self.wf(),
                roster.wf(),
                self@ == disconnected(
                    start,
                    start_roster,
                    user_id,
                    order.take(i as int),
                    now,
                ).aggregator,
                roster@ == disconnected(
                    start,
                    start_roster,
                    user_id,
                    order.take(i as int),
                    now,
                ).roster,
                effect_views(effects@) == disconnected(
                    start,
                    start_roster,
                    user_id,
                    order.take(i as int),
                    now,
                ).effects,
            decreases streams@.len() - i,
        {
            let ssrc = streams[i];
            let ghost before = disconnected(start, start_roster, user_id, order.take(i as int), now);
            proof {
                assert(order.take(i + 1).drop_last() =~= order.take(i as int));
                assert(order.take(i + 1).last() == ssrc);
            }
            self.flush_stream(roster, ssrc, now, &mut effects);
            let _ = user_table_remove(&mut self.ssrc_map, ssrc);
            assert(well_formed(self@));
            self.clear_current_speaker(user_id, &mut effects);
            proof {
                let step = stream_closed(before.aggregator, before.roster, ssrc, user_id, now);
                assert(effect_views(effects@) =~= and_then(before, step).effects);
            }
            i += 1;
        }
        proof {
            assert(order.take(i as int) =~= order);
        }
        ClosedStreams { streams, effects }
    }

    /// The call ends: every live buffer is flushed, so that no sample that
    /// was taken in is lost, and no buffer is left. The streams are flushed
    /// in the order in which `streams` of the outcome lists them.
    pub fn flush_all(&mut self, roster: &mut VoiceRoster, now: u64) -> (outcome: ClosedStreams)
        requires
            old(self).wf(),
            old(roster).wf(),
        ensures
            final(self).wf(),
            final(roster).wf(),
            lists_domain(outcome.streams@, old(self)@.buffers.dom()),
            final(self)@ == all_flushed(old(self)@, old(roster)@, outcome.streams@, now).aggregator,
            final(roster)@ == all_flushed(old(self)@, old(roster)@, outcome.streams@, now).roster,
            effect_views(outcome.effects@) == all_flushed(
                old(self)@,
                old(roster)@,
                outcome.streams@,
                now,
            ).effects,
            final(self)@.buffers == Map::<u32, BufferView>::empty(),
    {
        let streams = buffer_table_keys(&self.buffers);
        let mut effects: Vec<Effect> = Vec::new();
        let ghost start = self@;
        let ghost start_roster = roster@;
        let ghost order = streams@;
        let mut i: usize = 0;
        proof {
            assert(order.take(0) =~= Seq::empty());
            assert(effect_views(effects@) =~= Seq::empty());
        }
        while i < streams.len()
            invariant
                i <= streams@.len(),
                order == streams@,
                self.wf(),
                roster.wf(),
                self@ == all_flushed(start, start_roster, order.take(i as int), now).aggregator,
                roster@ == all_flushed(start, start_roster, order.take(i as int), now).roster,
                effect_views(effects@) == all_flushed(
                    start,
                    start_roster,
                    order.take(i as int),
                    now,
                ).effects,
                forall|ssrc: u32| #[trigger]
                    self@.buffers.contains_key(ssrc) ==> start.buffers.contains_key(ssrc)
                        && !order.take(i as int).contains(ssrc),
            decreases streams@.len() - i,
        {
            let ssrc = streams[i];
            let ghost before = all_flushed(start, start_roster, order.take(i as int), now);
            proof {
                assert(order.take(i + 1).drop_last() =~= order.take(i as int));
                assert(order.take(i + 1).last() == ssrc);
                lemma_flushed_buffers(before.aggregator, before.roster, ssrc, now);
            }
            self.flush_stream(roster, ssrc, now, &mut effects);
            proof {
                let step = flushed(before.aggregator, before.roster, ssrc, now);
                assert(effect_views(effects@) =~= and_then(before, step).effects);
                assert forall|other: u32| #[trigger]
                    self@.buffers.contains_key(other) implies start.buffers.contains_key(other)
                    && !order.take(i + 1).contains(other) by {
                    assert(before.aggregator.buffers.contains_key(other));
                    assert(other != ssrc);
                    let grown = order.take(i + 1);
                    if grown.contains(other) {
                        let k = choose|k: int| 0 <= k < grown.len() && #[trigger] grown[k] == other;
                        if k < i {
                            assert(order.take(i as int)[k] == other);
                        }
                    }
                }
            }
            i += 1;
        }
        proof {
            assert(order.take(i as int) =~= order);
            assert forall|ssrc: u32| !self@.buffers.contains_key(ssrc) by {
                if self@.buffers.contains_key(ssrc) {
                    assert(start.buffers.dom().contains(ssrc));
                    assert(order.contains(ssrc));
                }
            }
            assert(self@.buffers =~= Map::<u32, BufferView>::empty());
        }
        ClosedStreams { streams, effects }
    }

    /// Follows a change of a user's voice state during the call: a user who
    /// came into the call's channel is noted as joined, one who went from it
    /// as left, and the bot's own moves are ignored. A user who joins while
    /// the identity map has a stream for them is confirmed at once and does
    /// not become pending.
    pub fn on_voice_state_update(
        &self,
        roster: &mut VoiceRoster,
        bot_id: u64,
        user_id: u64,
        old_channel: Option<u64>,
        new_channel: Option<u64>,
        now: u64,
    )
        requires
            old(roster).wf(),
        ensures
            final(roster).wf(),
            final(roster)@ == membership_seen(
                self@,
                old(roster)@,
                bot_id,
                user_id,
                old_channel,
                new_channel,
                now,
            ),
    {
        roster.handle_voice_state_update(
            Some(self.config.channel_id),
            bot_id,
            user_id,
            old_channel,
            new_channel,
            now,
        );
        let streams = self.streams_of_user(user_id);
        if streams.len() > 0 {
            proof {
                assert(streams@.contains(streams@[0]));
                assert(self@.identities.contains_key(streams@[0]));
            }
            roster.note_confirmed(user_id);
        } else {
            proof {
                if is_mapped(self@.identities, user_id) {
                    let ssrc = choose|ssrc: u32| #[trigger]
                        self@.identities.contains_key(ssrc) && self@.identities[ssrc] == user_id;
                    assert(streams@.contains(ssrc));
                }
            }
        }
    }

    /// Takes one event of the transport and hands back what has to be
    /// done. An event of another kind changes nothing.
    pub fn act(&mut self, roster: &mut VoiceRoster, event: &TransportEvent, now: u64) -> (effects:
        Vec<Effect>)
        requires
            old(self).wf(),
            old(roster).wf(),
        ensures
            final(self).wf(),
            final(roster).wf(),
            event matches TransportEvent::Speaking(speaking) ==> final(self)@ == spoke_up(
                old(self)@,
                old(roster)@,
                speaking.ssrc,
                speaking.user_id,
                speaking.is_speaking,
                now,
            ).aggregator && final(roster)@ == spoke_up(
                old(self)@,
                old(roster)@,
                speaking.ssrc,
                speaking.user_id,
                speaking.is_speaking,
                now,
            ).roster && effect_views(effects@) == spoke_up(
                old(self)@,
                old(roster)@,
                speaking.ssrc,
                speaking.user_id,
                speaking.is_speaking,
                now,
            ).effects,
            event matches TransportEvent::Tick(tick) ==> final(self)@ == ticked(
                old(self)@,
                old(roster)@,
                audio_views(tick.speaking@),
                tick.silent@,
                now,
            ).aggregator && final(roster)@ == ticked(
                old(self)@,
                old(roster)@,
                audio_views(tick.speaking@),
                tick.silent@,
                now,
            ).roster && effect_views(effects@) == ticked(
                old(self)@,
                old(roster)@,
                audio_views(tick.speaking@),
                tick.silent@,
                now,
            ).effects,
            event matches TransportEvent::Disconnect(disconnect) ==> exists|order: Seq<u32>|
                closes_in_order(
                    old(self)@,
                    old(roster)@,
                    disconnect.user_id,
                    order,
                    now,
                    final(self)@,
                    final(roster)@,
                    effect_views(effects@),
                ),
            event is Other ==> final(self)@ == old(self)@ && final(roster)@ == old(roster)@
                && effects@.len() == 0,
    {
        match event {
            TransportEvent::Speaking(speaking) => self.on_speaking(roster, speaking, now),
            TransportEvent::Tick(tick) => self.on_voice_tick(roster, tick, now),
            TransportEvent::Disconnect(disconnect) => {
                let outcome = self.on_disconnect(roster, disconnect, now);
                assert(closes_in_order(
                    old(self)@,
                    old(roster)@,
                    disconnect.user_id,
                    outcome.streams@,
                    now,
                    self@,
                    roster@,
                    effect_views(outcome.effects@),
                ));
                outcome.effects
            },
            TransportEvent::Other => Vec::new(),
        }
    }
}

/// The new state and the effects are those of closing the streams of
/// `user_id` in the order given, which lists each of them once.
pub open spec fn closes_in_order(
    aggregator: AggregatorView,
    roster: crate::roster::RosterView,
    user_id: u64,
    order: Seq<u32>,
    now: u64,
    after: AggregatorView,
    roster_after: crate::roster::RosterView,
    effects: Seq<EffectView>,
) -> bool {
    &&& streams_of(aggregator.identities, user_id, order)
    &&& after == disconnected(aggregator, roster, user_id, order, now).aggregator
    &&& roster_after == disconnected(aggregator, roster, user_id, order, now).roster
    &&& effects == disconnected(aggregator, roster, user_id, order, now).effects
}

/// Among the first `upto` pairs, one maps `ssrc` to `user_id`.
pub open spec fn listed_before(pairs: Seq<(u32, u64)>, upto: int, ssrc: u32, user_id: u64) -> bool {
    exists|j: int| 0 <= j < upto && (#[trigger] pairs[j]).0 == ssrc && pairs[j].1 == user_id
}

/// What closing streams did: the streams that were closed, in the order
/// in which they were closed, and the effects asked for.
#[derive(Debug)]
pub struct ClosedStreams {
    pub streams: Vec<u32>,
    pub effects: Vec<Effect>,
}

/// Appends the samples of a tick to a buffer.
pub fn append_samples(buffer: &mut Vec<i16>, samples: &[i16])
    ensures
        final(buffer)@ == old(buffer)@ + samples@,
{
    buffer.extend_from_slice(samples);
    assert(buffer@ =~= old(buffer)@ + samples@);
}

} // verus!
