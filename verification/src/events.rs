//! What the voice transport reports to the engine, and what the engine asks
//! of its collaborators in return.

use crate::identity::{SpeakerIdentity, SpeakerView};
use vstd::prelude::*;

verus! {

/// The transport announces who owns a stream, or that a microphone went on
/// or off.
#[derive(Clone, Copy, Debug)]
pub struct SpeakingStateEvent {
    pub ssrc: u32,
    pub user_id: Option<u64>,
    pub is_speaking: bool,
}

/// The audio of one stream within one tick, if any was decoded.
#[derive(Debug)]
pub struct StreamAudio {
    pub ssrc: u32,
    pub decoded_voice: Option<Vec<i16>>,
}

/// One tick of the transport: the streams that carried audio, in the order
/// the caller walked them, and the streams that fell silent.
#[derive(Debug)]
pub struct VoiceTick {
    pub speaking: Vec<StreamAudio>,
    pub silent: Vec<u32>,
}

/// A user left the call.
#[derive(Clone, Copy, Debug)]
pub struct DisconnectEvent {
    pub user_id: u64,
}

/// What the transport hands to the engine.
#[derive(Debug)]
pub enum TransportEvent {
    Speaking(SpeakingStateEvent),
    Tick(VoiceTick),
    Disconnect(DisconnectEvent),
    /// An event that the engine has no use for.
    Other,
}

/// A chunk that is ready for transcription, attributed to a speaker.
#[derive(Debug)]
pub struct ChunkDispatch {
    pub channel_id: u64,
    pub guild_id: u64,
    pub speaker: SpeakerIdentity,
    pub pcm: Vec<i16>,
    pub sample_rate: u32,
}

/// What the engine asks of its collaborators. The caller carries the
/// effects out in the order in which they are handed over.
#[derive(Debug)]
pub enum Effect {
    /// Publish who is speaking now, or that nobody is.
    PublishSpeaker(Option<u64>),
    /// Rewrite the persisted entries that carry a placeholder label to the
    /// user that the stream turned out to belong to.
    Relabel { placeholder: String, user_id: u64 },
    /// Hand a chunk to the transcription queue.
    Dispatch(ChunkDispatch),
}

/// The job that the transcription queue takes.
#[derive(Debug)]
pub struct TranscriptionJob {
    pub channel_id: u64,
    pub guild_id: u64,
    pub speaker_id: Option<u64>,
    pub speaker_name: String,
    pub pcm: Vec<i16>,
    pub sample_rate: u32,
    pub started_at: i64,
}

/// The audio of a stream within a tick as a mathematical value.
pub struct AudioView {
    pub ssrc: u32,
    pub decoded_voice: Option<Seq<i16>>,
}

/// A chunk ready for transcription as a mathematical value.
pub struct DispatchView {
    pub channel_id: u64,
    pub guild_id: u64,
    pub speaker: SpeakerView,
    pub pcm: Seq<i16>,
    pub sample_rate: u32,
}

/// An effect as a mathematical value.
pub enum EffectView {
    PublishSpeaker(Option<u64>),
    Relabel { placeholder: Seq<char>, user_id: u64 },
    Dispatch(DispatchView),
}

impl View for StreamAudio {
    type V = AudioView;

    open spec fn view(&self) -> AudioView {
        AudioView {
            ssrc: self.ssrc,
            decoded_voice: match self.decoded_voice {
                Some(samples) => Some(samples@),
                None => None,
            },
        }
    }
}

impl View for ChunkDispatch {
    type V = DispatchView;

    open spec fn view(&self) -> DispatchView {
        DispatchView {
            channel_id: self.channel_id,
            guild_id: self.guild_id,
            speaker: self.speaker@,
            pcm: self.pcm@,
            sample_rate: self.sample_rate,
        }
    }
}

impl View for Effect {
    type V = EffectView;

    open spec fn view(&self) -> EffectView {
        match self {
            Effect::PublishSpeaker(speaker) => EffectView::PublishSpeaker(*speaker),
            Effect::Relabel { placeholder, user_id } => EffectView::Relabel {
                placeholder: placeholder@,
                user_id: *user_id,
            },
            Effect::Dispatch(chunk) => EffectView::Dispatch(chunk@),
        }
    }
}

/// The contents of a list of effects.
pub open spec fn effect_views(effects: Seq<Effect>) -> Seq<EffectView> {
    effects.map_values(|effect: Effect| effect@)
}

/// The contents of the audio of a tick.
pub open spec fn audio_views(speaking: Seq<StreamAudio>) -> Seq<AudioView> {
    speaking.map_values(|audio: StreamAudio| audio@)
}

/// The chunks among the effects, in order.
pub open spec fn dispatched_chunks(effects: Seq<EffectView>) -> Seq<DispatchView>
    decreases effects.len(),
{
    if effects.len() == 0 {
        Seq::empty()
    } else {
        match effects.last() {
            EffectView::Dispatch(chunk) => dispatched_chunks(effects.drop_last()).push(chunk),
            _ => dispatched_chunks(effects.drop_last()),
        }
    }
}

/// Adds an effect to the end of the list.
pub fn emit(effects: &mut Vec<Effect>, effect: Effect)
    ensures
        effect_views(final(effects)@) == effect_views(old(effects)@).push(effect@),
{
    effects.push(effect);
    assert(effect_views(effects@) =~= effect_views(old(effects)@).push(effect@));
}

impl ChunkDispatch {
    /// Makes the job for the transcription queue. A placeholder speaks
    /// under its label and without an id; a known user under the name that
    /// was found for them, or else under the fallback name.
    pub fn into_job(self, found_name: Option<String>, started_at: i64) -> (job: TranscriptionJob)
        ensures
            job.channel_id == self.channel_id,
            job.guild_id == self.guild_id,
            job.pcm@ == self.pcm@,
            job.sample_rate == self.sample_rate,
            job.started_at == started_at,
            job.speaker_id == crate::identity::known_user(self.speaker@),
            job.speaker_name@ == (match self.speaker@ {
                SpeakerView::Placeholder(label) => label,
                SpeakerView::Known(user_id) => match found_name {
                    Some(name) => name@,
                    None => crate::identity::fallback_name_text(user_id),
                },
            }),
    {
        let ChunkDispatch { channel_id, guild_id, speaker, pcm, sample_rate } = self;
        let (speaker_id, speaker_name) = match speaker {
            SpeakerIdentity::Known(user_id) => (
                Some(user_id),
                crate::identity::display_name(found_name, user_id),
            ),
            SpeakerIdentity::Placeholder { label } => (None, label),
        };
        TranscriptionJob {
            channel_id,
            guild_id,
            speaker_id,
            speaker_name,
            pcm,
            sample_rate,
            started_at,
        }
    }
}

} // verus!
