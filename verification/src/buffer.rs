//! The append buffer of one audio stream.

use crate::identity::{SpeakerIdentity, SpeakerView};
use vstd::prelude::*;

verus! {

/// The samples of one stream that are waiting to fill a chunk, with the
/// speaker they are attributed to and the time the last ones arrived (a
/// reading of the caller's monotonic clock, in nanoseconds).
#[derive(Debug)]
pub struct AudioBuffer {
    pub samples: Vec<i16>,
    pub speaker: SpeakerIdentity,
    pub last_activity: u64,
}

/// A stream buffer as a mathematical value.
pub struct BufferView {
    pub samples: Seq<i16>,
    pub speaker: SpeakerView,
    pub last_activity: u64,
}

impl View for AudioBuffer {
    type V = BufferView;

    open spec fn view(&self) -> BufferView {
        BufferView {
            samples: self.samples@,
            speaker: self.speaker@,
            last_activity: self.last_activity,
        }
    }
}

impl AudioBuffer {
    /// An empty buffer for a stream whose audio is attributed to `speaker`.
    pub fn new(speaker: SpeakerIdentity, now: u64) -> (buffer: Self)
        ensures
            buffer@ == (BufferView { samples: Seq::empty(), speaker: speaker@, last_activity: now }),
    {
        AudioBuffer { samples: Vec::with_capacity(4096), speaker, last_activity: now }
    }
}

} // verus!
