//! From the segments that the transcription backend returns to the caption
//! entry that is recorded.

use crate::captions::{CaptionEntry, SpeakerInfo};
use crate::events::TranscriptionJob;
use crate::text::{lower_text, lowered, same_text, trim_text, trimmed};
use chrono::DateTime;
use vstd::prelude::*;
use vstd::string::StringExecFns;

verus! {

/// The contents of a list of segments.
pub open spec fn segment_views(segments: Seq<String>) -> Seq<Seq<char>> {
    segments.map_values(|segment: String| segment@)
}

/// The segments, each without the white space around it and followed by a
/// space; segments of which nothing is left are passed over.
pub open spec fn joined_segments(segments: Seq<Seq<char>>) -> Seq<char>
    decreases segments.len(),
{
    if segments.len() == 0 {
        Seq::empty()
    } else {
        let before = joined_segments(segments.drop_last());
        let piece = trimmed(segments.last());
        if piece.len() == 0 {
            before
        } else {
            before + piece + seq![' ']
        }
    }
}

/// The text is the backend's mark for audio without speech, in any mix of
/// ASCII case.
pub open spec fn is_blank_marker(text: Seq<char>) -> bool {
    lowered(text) == lowered("[blank_audio]"@)
}

/// The line that a transcription amounts to: the segments joined, without
/// white space around the whole. Nothing when that is empty or the mark for
/// audio without speech.
pub open spec fn transcript_of(segments: Seq<Seq<char>>) -> Option<Seq<char>> {
    let text = trimmed(joined_segments(segments));
    if text.len() == 0 || is_blank_marker(text) {
        None
    } else {
        Some(text)
    }
}

/// How a caption writes the UTC time that is `epoch_secs` seconds from the
/// Unix epoch: year, month and day, a `T`, and the time of day. The text is
/// chrono's; there is none where the calendar cannot express the time.
pub uninterp spec fn caption_stamp(epoch_secs: int) -> Option<Seq<char>>;

/// `DateTime::from_timestamp(epoch_secs, 0)`, written with
/// `format("%Y-%m-%dT%H:%M:%S")`: nothing when the seconds are out of the
/// calendar's range.
#[verifier::external_body]
fn format_caption_stamp(epoch_secs: i64) -> (text: Option<String>)
    ensures
        text.is_some() == caption_stamp(epoch_secs as int).is_some(),
        text.is_some() ==> text.unwrap()@ == caption_stamp(epoch_secs as int).unwrap(),
{
    DateTime::from_timestamp(epoch_secs, 0).map(|time| time.format("%Y-%m-%dT%H:%M:%S").to_string())
}

/// Joins the segments of a transcription into one line; see
/// `transcript_of`.
pub fn assemble_transcript(segments: &Vec<String>) -> (line: Option<String>)
    ensures
        line.is_some() == transcript_of(segment_views(segments@)).is_some(),
        line.is_some() ==> line.unwrap()@ == transcript_of(segment_views(segments@)).unwrap(),
{
    let ghost pieces = segment_views(segments@);
    let mut text = String::new();
    let mut i: usize = 0;
    proof {
        reveal_strlit(" ");
        assert(pieces.take(0) =~= Seq::<Seq<char>>::empty());
    }
    while i < segments.len()
        invariant
            i <= segments@.len(),
            pieces == segment_views(segments@),
            text@ == joined_segments(pieces.take(i as int)),
        decreases segments@.len() - i,
    {
        proof {
            assert(pieces.take(i + 1).drop_last() =~= pieces.take(i as int));
            assert(pieces.take(i + 1).last() == segments@[i as int]@);
            reveal_strlit(" ");
        }
        let piece = trim_text(segments[i].as_str());
        if !piece.as_str().is_empty() {
            let ghost before = text@;
            text.append(piece.as_str());
            text.append(" ");
            assert(text@ =~= before + piece@ + seq![' ']);
        }
        i += 1;
    }
    proof {
        assert(pieces.take(i as int) =~= pieces);
    }
    let line = trim_text(text.as_str());
    if line.as_str().is_empty() {
        return None;
    }
    let folded = lower_text(line.as_str());
    let marker = lower_text("[blank_audio]");
    if same_text(folded.as_str(), marker.as_str()) {
        return None;
    }
    Some(line)
}

/// The caption entry for a job and what the backend made of it: the job's
/// speaker, the line, and the time the chunk started. Nothing for a job
/// without samples, nothing when there is no line to record, and nothing
/// when the job's time is outside the calendar.
pub fn caption_for(job: &TranscriptionJob, segments: &Vec<String>) -> (entry: Option<CaptionEntry>)
    ensures
        entry.is_some() == (job.pcm@.len() > 0 && transcript_of(segment_views(segments@)).is_some()
            && caption_stamp(job.started_at as int).is_some()),
        entry.is_some() ==> entry.unwrap()@ == (crate::captions::EntryView {
            speaker_id: job.speaker_id,
            speaker_name: job.speaker_name@,
            comment: transcript_of(segment_views(segments@)).unwrap(),
            timestamp: caption_stamp(job.started_at as int).unwrap(),
        }),
{
    if job.pcm.len() == 0 {
        return None;
    }
    let line = match assemble_transcript(segments) {
        Some(line) => line,
        None => {
            return None;
        },
    };
    let timestamp = match format_caption_stamp(job.started_at) {
        Some(timestamp) => timestamp,
        None => {
            return None;
        },
    };
    Some(
        CaptionEntry {
            speaker: SpeakerInfo { id: job.speaker_id, name: job.speaker_name.clone() },
            comment: line,
            timestamp,
        },
    )
}

} // verus!
