//! What is prepared for the summarization service.

use crate::json::{field_of, parse_json, parsed_json, string_field, summary_text_of, Json};
use crate::text::{trim_text, trimmed};
use vstd::prelude::*;
use vstd::string::StringExecFns;
use vstd::utf8::{decode_utf8, is_char_boundary};

verus! {

/// The most bytes of a transcript that are sent to be summarized.
pub const MAX_TRANSCRIPT_BYTES: usize = 60_000;

/// A transcript as it is sent: whole when it has no more bytes than the
/// limit, else its first bytes up to the limit, followed by a note that it
/// was cut.
pub open spec fn truncated_text(transcript: Seq<char>) -> Seq<char> {
    let bytes = vstd::utf8::encode_utf8(transcript);
    if bytes.len() <= MAX_TRANSCRIPT_BYTES {
        transcript
    } else {
        decode_utf8(bytes.subrange(0, MAX_TRANSCRIPT_BYTES as int))
            + "\n\n[Transcript truncated]"@
    }
}

/// Whether a transcript can be cut at the limit: it is short enough to be
/// sent whole, or no character straddles the limit.
pub open spec fn can_truncate(transcript: Seq<char>) -> bool {
    let bytes = vstd::utf8::encode_utf8(transcript);
    bytes.len() <= MAX_TRANSCRIPT_BYTES || is_char_boundary(bytes, MAX_TRANSCRIPT_BYTES as int)
}

/// Whether a transcript can be cut at the limit.
pub fn truncation_fits(transcript: &str) -> (fits: bool)
    ensures
        fits == can_truncate(transcript@),
{
    transcript.as_bytes().len() <= MAX_TRANSCRIPT_BYTES || transcript.is_char_boundary(
        MAX_TRANSCRIPT_BYTES,
    )
}

/// Cuts a transcript to the size that is sent to be summarized.
pub fn truncate_transcript(transcript: &str) -> (text: String)
    requires
        can_truncate(transcript@),
    ensures
        text@ == truncated_text(transcript@),
{
    if transcript.as_bytes().len() <= MAX_TRANSCRIPT_BYTES {
        return String::from_str(transcript);
    }
    let (head, _) = transcript.split_at(MAX_TRANSCRIPT_BYTES);
    proof {
        vstd::utf8::encode_utf8_decode_utf8(head@);
    }
    let mut text = String::from_str(head);
    text.append("\n\n[Transcript truncated]");
    text
}

/// Cuts a transcript to the size that is sent to be summarized, where it
/// can be cut; a transcript in which a character straddles the limit gives
/// nothing.
pub fn try_truncate_transcript(transcript: &str) -> (text: Option<String>)
    ensures
        text.is_some() == can_truncate(transcript@),
        text.is_some() ==> text.unwrap()@ == truncated_text(transcript@),
{
    if truncation_fits(transcript) {
        Some(truncate_transcript(transcript))
    } else {
        None
    }
}


/// Why a transcript cannot be prepared for a summary.
#[derive(Clone, Copy, Debug, PartialEq, Eq, Structural)]
pub enum TranscriptError {
    /// The bytes are not JSON.
    Malformed,
    /// The document holds no caption with anything said.
    NoEntries,
}

/// Why the answer of the summarization service gives no summary.
#[derive(Clone, Copy, Debug, PartialEq, Eq, Structural)]
pub enum SummaryError {
    /// The answer is not JSON.
    Unparsable,
    /// The answer holds no text.
    NoText,
}

/// A string member, or a default where it is missing or no string.
pub open spec fn string_or(value: Json, key: Seq<char>, default: Seq<char>) -> Seq<char> {
    match string_field(value, key) {
        Some(text) => text,
        None => default,
    }
}

/// A line of the header for a string member, where there is one.
pub open spec fn header_line(metadata: Json, key: Seq<char>, label: Seq<char>) -> Seq<char> {
    match string_field(metadata, key) {
        Some(text) => label + text + seq!['\n'],
        None => Seq::empty(),
    }
}

/// The header line for the title, trimmed; none for a title of white space.
pub open spec fn title_line(metadata: Json) -> Seq<char> {
    match string_field(metadata, "title"@) {
        Some(title) => if trimmed(title).len() > 0 {
            "Session Title: "@ + trimmed(title) + seq!['\n']
        } else {
            Seq::empty()
        },
        None => Seq::empty(),
    }
}

/// The header of a flattened transcript: what the `metadata` object says
/// about title, start, end and duration, line by line, and an empty line.
/// Nothing where `metadata` is no object.
pub open spec fn header_text(document: Json) -> Seq<char> {
    match field_of(document, "metadata"@) {
        Some(metadata) => if metadata is Object {
            title_line(metadata) + header_line(metadata, "started_at"@, "Started At: "@)
                + header_line(metadata, "ended_at"@, "Ended At: "@) + header_line(
                metadata,
                "duration_formatted"@,
                "Duration: "@,
            ) + seq!['\n']
        } else {
            Seq::empty()
        },
        None => Seq::empty(),
    }
}

/// The name of the speaker of an entry.
pub open spec fn speaker_name_of(entry: Json) -> Seq<char> {
    match field_of(entry, "speaker"@) {
        Some(speaker) => string_or(speaker, "name"@, "Unknown Speaker"@),
        None => "Unknown Speaker"@,
    }
}

/// The line of one caption entry: time, speaker and what was said. An entry
/// with nothing said gives no line.
pub open spec fn entry_line(entry: Json) -> Seq<char> {
    let comment = trimmed(string_or(entry, "comment"@, Seq::empty()));
    if comment.len() == 0 {
        Seq::empty()
    } else {
        seq!['['] + string_or(entry, "timestamp"@, "unknown time"@) + "] "@ + speaker_name_of(
            entry,
        ) + ": "@ + comment + seq!['\n']
    }
}

/// The lines of the entries, in order.
pub open spec fn entry_lines(entries: Seq<Json>) -> Seq<char>
    decreases entries.len(),
{
    if entries.len() == 0 {
        Seq::empty()
    } else {
        entry_lines(entries.drop_last()) + entry_line(entries.last())
    }
}

/// The lines of the `transcriptions` of a document; none where that is no
/// array.
pub open spec fn body_text(document: Json) -> Seq<char> {
    match field_of(document, "transcriptions"@) {
        Some(Json::Array(entries)) => entry_lines(entries@),
        _ => Seq::empty(),
    }
}

/// A session document as plain text: the header, the word `Transcript:`,
/// and a line for each caption with something said. Nothing when no
/// caption has anything said.
pub open spec fn flattened(document: Json) -> Option<Seq<char>> {
    if body_text(document).len() == 0 {
        None
    } else {
        Some(header_text(document) + "Transcript:\n"@ + body_text(document))
    }
}

impl TranscriptError {
    /// What went wrong, in words.
    pub fn message(&self) -> (text: String)
        ensures
            text@ == (match *self {
                TranscriptError::Malformed => "parsing caption JSON"@,
                TranscriptError::NoEntries =>
                    "transcript JSON did not contain any caption entries"@,
            }),
    {
        match self {
            TranscriptError::Malformed => String::from_str("parsing caption JSON"),
            TranscriptError::NoEntries => String::from_str(
                "transcript JSON did not contain any caption entries",
            ),
        }
    }
}

impl SummaryError {
    /// What went wrong, in words.
    pub fn message(&self) -> (text: String)
        ensures
            text@ == (match *self {
                SummaryError::Unparsable => "parsing OpenAI summary response"@,
                SummaryError::NoText => "OpenAI summary response did not include text"@,
            }),
    {
        match self {
            SummaryError::Unparsable => String::from_str("parsing OpenAI summary response"),
            SummaryError::NoText => String::from_str("OpenAI summary response did not include text"),
        }
    }
}

/// Appends the header line of a string member, where there is one.
fn push_header_line(out: &mut String, metadata: &Json, key: &str, label: &str)
    ensures
        final(out)@ == old(out)@ + header_line(*metadata, key@, label@),
{
    match metadata.get_str(key) {
        Some(text) => {
            proof {
                reveal_strlit("\n");
            }
            out.append(label);
            out.append(text);
            out.append("\n");
            assert(out@ =~= old(out)@ + header_line(*metadata, key@, label@));
        },
        None => {
            assert(out@ =~= old(out)@ + header_line(*metadata, key@, label@));
        },
    }
}

/// Appends the header of a document.
fn push_header(out: &mut String, document: &Json)
    ensures
        final(out)@ == old(out)@ + header_text(*document),
{
    let metadata = match document.get("metadata") {
        Some(metadata) => metadata,
        None => {
            assert(out@ =~= old(out)@ + header_text(*document));
            return ;
        },
    };
    if let Json::Object(_) = metadata {
        proof {
            reveal_strlit("\n");
        }
        if let Some(title) = metadata.get_str("title") {
            let trimmed = trim_text(title);
            if !trimmed.as_str().is_empty() {
                out.append("Session Title: ");
                out.append(trimmed.as_str());
                out.append("\n");
            }
        }
        assert(out@ =~= old(out)@ + title_line(*metadata));
        push_header_line(out, metadata, "started_at", "Started At: ");
        push_header_line(out, metadata, "ended_at", "Ended At: ");
        push_header_line(out, metadata, "duration_formatted", "Duration: ");
        out.append("\n");
        assert(out@ =~= old(out)@ + header_text(*document));
    } else {
        assert(out@ =~= old(out)@ + header_text(*document));
    }
}

/// Appends the line of one caption entry, where it has one.
fn push_entry_line(out: &mut String, entry: &Json) -> (wrote: bool)
    ensures
        final(out)@ == old(out)@ + entry_line(*entry),
        wrote == (entry_line(*entry).len() > 0),
{
    let timestamp = match entry.get_str("timestamp") {
        Some(text) => text,
        None => "unknown time",
    };
    let speaker = match entry.get("speaker") {
        Some(speaker) => match speaker.get_str("name") {
            Some(name) => name,
            None => "Unknown Speaker",
        },
        None => "Unknown Speaker",
    };
    let comment = match entry.get_str("comment") {
        Some(text) => trim_text(text),
        None => {
            proof {
                reveal_strlit("");
                assert(""@ =~= Seq::<char>::empty());
            }
            trim_text("")
        },
    };
    if comment.as_str().is_empty() {
        assert(out@ =~= old(out)@ + entry_line(*entry));
        return false;
    }
    proof {
        reveal_strlit("[");
        reveal_strlit("\n");
    }
    out.append("[");
    out.append(timestamp);
    out.append("] ");
    out.append(speaker);
    out.append(": ");
    out.append(comment.as_str());
    out.append("\n");
    assert(out@ =~= old(out)@ + entry_line(*entry));
    true
}

/// Writes a session document as plain text for the summarization service;
/// see `flattened`.
pub fn flatten_value(document: &Json) -> (text: Result<String, TranscriptError>)
    ensures
        text.is_ok() == flattened(*document).is_some(),
        text.is_ok() ==> text.unwrap()@ == flattened(*document).unwrap(),
        text.is_err() ==> text.unwrap_err() == TranscriptError::NoEntries,
{
    let mut out = String::new();
    push_header(&mut out, document);
    out.append("Transcript:\n");
    let ghost lead = out@;
    assert(lead =~= header_text(*document) + "Transcript:\n"@);
    let mut wrote_any = false;
    if let Some(Json::Array(entries)) = document.get("transcriptions") {
        let mut i: usize = 0;
        proof {
            assert(entries@.take(0) =~= Seq::<Json>::empty());
            assert(out@ =~= lead + entry_lines(entries@.take(0)));
        }
        while i < entries.len()
            invariant
                i <= entries@.len(),
                out@ == lead + entry_lines(entries@.take(i as int)),
                wrote_any == (entry_lines(entries@.take(i as int)).len() > 0),
            decreases entries@.len() - i,
        {
            proof {
                assert(entries@.take(i + 1).drop_last() =~= entries@.take(i as int));
                assert(entries@.take(i + 1).last() == entries@[i as int]);
            }
            let wrote = push_entry_line(&mut out, &entries[i]);
            if wrote {
                wrote_any = true;
            }
            assert(out@ =~= lead + entry_lines(entries@.take(i + 1)));
            i += 1;
        }
        proof {
            assert(entries@.take(i as int) =~= entries@);
        }
    } else {
        assert(out@ =~= lead + body_text(*document));
    }
    if wrote_any {
        Ok(out)
    } else {
        Err(TranscriptError::NoEntries)
    }
}

/// Prepares the bytes of a session document for the summarization
/// service: they are parsed as JSON and the document is written as plain
/// text.
pub fn flatten_transcript(bytes: &[u8]) -> (text: Result<String, TranscriptError>)
    ensures
        parsed_json(bytes@).is_none() ==> text == Err::<String, TranscriptError>(
            TranscriptError::Malformed,
        ),
        parsed_json(bytes@).is_some() ==> text.is_ok() == flattened(
            parsed_json(bytes@).unwrap(),
        ).is_some(),
        parsed_json(bytes@).is_some() && text.is_ok() ==> text.unwrap()@ == flattened(
            parsed_json(bytes@).unwrap(),
        ).unwrap(),
        parsed_json(bytes@).is_some() && text.is_err() ==> text.unwrap_err()
            == TranscriptError::NoEntries,
{
    match parse_json(bytes) {
        Some(document) => flatten_value(&document),
        None => Err(TranscriptError::Malformed),
    }
}

/// The summary in a parsed answer of the service.
pub fn summary_in(answer: &Json) -> (text: Result<String, SummaryError>)
    ensures
        text.is_ok() == summary_text_of(*answer).is_some(),
        text.is_ok() ==> text.unwrap()@ == summary_text_of(*answer).unwrap(),
        text.is_err() ==> text.unwrap_err() == SummaryError::NoText,
{
    match crate::json::extract_summary_text(answer) {
        Some(text) => Ok(text),
        None => Err(SummaryError::NoText),
    }
}

/// The summary in the body of a successful answer of the service.
pub fn summary_from_response(body: &[u8]) -> (text: Result<String, SummaryError>)
    ensures
        parsed_json(body@).is_none() ==> text == Err::<String, SummaryError>(
            SummaryError::Unparsable,
        ),
        parsed_json(body@).is_some() ==> text.is_ok() == summary_text_of(
            parsed_json(body@).unwrap(),
        ).is_some(),
        parsed_json(body@).is_some() && text.is_ok() ==> text.unwrap()@ == summary_text_of(
            parsed_json(body@).unwrap(),
        ).unwrap(),
        parsed_json(body@).is_some() && text.is_err() ==> text.unwrap_err() == SummaryError::NoText,
{
    match parse_json(body) {
        Some(answer) => summary_in(&answer),
        None => Err(SummaryError::Unparsable),
    }
}

} // verus!
