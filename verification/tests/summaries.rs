use caption_engine::json::{extract_summary_text, first_text, Json};
use caption_engine::summaries::{
    flatten_transcript, flatten_value, summary_from_response, SummaryError, TranscriptError,
};

fn text(value: &str) -> Json {
    Json::Text(value.to_string())
}

fn object(members: Vec<(&str, Json)>) -> Json {
    Json::Object(members.into_iter().map(|(key, value)| (key.to_string(), value)).collect())
}

#[test]
fn members_are_found_by_name() {
    let value = object(vec![("a", text("x")), ("b", Json::Bool(true)), ("a", text("y"))]);
    assert!(matches!(value.get("a"), Some(Json::Text(found)) if found == "x"));
    assert!(matches!(value.get("b"), Some(Json::Bool(true))));
    assert!(value.get("c").is_none());
    assert!(Json::Array(vec![]).get("a").is_none());
    assert_eq!(value.get_str("a"), Some("x"));
    assert_eq!(value.get_str("b"), None);
    assert_eq!(text("t").as_str(), Some("t"));
    assert_eq!(Json::Null.as_str(), None);
}

#[test]
fn first_text_prefers_own_text_then_content_then_members() {
    let own = object(vec![("content", text("ignored")), ("text", text("  mine  "))]);
    assert_eq!(first_text(&own), Some("mine".to_string()));

    let blank_own = object(vec![
        ("text", text("   ")),
        ("content", Json::Array(vec![object(vec![("text", text("inner"))])])),
    ]);
    assert_eq!(first_text(&blank_own), Some("inner".to_string()));

    let members = object(vec![
        ("a", Json::Number),
        ("b", object(vec![("text", text("deep"))])),
        ("c", object(vec![("text", text("later"))])),
    ]);
    assert_eq!(first_text(&members), Some("deep".to_string()));

    // A bare string holds no text of its own.
    assert_eq!(first_text(&text("bare")), None);
    assert_eq!(first_text(&Json::Array(vec![text("bare"), Json::Null])), None);
    assert_eq!(first_text(&object(vec![("text", Json::Number)])), None);
    assert_eq!(first_text(&Json::Array(vec![])), None);
}

#[test]
fn summary_is_taken_from_output_before_content() {
    let answer = object(vec![
        ("content", Json::Array(vec![object(vec![("text", text("from content"))])])),
        (
            "output",
            Json::Array(vec![object(vec![(
                "content",
                Json::Array(vec![object(vec![("text", text(" from output "))])]),
            )])]),
        ),
    ]);
    assert_eq!(extract_summary_text(&answer), Some("from output".to_string()));
    let fallback = object(vec![
        ("output", Json::Array(vec![])),
        ("content", object(vec![("text", text("from content"))])),
    ]);
    assert_eq!(extract_summary_text(&fallback), Some("from content".to_string()));
    assert_eq!(extract_summary_text(&object(vec![("text", text("top"))])), None);
    assert_eq!(extract_summary_text(&Json::Null), None);
}

#[test]
fn answers_are_parsed_and_searched() {
    let body = br#"{"id":"r1","output":[{"type":"message","content":[{"type":"output_text","text":"- did things\n"}]}]}"#;
    assert_eq!(summary_from_response(body), Ok("- did things".to_string()));
    assert_eq!(summary_from_response(b"{\"output\": []}"), Err(SummaryError::NoText));
    assert_eq!(summary_from_response(b"not json"), Err(SummaryError::Unparsable));
    assert_eq!(SummaryError::NoText.message(), "OpenAI summary response did not include text");
    assert_eq!(SummaryError::Unparsable.message(), "parsing OpenAI summary response");
}

#[test]
fn transcripts_are_flattened_line_by_line() {
    let document = br#"{
        "metadata": {
            "title": "  Weekly sync ",
            "started_at": "2024-01-02T03:04:05Z",
            "ended_at": "2024-01-02T04:04:05Z",
            "duration_seconds": 3600,
            "duration_formatted": "01:00:00"
        },
        "transcriptions": [
            {"speaker": {"id": 42, "name": "Ada"}, "comment": " hello ", "timestamp": "2024-01-02T03:05:00"},
            {"speaker": {"name": "Speaker 7"}, "comment": "   ", "timestamp": "t"},
            {"speaker": 7, "comment": "no name"},
            {"comment": "nobody", "timestamp": 5}
        ]
    }"#;
    assert_eq!(
        flatten_transcript(document),
        Ok(concat_lines(&[
            "Session Title: Weekly sync",
            "Started At: 2024-01-02T03:04:05Z",
            "Ended At: 2024-01-02T04:04:05Z",
            "Duration: 01:00:00",
            "",
            "Transcript:",
            "[2024-01-02T03:05:00] Ada: hello",
            "[unknown time] Unknown Speaker: no name",
            "[unknown time] Unknown Speaker: nobody",
        ]))
    );
}

fn concat_lines(lines: &[&str]) -> String {
    let mut out = String::new();
    for line in lines {
        out.push_str(line);
        out.push('\n');
    }
    out
}

#[test]
fn a_document_without_metadata_has_no_header() {
    let document = br#"{"transcriptions": [{"comment": "x", "timestamp": "t", "speaker": {"name": "n"}}]}"#;
    assert_eq!(flatten_transcript(document), Ok("Transcript:\n[t] n: x\n".to_string()));
    let odd = br#"{"metadata": "none", "transcriptions": [{"comment": "x"}]}"#;
    assert_eq!(
        flatten_transcript(odd),
        Ok("Transcript:\n[unknown time] Unknown Speaker: x\n".to_string())
    );
    let empty_header = br#"{"metadata": {"title": " "}, "transcriptions": [{"comment": "x"}]}"#;
    assert_eq!(
        flatten_transcript(empty_header),
        Ok("\nTranscript:\n[unknown time] Unknown Speaker: x\n".to_string())
    );
}

#[test]
fn transcripts_without_captions_are_refused() {
    assert_eq!(flatten_transcript(b"{}"), Err(TranscriptError::NoEntries));
    assert_eq!(
        flatten_transcript(br#"{"transcriptions": [{"comment": " "}]}"#),
        Err(TranscriptError::NoEntries)
    );
    assert_eq!(
        flatten_transcript(br#"{"transcriptions": {"comment": "x"}}"#),
        Err(TranscriptError::NoEntries)
    );
    assert_eq!(flatten_transcript(b"[1, 2"), Err(TranscriptError::Malformed));
    assert_eq!(flatten_transcript(b""), Err(TranscriptError::Malformed));
    assert_eq!(TranscriptError::Malformed.message(), "parsing caption JSON");
    assert_eq!(
        TranscriptError::NoEntries.message(),
        "transcript JSON did not contain any caption entries"
    );
    assert_eq!(flatten_value(&Json::Null), Err(TranscriptError::NoEntries));
}
