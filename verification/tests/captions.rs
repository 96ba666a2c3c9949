use caption_engine::captions::{
    format_duration, CaptionEntry, SessionDocument, SessionMetadata, SpeakerInfo,
};

fn entry(id: Option<u64>, name: &str, comment: &str) -> CaptionEntry {
    CaptionEntry {
        speaker: SpeakerInfo { id, name: name.to_string() },
        comment: comment.to_string(),
        timestamp: "2024-01-01T00:00:00".to_string(),
    }
}

fn speakers(document: &SessionDocument) -> Vec<(Option<u64>, String)> {
    document
        .transcriptions
        .iter()
        .map(|entry| (entry.speaker.id, entry.speaker.name.clone()))
        .collect()
}

#[test]
fn relabel_changes_once_and_then_reports_no_change() {
    let mut document = SessionDocument::new(SessionMetadata::new(None, "start".to_string()));
    document.append(entry(None, "Speaker 7", "hello"));
    document.append(entry(Some(3), "Speaker 7", "resolved before"));
    document.append(entry(None, "Speaker 8", "someone else"));
    document.append(entry(None, "Speaker 7", "again"));

    assert!(document.relabel_placeholder("Speaker 7", 42, "Ada"));
    let after = speakers(&document);
    assert_eq!(
        after,
        vec![
            (Some(42), "Ada".to_string()),
            (Some(3), "Speaker 7".to_string()),
            (None, "Speaker 8".to_string()),
            (Some(42), "Ada".to_string()),
        ]
    );
    assert_eq!(document.transcriptions[0].comment, "hello");
    assert_eq!(document.transcriptions[3].comment, "again");

    assert!(!document.relabel_placeholder("Speaker 7", 42, "Ada"));
    assert_eq!(speakers(&document), after);
}

#[test]
fn relabel_of_an_empty_document_reports_no_change() {
    let mut document = SessionDocument::new(SessionMetadata::new(None, "start".to_string()));
    assert!(!document.relabel_placeholder("Speaker 1", 1, "x"));
    assert!(document.transcriptions.is_empty());
}

#[test]
fn relabel_to_the_same_name_still_settles() {
    let mut document = SessionDocument::new(SessionMetadata::new(None, "start".to_string()));
    document.append(entry(None, "Speaker 7", "hello"));
    assert!(document.relabel_placeholder("Speaker 7", 42, "Speaker 7"));
    assert!(!document.relabel_placeholder("Speaker 7", 42, "Speaker 7"));
    assert_eq!(speakers(&document), vec![(Some(42), "Speaker 7".to_string())]);
}

#[test]
fn durations_are_written_with_two_digits() {
    assert_eq!(format_duration(0), "00:00:00");
    assert_eq!(format_duration(59), "00:00:59");
    assert_eq!(format_duration(3661), "01:01:01");
    assert_eq!(format_duration(36_000), "10:00:00");
    assert_eq!(format_duration(360_000 + 754), "100:12:34");
}

#[test]
fn finishing_fills_in_the_end_of_the_session() {
    let mut metadata = SessionMetadata::new(Some("Standup".to_string()), "start".to_string());
    assert_eq!(metadata.ended_at, None);
    assert_eq!(metadata.duration_seconds, None);
    metadata.finish("end".to_string(), 125);
    assert_eq!(metadata.title, Some("Standup".to_string()));
    assert_eq!(metadata.started_at, "start");
    assert_eq!(metadata.ended_at, Some("end".to_string()));
    assert_eq!(metadata.duration_seconds, Some(125));
    assert_eq!(metadata.duration_formatted, Some("00:02:05".to_string()));
}
