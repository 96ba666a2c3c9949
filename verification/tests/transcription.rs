use caption_engine::events::TranscriptionJob;
use caption_engine::transcription::{assemble_transcript, caption_for};

fn segments(parts: &[&str]) -> Vec<String> {
    parts.iter().map(|part| part.to_string()).collect()
}

fn job(speaker_id: Option<u64>, name: &str, started_at: i64) -> TranscriptionJob {
    TranscriptionJob {
        channel_id: 1,
        guild_id: 2,
        speaker_id,
        speaker_name: name.to_string(),
        pcm: vec![1, 2, 3],
        sample_rate: 16_000,
        started_at,
    }
}

#[test]
fn segments_are_trimmed_and_joined_by_spaces() {
    assert_eq!(
        assemble_transcript(&segments(&[" hello ", "", "  ", "world\n"])),
        Some("hello world".to_string())
    );
    assert_eq!(assemble_transcript(&segments(&["one"])), Some("one".to_string()));
}

#[test]
fn nothing_said_gives_no_line() {
    assert_eq!(assemble_transcript(&segments(&[])), None);
    assert_eq!(assemble_transcript(&segments(&["", "   "])), None);
    assert_eq!(assemble_transcript(&segments(&["[BLANK_AUDIO]"])), None);
    assert_eq!(assemble_transcript(&segments(&[" [blank_audio] "])), None);
    assert_eq!(assemble_transcript(&segments(&["[Blank_Audio]", " "])), None);
    assert_eq!(
        assemble_transcript(&segments(&["[BLANK_AUDIO]", "hm"])),
        Some("[BLANK_AUDIO] hm".to_string())
    );
}

#[test]
fn caption_carries_speaker_line_and_time() {
    let entry = caption_for(&job(Some(42), "Ada", 1_431_648_000), &segments(&[" hi ", "there"]))
        .expect("a caption");
    assert_eq!(entry.speaker.id, Some(42));
    assert_eq!(entry.speaker.name, "Ada");
    assert_eq!(entry.comment, "hi there");
    assert_eq!(entry.timestamp, "2015-05-15T00:00:00");

    let placeholder = caption_for(&job(None, "Speaker 7", 86_399), &segments(&["x"]))
        .expect("a caption");
    assert_eq!(placeholder.speaker.id, None);
    assert_eq!(placeholder.speaker.name, "Speaker 7");
    assert_eq!(placeholder.timestamp, "1970-01-01T23:59:59");
}

#[test]
fn no_caption_for_a_job_without_samples() {
    let mut empty = job(Some(1), "a", 0);
    empty.pcm.clear();
    assert!(caption_for(&empty, &segments(&["hello"])).is_none());
    assert!(caption_for(&job(Some(1), "a", 0), &segments(&["hello"])).is_some());
}

#[test]
fn no_caption_without_a_line_or_a_time() {
    assert!(caption_for(&job(Some(1), "a", 0), &segments(&["  "])).is_none());
    assert!(caption_for(&job(Some(1), "a", i64::MAX), &segments(&["hi"])).is_none());
}
