use caption_engine::links::{
    build_invite_url, invite_permissions, model_download_url, model_file_name, presence_label,
    summary_label, transcript_label,
};
use caption_engine::summaries::{
    truncate_transcript, truncation_fits, try_truncate_transcript, MAX_TRANSCRIPT_BYTES,
};

#[test]
fn model_addresses() {
    assert_eq!(
        model_download_url("base"),
        "https://huggingface.co/ggerganov/whisper.cpp/resolve/main/ggml-base.bin?download=1"
    );
    assert_eq!(model_file_name("small.en"), "ggml-small.en.bin");
}

#[test]
fn invite_address_names_the_bot_and_its_permissions() {
    assert_eq!(invite_permissions(), 36_703_232);
    assert_eq!(
        build_invite_url(123),
        "https://discord.com/api/oauth2/authorize?client_id=123&permissions=36703232&scope=bot%20applications.commands"
    );
}

#[test]
fn labels() {
    assert_eq!(
        transcript_label("01/02/2024", Some("Retro")),
        "01/02/2024 - Retro - Transcription log"
    );
    assert_eq!(transcript_label("01/02/2024", None), "01/02/2024 - Transcription log");
    assert_eq!(presence_label(Some("Ada")), "Listening to: Ada");
    assert_eq!(presence_label(None), "Listening for speakers");
    assert_eq!(summary_label("  Retro "), "Retro");
    assert_eq!(summary_label(" \n"), "Discord session");
}

#[test]
fn short_transcripts_are_sent_whole() {
    assert_eq!(truncate_transcript("hello"), "hello");
    let exact = "x".repeat(MAX_TRANSCRIPT_BYTES);
    assert_eq!(truncate_transcript(&exact), exact);
}

#[test]
fn long_transcripts_are_cut_and_marked() {
    let long = "y".repeat(MAX_TRANSCRIPT_BYTES + 10);
    let cut = truncate_transcript(&long);
    assert_eq!(cut.len(), MAX_TRANSCRIPT_BYTES + "\n\n[Transcript truncated]".len());
    assert!(cut.starts_with(&"y".repeat(MAX_TRANSCRIPT_BYTES)));
    assert!(cut.ends_with("\n\n[Transcript truncated]"));
}

#[test]
fn a_character_across_the_limit_cannot_be_cut() {
    let mut text = "z".repeat(MAX_TRANSCRIPT_BYTES - 1);
    text.push('é');
    text.push_str("tail");
    assert!(!truncation_fits(&text));
    assert_eq!(try_truncate_transcript(&text), None);
    let mut fine = "z".repeat(MAX_TRANSCRIPT_BYTES - 2);
    fine.push('é');
    fine.push_str("tail");
    assert!(truncation_fits(&fine));
    let cut = try_truncate_transcript(&fine).expect("cut at a boundary");
    assert!(cut.ends_with("é\n\n[Transcript truncated]"));
}
