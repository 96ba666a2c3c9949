use caption_engine::captions::{build_file_name, clean_title, slugify_title, SpeakerInfo};

#[test]
fn titles_become_slugs() {
    assert_eq!(slugify_title("Weekly Sync"), Some("weekly-sync".to_string()));
    assert_eq!(slugify_title("  Hello,  World!  "), Some("hello--world".to_string()));
    assert_eq!(slugify_title("a_b-c"), Some("a-b-c".to_string()));
    assert_eq!(slugify_title("a--b__c"), Some("a-b-c".to_string()));
    assert_eq!(slugify_title("-_-lead"), Some("lead".to_string()));
    assert_eq!(slugify_title("trail-_-"), Some("trail".to_string()));
    assert_eq!(slugify_title("Ünïcödé 42"), Some("ncd-42".to_string()));
    assert_eq!(slugify_title("tab\there"), Some("tab-here".to_string()));
    assert_eq!(slugify_title(""), None);
    assert_eq!(slugify_title("---"), None);
    assert_eq!(slugify_title("   "), None);
    assert_eq!(slugify_title("!!!"), None);
}

#[test]
fn slugs_stop_at_their_limit() {
    let long = "a".repeat(100);
    assert_eq!(slugify_title(&long), Some("a".repeat(48)));
    let dashed = format!("{}   tail", "b".repeat(47));
    assert_eq!(slugify_title(&dashed), Some("b".repeat(47)));
}

#[test]
fn titles_are_trimmed_or_dropped() {
    assert_eq!(clean_title(None), None);
    assert_eq!(clean_title(Some("   ".to_string())), None);
    assert_eq!(clean_title(Some(String::new())), None);
    assert_eq!(clean_title(Some("  Retro \n".to_string())), Some("Retro".to_string()));
    assert_eq!(clean_title(Some("a b".to_string())), Some("a b".to_string()));
}

#[test]
fn file_names_carry_guild_channel_and_time() {
    assert_eq!(
        build_file_name(12, 345, "20240102", 3, 4, 5, None),
        "12_345_20240102_030405.json"
    );
    assert_eq!(
        build_file_name(12, 345, "20240102", 23, 59, 0, Some("weekly-sync")),
        "12_345_20240102_235900_weekly-sync.json"
    );
}

#[test]
fn legacy_speakers_get_the_fallback_name() {
    let speaker = SpeakerInfo::legacy(77);
    assert_eq!(speaker.id, Some(77));
    assert_eq!(speaker.name, "User 77");
}
