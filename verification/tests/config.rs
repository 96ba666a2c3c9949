use caption_engine::config::{
    gpu_device_setting, parse_bool, parse_i32, parse_u32, sample_rate_from,
    sample_rate_setting, should_upload_transcript, summary_settings_valid, switch_setting,
};

#[test]
fn switches_are_read_in_any_case_and_with_space_around() {
    for on in ["1", "true", "TRUE", " yes ", "On", "\ton\n"] {
        assert_eq!(parse_bool(on), Some(true), "{:?}", on);
    }
    for off in ["0", "false", "False", " no", "OFF ", "\u{a0}off\u{2003}"] {
        assert_eq!(parse_bool(off), Some(false), "{:?}", off);
    }
    for other in ["", " ", "2", "y", "tru e", "yes!", "onn"] {
        assert_eq!(parse_bool(other), None, "{:?}", other);
    }
}

#[test]
fn switch_settings_fall_back_to_the_default() {
    assert!(switch_setting(None, true));
    assert!(!switch_setting(None, false));
    assert!(switch_setting(Some("maybe"), true));
    assert!(!switch_setting(Some("off"), true));
    assert!(switch_setting(Some("on"), false));
}

#[test]
fn unsigned_numbers_are_read_as_the_standard_parser_reads_them() {
    for text in [
        "0", "7", "007", "+5", "16000", "4294967295", "4294967296", "", "+", "-", "-1", "1 ",
        " 1", "1_000", "12a", "99999999999999999999", "++1", "٣",
    ] {
        assert_eq!(parse_u32(text), text.parse::<u32>().ok(), "{:?}", text);
    }
    assert_eq!(parse_u32("4294967295"), Some(u32::MAX));
    assert_eq!(parse_u32("4294967296"), None);
}

#[test]
fn signed_numbers_are_read_as_the_standard_parser_reads_them() {
    for text in [
        "0", "-0", "+0", "7", "-7", "+7", "2147483647", "2147483648", "-2147483648",
        "-2147483649", "", "+", "-", "--1", "-+1", "1-", "- 1", "3.0",
    ] {
        assert_eq!(parse_i32(text), text.parse::<i32>().ok(), "{:?}", text);
    }
    assert_eq!(parse_i32("-2147483648"), Some(i32::MIN));
}

#[test]
fn sample_rate_defaults_to_sixteen_kilohertz() {
    assert_eq!(sample_rate_setting(None), 16_000);
    assert_eq!(sample_rate_setting(Some("0")), 16_000);
    assert_eq!(sample_rate_setting(Some("fast")), 16_000);
    assert_eq!(sample_rate_setting(Some("48000")), 48_000);
    assert_eq!(sample_rate_setting(Some("44100")), 44_100);
}

#[test]
fn decoder_rates_are_the_supported_ones() {
    for rate in [8_000u32, 12_000, 16_000, 24_000, 48_000] {
        assert_eq!(sample_rate_from(rate), rate);
    }
    assert_eq!(sample_rate_from(44_100), 16_000);
    assert_eq!(sample_rate_from(0), 16_000);
}

#[test]
fn gpu_device_defaults_to_zero() {
    assert_eq!(gpu_device_setting(None), 0);
    assert_eq!(gpu_device_setting(Some("x")), 0);
    assert_eq!(gpu_device_setting(Some("2")), 2);
    assert_eq!(gpu_device_setting(Some("-1")), -1);
}

#[test]
fn summaries_without_transcripts_need_a_key() {
    assert!(summary_settings_valid(true, true));
    assert!(summary_settings_valid(true, false));
    assert!(summary_settings_valid(false, true));
    assert!(!summary_settings_valid(false, false));
    assert!(should_upload_transcript(false, false));
    assert!(should_upload_transcript(false, true));
    assert!(should_upload_transcript(true, true));
    assert!(!should_upload_transcript(true, false));
}
