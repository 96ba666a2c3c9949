use caption_engine::identity::{display_name, fallback_user_name, placeholder_for};
use caption_engine::text::{decimal_string, push_decimal, push_two_digits};

#[test]
fn numerals_have_no_leading_zeros() {
    assert_eq!(decimal_string(0), "0");
    assert_eq!(decimal_string(7), "7");
    assert_eq!(decimal_string(10), "10");
    assert_eq!(decimal_string(1_234_567_890), "1234567890");
    assert_eq!(decimal_string(u64::MAX), "18446744073709551615");
}

#[test]
fn numerals_are_appended() {
    let mut text = "n=".to_string();
    push_decimal(&mut text, 42);
    push_two_digits(&mut text, 5);
    push_two_digits(&mut text, 123);
    assert_eq!(text, "n=4205123");
}

#[test]
fn placeholder_labels_depend_on_the_stream_alone() {
    assert_eq!(placeholder_for(7), "Speaker 7");
    assert_eq!(placeholder_for(0), "Speaker 0");
    assert_eq!(placeholder_for(u32::MAX), "Speaker 4294967295");
    assert_eq!(placeholder_for(7), placeholder_for(7));
}

#[test]
fn names_fall_back_to_the_user_id() {
    assert_eq!(fallback_user_name(42), "User 42");
    assert_eq!(display_name(None, 9), "User 9");
    assert_eq!(display_name(Some("Ada".to_string()), 9), "Ada");
}
