//! How the settings of the service are read from their textual form.
//!
//! The settings arrive as the texts that the process was started with;
//! fetching them is the caller's business.

use crate::text::{chars_of, lower_text, lowered, same_text, trim_text, trimmed};
use vstd::prelude::*;

verus! {

pub const DEFAULT_SAMPLE_RATE: u32 = 16_000;

/// The digit that a character writes.
pub open spec fn digit_of(c: char) -> nat
    recommends
        '0' <= c <= '9',
{
    (c as u32 - '0' as u32) as nat
}

/// Every character is an ASCII digit.
pub open spec fn all_digits(text: Seq<char>) -> bool {
    forall|i: int| 0 <= i < text.len() ==> '0' <= #[trigger] text[i] <= '9'
}

/// The number that a run of digits writes in base ten.
pub open spec fn digits_value(text: Seq<char>) -> nat
    decreases text.len(),
{
    if text.len() == 0 {
        0
    } else {
        digits_value(text.drop_last()) * 10 + digit_of(text.last())
    }
}

/// The number that a run of digits writes, if there is at least one digit,
/// nothing else, and the number is at most `limit`.
pub open spec fn bounded_number(text: Seq<char>, limit: nat) -> Option<nat> {
    if text.len() > 0 && all_digits(text) && digits_value(text) <= limit {
        Some(digits_value(text))
    } else {
        None
    }
}

/// An unsigned 32-bit number in decimal, with an optional plus sign in
/// front.
pub open spec fn parsed_u32(text: Seq<char>) -> Option<u32> {
    let digits = if text.len() > 0 && text[0] == '+' {
        text.skip(1)
    } else {
        text
    };
    match bounded_number(digits, u32::MAX as nat) {
        Some(value) => Some(value as u32),
        None => None,
    }
}

/// A signed 32-bit number in decimal, with an optional sign in front.
pub open spec fn parsed_i32(text: Seq<char>) -> Option<i32> {
    if text.len() > 0 && text[0] == '-' {
        match bounded_number(text.skip(1), 0x8000_0000) {
            Some(value) => Some((-(value as int)) as i32),
            None => None,
        }
    } else {
        let digits = if text.len() > 0 && text[0] == '+' {
            text.skip(1)
        } else {
            text
        };
        match bounded_number(digits, 0x7fff_ffff) {
            Some(value) => Some(value as i32),
            None => None,
        }
    }
}

/// A switch in its textual form: `1`, `true`, `yes` and `on` switch on,
/// `0`, `false`, `no` and `off` switch off, in any mix of ASCII case and
/// with white space around them. Anything else is no switch.
pub open spec fn parsed_bool(raw: Seq<char>) -> Option<bool> {
    let word = lowered(trimmed(raw));
    if word == "1"@ || word == "true"@ || word == "yes"@ || word == "on"@ {
        Some(true)
    } else if word == "0"@ || word == "false"@ || word == "no"@ || word == "off"@ {
        Some(false)
    } else {
        None
    }
}

/// The sample rate to decode at: the setting where it is a positive
/// number, else the default.
pub open spec fn sample_rate_of(raw: Option<Seq<char>>) -> u32 {
    match raw {
        Some(text) => match parsed_u32(text) {
            Some(rate) => if rate > 0 {
                rate
            } else {
                DEFAULT_SAMPLE_RATE
            },
            None => DEFAULT_SAMPLE_RATE,
        },
        None => DEFAULT_SAMPLE_RATE,
    }
}

/// A run of digits grows in value with every digit.
proof fn lemma_digits_grow(text: Seq<char>, upto: int)
    requires
        0 <= upto <= text.len(),
    ensures
        digits_value(text.take(upto)) <= digits_value(text),
    decreases text.len() - upto,
{
    if upto < text.len() {
        lemma_digits_grow(text, upto + 1);
        assert(text.take(upto + 1).drop_last() =~= text.take(upto));
    } else {
        assert(text.take(upto) =~= text);
    }
}

/// Reads a run of digits from `from` to the end of `chars`.
fn read_number(chars: &[char], from: usize, limit: u64) -> (value: Option<u64>)
    requires
        from <= chars@.len(),
        limit <= 0xffff_ffff,
    ensures
        value.is_some() == bounded_number(chars@.skip(from as int), limit as nat).is_some(),
        value.is_some() ==> value.unwrap() == bounded_number(
            chars@.skip(from as int),
            limit as nat,
        ).unwrap(),
{
    let ghost digits = chars@.skip(from as int);
    if from == chars.len() {
        return None;
    }
    let mut value: u64 = 0;
    let mut i: usize = from;
    proof {
        assert(digits.take(0) =~= Seq::<char>::empty());
    }
    while i < chars.len()
        invariant
            from <= i <= chars@.len(),
            digits == chars@.skip(from as int),
            limit <= 0xffff_ffff,
            value <= limit,
            value == digits_value(digits.take(i - from)),
            all_digits(digits.take(i - from)),
        decreases chars@.len() - i,
    {
        let c = chars[i];
        proof {
            assert(digits[i - from] == c);
            assert(digits.take(i - from + 1).drop_last() =~= digits.take(i - from));
            assert(digits.take(i - from + 1).last() == c);
        }
        if c < '0' || c > '9' {
            proof {
                if all_digits(digits) {
                    assert('0' <= digits[i - from] <= '9');
                }
            }
            return None;
        }
        let digit = (c as u32 - '0' as u32) as u64;
        let next = value * 10 + digit;
        if next > limit {
            proof {
                lemma_digits_grow(digits, i - from + 1);
            }
            return None;
        }
        value = next;
        proof {
            let seen = digits.take(i - from + 1);
            assert forall|k: int| 0 <= k < seen.len() implies '0' <= #[trigger] seen[k] <= '9' by {
                if k < i - from {
                    assert(digits.take(i - from)[k] == seen[k]);
                }
            }
        }
        i += 1;
    }
    proof {
        assert(digits.take(i - from) =~= digits);
    }
    Some(value)
}

/// Reads an unsigned 32-bit number in decimal, as `str::parse::<u32>`
/// accepts it.
pub fn parse_u32(text: &str) -> (value: Option<u32>)
    ensures
        value == parsed_u32(text@),
{
    let chars = chars_of(text);
    let from: usize = if chars.len() > 0 && chars[0] == '+' {
        1
    } else {
        0
    };
    proof {
        assert(chars@.skip(0) =~= chars@);
    }
    match read_number(chars.as_slice(), from, 0xffff_ffff) {
        Some(value) => Some(value as u32),
        None => None,
    }
}

/// Reads a signed 32-bit number in decimal, as `str::parse::<i32>` accepts
/// it.
pub fn parse_i32(text: &str) -> (value: Option<i32>)
    ensures
        value == parsed_i32(text@),
{
    let chars = chars_of(text);
    proof {
        assert(chars@.skip(0) =~= chars@);
    }
    if chars.len() > 0 && chars[0] == '-' {
        match read_number(chars.as_slice(), 1, 0x8000_0000) {
            Some(value) => {
                if value == 0x8000_0000 {
                    Some(i32::MIN)
                } else {
                    Some(-(value as i32))
                }
            },
            None => None,
        }
    } else {
        let from: usize = if chars.len() > 0 && chars[0] == '+' {
            1
        } else {
            0
        };
        match read_number(chars.as_slice(), from, 0x7fff_ffff) {
            Some(value) => Some(value as i32),
            None => None,
        }
    }
}

/// Reads a switch; see `parsed_bool`.
pub fn parse_bool(raw: &str) -> (value: Option<bool>)
    ensures
        value == parsed_bool(raw@),
{
    let trimmed = trim_text(raw);
    let word = lower_text(trimmed.as_str());
    if same_text(word.as_str(), "1") || same_text(word.as_str(), "true") || same_text(
        word.as_str(),
        "yes",
    ) || same_text(word.as_str(), "on") {
        Some(true)
    } else if same_text(word.as_str(), "0") || same_text(word.as_str(), "false") || same_text(
        word.as_str(),
        "no",
    ) || same_text(word.as_str(), "off") {
        Some(false)
    } else {
        None
    }
}

/// The sample rate to decode at: the setting where it is a positive
/// number, else 16 kHz.
pub fn sample_rate_setting(raw: Option<&str>) -> (rate: u32)
    ensures
        rate == sample_rate_of(
            match raw {
                Some(text) => Some(text@),
                None => None,
            },
        ),
        rate > 0,
{
    match raw {
        Some(text) => match parse_u32(text) {
            Some(rate) => if rate > 0 {
                rate
            } else {
                DEFAULT_SAMPLE_RATE
            },
            None => DEFAULT_SAMPLE_RATE,
        },
        None => DEFAULT_SAMPLE_RATE,
    }
}

/// The GPU device to use: the setting where it is a number, else device 0.
pub fn gpu_device_setting(raw: Option<&str>) -> (device: i32)
    ensures
        device == (match raw {
            Some(text) => match parsed_i32(text@) {
                Some(device) => device,
                None => 0,
            },
            None => 0,
        }),
{
    match raw {
        Some(text) => match parse_i32(text) {
            Some(device) => device,
            None => 0,
        },
        None => 0,
    }
}

/// A switch setting: what the text says where it is a switch, else the
/// default.
pub fn switch_setting(raw: Option<&str>, default: bool) -> (on: bool)
    ensures
        on == (match raw {
            Some(text) => match parsed_bool(text@) {
                Some(on) => on,
                None => default,
            },
            None => default,
        }),
{
    match raw {
        Some(text) => match parse_bool(text) {
            Some(on) => on,
            None => default,
        },
        None => default,
    }
}

/// Summaries without transcripts need a summarizer: the settings are
/// refused when transcripts are switched off and there is no API key.
pub fn summary_settings_valid(has_api_key: bool, include_transcripts: bool) -> (valid: bool)
    ensures
        valid == (has_api_key || include_transcripts),
{
    has_api_key || include_transcripts
}

/// Whether the transcript is uploaded when a session ends: always without
/// a summarizer, else when transcripts are to accompany summaries.
pub fn should_upload_transcript(has_summarizer: bool, include_transcripts: bool) -> (upload: bool)
    ensures
        upload == (!has_summarizer || include_transcripts),
{
    !has_summarizer || include_transcripts
}

/// The sample rate that the decoder runs at: 8, 12, 16, 24 or 48 kHz as
/// asked for, and 16 kHz for anything else.
pub fn sample_rate_from(value: u32) -> (rate: u32)
    ensures
        rate == (if value == 8_000 || value == 12_000 || value == 16_000 || value == 24_000
            || value == 48_000 {
            value
        } else {
            16_000u32
        }),
{
    if value == 8_000 || value == 12_000 || value == 24_000 || value == 48_000 {
        value
    } else {
        16_000
    }
}

} // verus!
