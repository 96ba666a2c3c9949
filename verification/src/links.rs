//! The addresses and labels that the service shows or fetches from.

use crate::text::{decimal_digits, push_decimal, trim_text, trimmed};
use vstd::prelude::*;
use vstd::string::StringExecFns;

verus! {

/// The permissions the bot asks for when it is invited: to view channels,
/// to send messages, to connect, to speak, and to use voice activity.
pub const INVITE_PERMISSIONS: u64 = 0x0000_0400 | 0x0000_0800 | 0x0010_0000 | 0x0020_0000
    | 0x0200_0000;

/// Where the model of the given name is downloaded from.
pub open spec fn model_url_text(model_name: Seq<char>) -> Seq<char> {
    "https://huggingface.co/ggerganov/whisper.cpp/resolve/main"@ + "/ggml-"@ + model_name
        + ".bin?download=1"@
}

/// The file that holds the model of the given name.
pub open spec fn model_file_text(model_name: Seq<char>) -> Seq<char> {
    "ggml-"@ + model_name + ".bin"@
}

/// The address that invites the bot with the given id.
pub open spec fn invite_url_text(bot_id: u64) -> Seq<char> {
    "https://discord.com/api/oauth2/authorize?client_id="@ + decimal_digits(bot_id as nat)
        + "&permissions="@ + decimal_digits(INVITE_PERMISSIONS as nat)
        + "&scope=bot%20applications.commands"@
}

/// The label of a transcript: the date, the title if there is one, and
/// what it is.
pub open spec fn transcript_label_text(date_label: Seq<char>, title: Option<Seq<char>>) -> Seq<
    char,
> {
    match title {
        Some(title) => date_label + " - "@ + title + " - Transcription log"@,
        None => date_label + " - Transcription log"@,
    }
}

/// What the presence shows: who is listened to, or that nobody speaks.
pub open spec fn presence_text(speaker_name: Option<Seq<char>>) -> Seq<char> {
    match speaker_name {
        Some(name) => "Listening to: "@ + name,
        None => "Listening for speakers"@,
    }
}

/// The label under which a session is summarized: the one given, without
/// white space around it, or a general one when nothing is left.
pub open spec fn summary_label_text(session_label: Seq<char>) -> Seq<char> {
    if trimmed(session_label).len() == 0 {
        "Discord session"@
    } else {
        trimmed(session_label)
    }
}

/// The permissions the bot asks for when it is invited.
pub fn invite_permissions() -> (bits: u64)
    ensures
        bits == INVITE_PERMISSIONS,
{
    INVITE_PERMISSIONS
}

/// Where the model of the given name is downloaded from.
pub fn model_download_url(model_name: &str) -> (url: String)
    ensures
        url@ == model_url_text(model_name@),
{
    let mut url = String::from_str("https://huggingface.co/ggerganov/whisper.cpp/resolve/main");
    url.append("/ggml-");
    url.append(model_name);
    url.append(".bin?download=1");
    url
}

/// The file that holds the model of the given name.
pub fn model_file_name(model_name: &str) -> (name: String)
    ensures
        name@ == model_file_text(model_name@),
{
    let mut name = String::from_str("ggml-");
    name.append(model_name);
    name.append(".bin");
    name
}

/// The address that invites the bot with the given id.
pub fn build_invite_url(bot_id: u64) -> (url: String)
    ensures
        url@ == invite_url_text(bot_id),
{
    let mut url = String::from_str("https://discord.com/api/oauth2/authorize?client_id=");
    push_decimal(&mut url, bot_id);
    url.append("&permissions=");
    push_decimal(&mut url, invite_permissions());
    url.append("&scope=bot%20applications.commands");
    url
}

/// The label of a transcript.
pub fn transcript_label(date_label: &str, title: Option<&str>) -> (label: String)
    ensures
        label@ == transcript_label_text(
            date_label@,
            match title {
                Some(title) => Some(title@),
                None => None,
            },
        ),
{
    let mut label = String::from_str(date_label);
    match title {
        Some(title) => {
            label.append(" - ");
            label.append(title);
            label.append(" - Transcription log");
        },
        None => {
            label.append(" - Transcription log");
        },
    }
    label
}

/// What the presence shows.
pub fn presence_label(speaker_name: Option<&str>) -> (label: String)
    ensures
        label@ == presence_text(
            match speaker_name {
                Some(name) => Some(name@),
                None => None,
            },
        ),
{
    match speaker_name {
        Some(name) => {
            let mut label = String::from_str("Listening to: ");
            label.append(name);
            label
        },
        None => String::from_str("Listening for speakers"),
    }
}

/// The label under which a session is summarized.
pub fn summary_label(session_label: &str) -> (label: String)
    ensures
        label@ == summary_label_text(session_label@),
{
    let trimmed = trim_text(session_label);
    if trimmed.as_str().is_empty() {
        String::from_str("Discord session")
    } else {
        trimmed
    }
}

} // verus!
