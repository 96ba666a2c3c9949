//! The caption entries of a session and their correction once a
//! placeholder speaker turns out to be a known user.

use crate::identity::{fallback_name_text, fallback_user_name};
use crate::text::{
    decimal_digits, is_ascii_alnum, is_ascii_space, lower_ascii, push_decimal, push_two_digits,
    strip_bounds, stripped, text_between, to_lower_ascii, trim_text, trimmed, two_digits, CharClass,
};
use vstd::prelude::*;
use vstd::string::StringExecFns;

verus! {

/// Who spoke a caption: a user id where it is known, and a name.
#[derive(Clone, Debug)]
pub struct SpeakerInfo {
    pub id: Option<u64>,
    pub name: String,
}

/// One transcribed line.
#[derive(Clone, Debug)]
pub struct CaptionEntry {
    pub speaker: SpeakerInfo,
    pub comment: String,
    pub timestamp: String,
}

/// What a session document says about the session itself.
#[derive(Clone, Debug)]
pub struct SessionMetadata {
    pub title: Option<String>,
    pub started_at: String,
    pub ended_at: Option<String>,
    pub duration_seconds: Option<u64>,
    pub duration_formatted: Option<String>,
}

/// The persisted record of one session.
#[derive(Clone, Debug)]
pub struct SessionDocument {
    pub metadata: SessionMetadata,
    pub transcriptions: Vec<CaptionEntry>,
}

/// A caption entry as a mathematical value.
pub struct EntryView {
    pub speaker_id: Option<u64>,
    pub speaker_name: Seq<char>,
    pub comment: Seq<char>,
    pub timestamp: Seq<char>,
}

impl View for CaptionEntry {
    type V = EntryView;

    open spec fn view(&self) -> EntryView {
        EntryView {
            speaker_id: self.speaker.id,
            speaker_name: self.speaker.name@,
            comment: self.comment@,
            timestamp: self.timestamp@,
        }
    }
}

/// The contents of a list of entries.
pub open spec fn entry_views(entries: Seq<CaptionEntry>) -> Seq<EntryView> {
    entries.map_values(|entry: CaptionEntry| entry@)
}

/// An entry may be corrected when it has no user id and carries the
/// placeholder as its name.
pub open spec fn eligible(entry: EntryView, placeholder: Seq<char>) -> bool {
    entry.speaker_id.is_none() && entry.speaker_name == placeholder
}

/// The entry after the correction: an eligible one gets the id and the
/// name, any other stays as it is.
pub open spec fn relabelled_entry(
    entry: EntryView,
    placeholder: Seq<char>,
    new_id: u64,
    new_name: Seq<char>,
) -> EntryView {
    if eligible(entry, placeholder) {
        EntryView {
            speaker_id: Some(new_id),
            speaker_name: new_name,
            comment: entry.comment,
            timestamp: entry.timestamp,
        }
    } else {
        entry
    }
}

/// The entries after the correction, each in its place.
pub open spec fn relabelled(
    entries: Seq<EntryView>,
    placeholder: Seq<char>,
    new_id: u64,
    new_name: Seq<char>,
) -> Seq<EntryView> {
    entries.map_values(|entry: EntryView| relabelled_entry(entry, placeholder, new_id, new_name))
}

/// Some entry is eligible for the correction.
pub open spec fn needs_relabel(entries: Seq<EntryView>, placeholder: Seq<char>) -> bool {
    exists|i: int| 0 <= i < entries.len() && eligible(#[trigger] entries[i], placeholder)
}

/// A duration in whole seconds as hours, minutes and seconds, each with at
/// least two digits, with colons between them.
pub open spec fn duration_text(total_secs: u64) -> Seq<char> {
    two_digits((total_secs / 3600) as nat) + seq![':'] + two_digits(
        ((total_secs % 3600) / 60) as nat,
    ) + seq![':'] + two_digits((total_secs % 60) as nat)
}

impl SessionMetadata {
    /// The metadata of a session that has started and not ended.
    pub fn new(title: Option<String>, started_at: String) -> (metadata: Self)
        ensures
            metadata.title == title,
            metadata.started_at == started_at,
            metadata.ended_at.is_none(),
            metadata.duration_seconds.is_none(),
            metadata.duration_formatted.is_none(),
    {
        SessionMetadata {
            title,
            started_at,
            ended_at: None,
            duration_seconds: None,
            duration_formatted: None,
        }
    }

    /// Closes the session: the end time and the duration are filled in.
    pub fn finish(&mut self, ended_at: String, duration_secs: u64)
        ensures
            final(self).title == old(self).title,
            final(self).started_at == old(self).started_at,
            final(self).ended_at == Some(ended_at),
            final(self).duration_seconds == Some(duration_secs),
            final(self).duration_formatted.is_some(),
            final(self).duration_formatted.unwrap()@ == duration_text(duration_secs),
    {
        self.ended_at = Some(ended_at);
        self.duration_seconds = Some(duration_secs);
        self.duration_formatted = Some(format_duration(duration_secs));
    }
}

impl SessionDocument {
    /// A document without entries.
    pub fn new(metadata: SessionMetadata) -> (document: Self)
        ensures
            document.metadata == metadata,
            document.transcriptions@.len() == 0,
    {
        SessionDocument { metadata, transcriptions: Vec::new() }
    }

    /// Adds an entry at the end.
    pub fn append(&mut self, entry: CaptionEntry)
        ensures
            final(self).metadata == old(self).metadata,
            final(self).transcriptions@ == old(self).transcriptions@.push(entry),
    {
        self.transcriptions.push(entry);
    }

    /// Rewrites every entry whose speaker has no id and is named
    /// `placeholder` to the user `new_id` under `new_name`. Entries that
    /// already have an id are left alone. Tells whether anything changed.
    pub fn relabel_placeholder(&mut self, placeholder: &str, new_id: u64, new_name: &str) -> (updated:
        bool)
        ensures
            final(self).metadata == old(self).metadata,
            entry_views(final(self).transcriptions@) == relabelled(
                entry_views(old(self).transcriptions@),
                placeholder@,
                new_id,
                new_name@,
            ),
            updated == needs_relabel(entry_views(old(self).transcriptions@), placeholder@),
    {
        let wanted = String::from_str(placeholder);
        let mut entries: Vec<CaptionEntry> = Vec::new();
        std::mem::swap(&mut self.transcriptions, &mut entries);
        let ghost before = entry_views(entries@);
        let ghost owned = entries@;
        let mut updated = false;
        proof {
            assert(entry_views(self.transcriptions@) =~= relabelled(
                before.take(0),
                placeholder@,
                new_id,
                new_name@,
            ));
        }
        for entry in it: entries
            invariant
                it.seq() == owned,
                before == entry_views(owned),
                wanted@ == placeholder@,
                self.metadata == old(self).metadata,
                entry_views(self.transcriptions@) == relabelled(
                    before.take(it.index()),
                    placeholder@,
                    new_id,
                    new_name@,
                ),
                updated == needs_relabel(before.take(it.index()), placeholder@),
        {
            let ghost done = it.index();
            let ghost seen = before.take(done);
            let ghost grown = before.take(done + 1);
            let ghost kept = self.transcriptions@;
            let ghost given = entry@;
            proof {
                assert(before[done] == entry@);
                assert(grown =~= seen.push(entry@));
            }
            let matches = entry.speaker.id.is_none() && entry.speaker.name == wanted;
            let CaptionEntry { speaker, comment, timestamp } = entry;
            if matches {
                self.transcriptions.push(
                    CaptionEntry {
                        speaker: SpeakerInfo { id: Some(new_id), name: String::from_str(new_name) },
                        comment,
                        timestamp,
                    },
                );
                updated = true;
                proof {
                    assert(eligible(grown[done], placeholder@));
                }
            } else {
                self.transcriptions.push(CaptionEntry { speaker, comment, timestamp });
                proof {
                    if needs_relabel(grown, placeholder@) {
                        let k = choose|k: int|
                            0 <= k < grown.len() && eligible(#[trigger] grown[k], placeholder@);
                        assert(seen[k] == grown[k]);
                    }
                }
            }
            proof {
                if needs_relabel(seen, placeholder@) {
                    let k = choose|k: int|
                        0 <= k < seen.len() && eligible(#[trigger] seen[k], placeholder@);
                    assert(grown[k] == seen[k]);
                }
                let added = self.transcriptions@.last();
                assert(matches == eligible(given, placeholder@));
                assert(added@ == relabelled_entry(given, placeholder@, new_id, new_name@));
                assert(self.transcriptions@ =~= kept.push(added));
                assert(entry_views(kept.push(added)) =~= entry_views(kept).push(added@));
                assert(relabelled(grown, placeholder@, new_id, new_name@) =~= relabelled(
                    seen,
                    placeholder@,
                    new_id,
                    new_name@,
                ).push(relabelled_entry(given, placeholder@, new_id, new_name@)));
                assert(entry_views(self.transcriptions@) =~= relabelled(
                    grown,
                    placeholder@,
                    new_id,
                    new_name@,
                ));
            }
        }
        proof {
            assert(before.take(before.len() as int) =~= before);
        }
        updated
    }
}

/// Writes a duration of whole seconds as `HH:MM:SS`; the hours take more
/// digits when they need them.
pub fn format_duration(total_secs: u64) -> (text: String)
    ensures
        text@ == duration_text(total_secs),
{
    let hours = total_secs / 3600;
    let minutes = (total_secs % 3600) / 60;
    let seconds = total_secs % 60;
    let mut text = String::new();
    proof {
        reveal_strlit(":");
    }
    push_two_digits(&mut text, hours);
    text.append(":");
    push_two_digits(&mut text, minutes);
    text.append(":");
    push_two_digits(&mut text, seconds);
    assert(text@ =~= duration_text(total_secs));
    text
}


impl SpeakerInfo {
    /// The speaker of an entry that was stored with a bare user id: the id,
    /// under the fallback name.
    pub fn legacy(user_id: u64) -> (speaker: Self)
        ensures
            speaker.id == Some(user_id),
            speaker.name@ == fallback_name_text(user_id),
    {
        SpeakerInfo { id: Some(user_id), name: fallback_user_name(user_id) }
    }
}

/// The title of a session as it is kept: without white space around it,
/// and none at all when nothing is left.
pub open spec fn kept_title(title: Option<Seq<char>>) -> Option<Seq<char>> {
    match title {
        Some(text) => if trimmed(text).len() == 0 {
            None
        } else {
            Some(trimmed(text))
        },
        None => None,
    }
}

/// The longest a slug grows before the rest of the title is ignored.
pub const SLUG_LIMIT: usize = 48;

/// The slug of a title before the hyphens at its ends are taken off.
///
/// Letters and digits of ASCII are kept, in lower case. ASCII white space
/// becomes a hyphen. A hyphen or an underscore becomes a hyphen unless the
/// slug is empty or already ends with one. Everything else is dropped, and
/// so is whatever follows once the slug has reached its limit.
pub open spec fn raw_slug(title: Seq<char>) -> Seq<char>
    decreases title.len(),
{
    if title.len() == 0 {
        Seq::empty()
    } else {
        let before = raw_slug(title.drop_last());
        let c = title.last();
        if before.len() >= SLUG_LIMIT {
            before
        } else if is_ascii_alnum(c) {
            before.push(lower_ascii(c))
        } else if is_ascii_space(c) || ((c == '-' || c == '_') && before.len() > 0 && before.last()
            != '-') {
            before.push('-')
        } else {
            before
        }
    }
}

/// The slug of a title: the raw slug without the hyphens at its ends.
pub open spec fn slug_text(title: Seq<char>) -> Seq<char> {
    stripped(raw_slug(title), CharClass::Dash)
}

/// The name of a session file: guild, channel, date and time of day,
/// joined by underscores, then the slug if there is one, then `.json`.
pub open spec fn file_name_text(
    guild_id: u64,
    channel_id: u64,
    date: Seq<char>,
    hour: u32,
    minute: u32,
    second: u32,
    slug: Option<Seq<char>>,
) -> Seq<char> {
    let base = decimal_digits(guild_id as nat) + seq!['_'] + decimal_digits(channel_id as nat)
        + seq!['_'] + date + seq!['_'] + two_digits(hour as nat) + two_digits(minute as nat)
        + two_digits(second as nat);
    match slug {
        Some(slug) => base + seq!['_'] + slug + ".json"@,
        None => base + ".json"@,
    }
}

/// Cleans the title of a session: white space around it goes, and a title
/// of which nothing is left is no title.
pub fn clean_title(title: Option<String>) -> (kept: Option<String>)
    ensures
        kept.is_some() == kept_title(
            match title {
                Some(text) => Some(text@),
                None => None,
            },
        ).is_some(),
        kept.is_some() ==> kept.unwrap()@ == kept_title(
            match title {
                Some(text) => Some(text@),
                None => None,
            },
        ).unwrap(),
{
    match title {
        Some(text) => {
            let trimmed = trim_text(text.as_str());
            if trimmed.as_str().is_empty() {
                None
            } else {
                Some(trimmed)
            }
        },
        None => None,
    }
}

/// Turns a title into the part of a file name; nothing when no character
/// of the title can stand in one.
pub fn slugify_title(input: &str) -> (slug: Option<String>)
    ensures
        slug.is_some() == (slug_text(input@).len() > 0),
        slug.is_some() ==> slug.unwrap()@ == slug_text(input@),
{
    let mut raw: Vec<char> = Vec::new();
    for c in it: input.chars()
        invariant
            it.seq() == input@,
            raw@ == raw_slug(input@.take(it.index())),
    {
        proof {
            assert(input@.take(it.index() + 1).drop_last() =~= input@.take(it.index()));
            assert(input@.take(it.index() + 1).last() == c);
        }
        if raw.len() < SLUG_LIMIT {
            if (c >= '0' && c <= '9') || (c >= 'a' && c <= 'z') || (c >= 'A' && c <= 'Z') {
                raw.push(to_lower_ascii(c));
            } else if c == ' ' || c == '\t' || c == '\n' || c == '\x0C' || c == '\r' {
                raw.push('-');
            } else if (c == '-' || c == '_') && raw.len() > 0 && raw[raw.len() - 1] != '-' {
                raw.push('-');
            }
        }
    }
    proof {
        assert(input@.take(input@.len() as int) =~= input@);
    }
    let (start, end) = strip_bounds(raw.as_slice(), CharClass::Dash);
    if start == end {
        None
    } else {
        Some(text_between(raw.as_slice(), start, end))
    }
}

/// Builds the name of a session file. `date` is the day the session
/// started, as the caller wrote it.
pub fn build_file_name(
    guild_id: u64,
    channel_id: u64,
    date: &str,
    hour: u32,
    minute: u32,
    second: u32,
    title_slug: Option<&str>,
) -> (name: String)
    ensures
        name@ == file_name_text(
            guild_id,
            channel_id,
            date@,
            hour,
            minute,
            second,
            match title_slug {
                Some(slug) => Some(slug@),
                None => None,
            },
        ),
{
    proof {
        reveal_strlit("_");
    }
    let mut name = String::new();
    push_decimal(&mut name, guild_id);
    name.append("_");
    push_decimal(&mut name, channel_id);
    name.append("_");
    name.append(date);
    name.append("_");
    push_two_digits(&mut name, hour as u64);
    push_two_digits(&mut name, minute as u64);
    push_two_digits(&mut name, second as u64);
    let ghost base = name@;
    assert(base =~= decimal_digits(guild_id as nat) + seq!['_'] + decimal_digits(
        channel_id as nat,
    ) + seq!['_'] + date@ + seq!['_'] + two_digits(hour as nat) + two_digits(minute as nat)
        + two_digits(second as nat));
    match title_slug {
        Some(slug) => {
            name.append("_");
            name.append(slug);
            name.append(".json");
            assert(name@ =~= base + seq!['_'] + slug@ + ".json"@);
        },
        None => {
            name.append(".json");
        },
    }
    name
}

} // verus!
