//! JSON documents as the service reads them: the transcript that is sent to
//! be summarized, and the answer that comes back.

use crate::text::{same_text, trim_text, trimmed};
use vstd::prelude::*;

verus! {

/// A JSON value, as far as the service reads it. The members of an object
/// stand in the order in which the parser hands them out; of a number no
/// more is kept than that it is one.
#[derive(Debug)]
pub enum Json {
    Null,
    Bool(bool),
    Number,
    Text(String),
    Array(Vec<Json>),
    Object(Vec<(String, Json)>),
}

/// The value of the first member called `key`.
pub open spec fn member_of(entries: Seq<(String, Json)>, key: Seq<char>) -> Option<Json>
    decreases entries.len(),
{
    if entries.len() == 0 {
        None
    } else if entries[0].0@ == key {
        Some(entries[0].1)
    } else {
        member_of(entries.drop_first(), key)
    }
}

/// The member called `key` of an object; nothing for any other value.
pub open spec fn field_of(value: Json, key: Seq<char>) -> Option<Json> {
    match value {
        Json::Object(entries) => member_of(entries@, key),
        _ => None,
    }
}

/// The characters of a string value; nothing for any other value.
pub open spec fn text_in(value: Json) -> Option<Seq<char>> {
    match value {
        Json::Text(text) => Some(text@),
        _ => None,
    }
}

/// The characters of the member called `key`, where it is a string.
pub open spec fn string_field(value: Json, key: Seq<char>) -> Option<Seq<char>> {
    match field_of(value, key) {
        Some(found) => text_in(found),
        None => None,
    }
}

/// The first text that a value holds.
///
/// An array holds that of its first item that holds one. An object holds
/// its own `text`, trimmed, where that is a string with more than white
/// space; else what its `content` holds; else that of the first of its
/// members that holds one. Nothing else holds a text.
pub open spec fn first_text_of(value: Json) -> Option<Seq<char>>
    decreases value, 0nat,
{
    match value {
        Json::Array(items) => first_text_among(items@),
        Json::Object(entries) => {
            let own = own_text(entries@);
            if own.is_some() {
                own
            } else {
                let inner = first_text_under(entries@, "content"@);
                if inner.is_some() {
                    inner
                } else {
                    first_text_in_values(entries@)
                }
            }
        },
        _ => None,
    }
}

/// The `text` of an object, trimmed, where it is a string with more than
/// white space.
pub open spec fn own_text(entries: Seq<(String, Json)>) -> Option<Seq<char>> {
    match member_of(entries, "text"@) {
        Some(found) => match text_in(found) {
            Some(text) => if trimmed(text).len() > 0 {
                Some(trimmed(text))
            } else {
                None
            },
            None => None,
        },
        None => None,
    }
}

/// The first text held by the first of the items that holds one.
pub open spec fn first_text_among(items: Seq<Json>) -> Option<Seq<char>>
    decreases items, 1nat,
{
    if items.len() == 0 {
        None
    } else {
        let first = first_text_of(items[0]);
        if first.is_some() {
            first
        } else {
            first_text_among(items.drop_first())
        }
    }
}

/// The first text held by the first member called `key`.
pub open spec fn first_text_under(entries: Seq<(String, Json)>, key: Seq<char>) -> Option<
    Seq<char>,
>
    decreases entries, 1nat,
{
    if entries.len() == 0 {
        None
    } else if entries[0].0@ == key {
        first_text_of(entries[0].1)
    } else {
        first_text_under(entries.drop_first(), key)
    }
}

/// The first text held by the first of the members that holds one.
pub open spec fn first_text_in_values(entries: Seq<(String, Json)>) -> Option<Seq<char>>
    decreases entries, 1nat,
{
    if entries.len() == 0 {
        None
    } else {
        let first = first_text_of(entries[0].1);
        if first.is_some() {
            first
        } else {
            first_text_in_values(entries.drop_first())
        }
    }
}

/// The text of a summary in an answer of the service: the first text under
/// `output`, or else the first text under `content`.
pub open spec fn summary_text_of(value: Json) -> Option<Seq<char>> {
    let output = match field_of(value, "output"@) {
        Some(found) => first_text_of(found),
        None => None,
    };
    if output.is_some() {
        output
    } else {
        match field_of(value, "content"@) {
            Some(found) => first_text_of(found),
            None => None,
        }
    }
}

impl Json {
    /// The member called `key` of an object.
    pub fn get(&self, key: &str) -> (found: Option<&Json>)
        ensures
            found.is_some() == field_of(*self, key@).is_some(),
            found.is_some() ==> *found.unwrap() == field_of(*self, key@).unwrap(),
    {
        match self {
            Json::Object(entries) => match position_of(entries, key) {
                Some(index) => Some(&entries[index].1),
                None => None,
            },
            _ => None,
        }
    }

    /// The characters of a string value.
    pub fn as_str(&self) -> (text: Option<&str>)
        ensures
            text.is_some() == text_in(*self).is_some(),
            text.is_some() ==> text.unwrap()@ == text_in(*self).unwrap(),
    {
        match self {
            Json::Text(text) => Some(text.as_str()),
            _ => None,
        }
    }

    /// The characters of the member called `key`, where it is a string.
    pub fn get_str(&self, key: &str) -> (text: Option<&str>)
        ensures
            text.is_some() == string_field(*self, key@).is_some(),
            text.is_some() ==> text.unwrap()@ == string_field(*self, key@).unwrap(),
    {
        match self.get(key) {
            Some(found) => found.as_str(),
            None => None,
        }
    }
}

/// Where the first member called `key` stands.
pub fn position_of(entries: &Vec<(String, Json)>, key: &str) -> (index: Option<usize>)
    ensures
        index.is_some() == member_of(entries@, key@).is_some(),
        index.is_some() ==> index.unwrap() < entries@.len() && entries@[index.unwrap() as int].0@
            == key@ && member_of(entries@, key@) == Some(entries@[index.unwrap() as int].1),
        index.is_some() ==> forall|j: int|
            0 <= j < index.unwrap() ==> (#[trigger] entries@[j]).0@ != key@,
        index.is_none() ==> forall|j: int| 0 <= j < entries@.len() ==> (#[trigger] entries@[j]).0@
            != key@,
{
    let mut i: usize = 0;
    proof {
        assert(entries@.skip(0) =~= entries@);
    }
    while i < entries.len()
        invariant
            i <= entries@.len(),
            member_of(entries@, key@) == member_of(entries@.skip(i as int), key@),
            forall|j: int| 0 <= j < i ==> (#[trigger] entries@[j]).0@ != key@,
        decreases entries@.len() - i,
    {
        proof {
            let rest = entries@.skip(i as int);
            assert(rest[0] == entries@[i as int]);
            assert(rest.drop_first() =~= entries@.skip(i + 1));
        }
        if same_text(entries[i].0.as_str(), key) {
            return Some(i);
        }
        i += 1;
    }
    None
}

/// The first text that a value holds; see `first_text_of`.
pub fn first_text(value: &Json) -> (text: Option<String>)
    ensures
        text.is_some() == first_text_of(*value).is_some(),
        text.is_some() ==> text.unwrap()@ == first_text_of(*value).unwrap(),
    decreases *value,
{
    match value {
        Json::Array(items) => {
            let mut i: usize = 0;
            proof {
                assert(items@.skip(0) =~= items@);
            }
            while i < items.len()
                invariant
                    i <= items@.len(),
                    *value == Json::Array(*items),
                    first_text_among(items@) == first_text_among(items@.skip(i as int)),
                decreases items@.len() - i,
            {
                proof {
                    let rest = items@.skip(i as int);
                    assert(rest[0] == items@[i as int]);
                    assert(rest.drop_first() =~= items@.skip(i + 1));
                }
                let found = first_text(&items[i]);
                if found.is_some() {
                    return found;
                }
                i += 1;
            }
            None
        },
        Json::Object(entries) => {
            if let Some(index) = position_of(entries, "text") {
                if let Json::Text(text) = &entries[index].1 {
                    let trimmed = trim_text(text.as_str());
                    if !trimmed.as_str().is_empty() {
                        return Some(trimmed);
                    }
                }
            }
            if let Some(index) = position_of(entries, "content") {
                proof {
                    lemma_under_is_member(entries@, "content"@, index as int);
                }
                let found = first_text(&entries[index].1);
                if found.is_some() {
                    return found;
                }
            } else {
                proof {
                    lemma_under_missing(entries@, "content"@);
                }
            }
            let mut i: usize = 0;
            proof {
                assert(entries@.skip(0) =~= entries@);
            }
            while i < entries.len()
                invariant
                    i <= entries@.len(),
                    *value == Json::Object(*entries),
                    own_text(entries@).is_none(),
                    first_text_under(entries@, "content"@).is_none(),
                    first_text_in_values(entries@) == first_text_in_values(entries@.skip(i as int)),
                decreases entries@.len() - i,
            {
                proof {
                    let rest = entries@.skip(i as int);
                    assert(rest[0] == entries@[i as int]);
                    assert(rest.drop_first() =~= entries@.skip(i + 1));
                }
                let found = first_text(&entries[i].1);
                if found.is_some() {
                    return found;
                }
                i += 1;
            }
            None
        },
        _ => None,
    }
}

/// The first text under a key is that of the first member with the key.
pub proof fn lemma_under_is_member(entries: Seq<(String, Json)>, key: Seq<char>, index: int)
    requires
        0 <= index < entries.len(),
        entries[index].0@ == key,
        forall|j: int| 0 <= j < index ==> (#[trigger] entries[j]).0@ != key,
    ensures
        first_text_under(entries, key) == first_text_of(entries[index].1),
    decreases index,
{
    if index > 0 {
        let rest = entries.drop_first();
        assert(rest[index - 1] == entries[index]);
        assert forall|j: int| 0 <= j < index - 1 implies (#[trigger] rest[j]).0@ != key by {
            assert(rest[j] == entries[j + 1]);
        }
        lemma_under_is_member(rest, key, index - 1);
    }
}

/// There is no text under a key that no member has.
pub proof fn lemma_under_missing(entries: Seq<(String, Json)>, key: Seq<char>)
    requires
        forall|j: int| 0 <= j < entries.len() ==> (#[trigger] entries[j]).0@ != key,
    ensures
        first_text_under(entries, key).is_none(),
    decreases entries.len(),
{
    if entries.len() > 0 {
        let rest = entries.drop_first();
        assert forall|j: int| 0 <= j < rest.len() implies (#[trigger] rest[j]).0@ != key by {
            assert(rest[j] == entries[j + 1]);
        }
        lemma_under_missing(rest, key);
    }
}

/// The text of a summary in an answer of the service; see
/// `summary_text_of`.
pub fn extract_summary_text(value: &Json) -> (text: Option<String>)
    ensures
        text.is_some() == summary_text_of(*value).is_some(),
        text.is_some() ==> text.unwrap()@ == summary_text_of(*value).unwrap(),
{
    if let Some(output) = value.get("output") {
        let found = first_text(output);
        if found.is_some() {
            return found;
        }
    }
    match value.get("content") {
        Some(content) => first_text(content),
        None => None,
    }
}

#[verifier::external_type_specification]
#[verifier::external_body]
pub struct ExValue(serde_json::Value);

/// What the bytes parse to as JSON, if they are JSON. The parser is
/// `serde_json`'s.
pub uninterp spec fn parsed_json(bytes: Seq<u8>) -> Option<Json>;

/// The value that `serde_json` parsed, variant by variant. A number keeps
/// no more than that it is one.
#[verifier::external_body]
fn json_from(value: serde_json::Value) -> Json {
    match value {
        serde_json::Value::Null => Json::Null,
        serde_json::Value::Bool(flag) => Json::Bool(flag),
        serde_json::Value::Number(_) => Json::Number,
        serde_json::Value::String(text) => Json::Text(text),
        serde_json::Value::Array(items) => Json::Array(items.into_iter().map(json_from).collect()),
        serde_json::Value::Object(members) => Json::Object(
            members.into_iter().map(|(key, member)| (key, json_from(member))).collect(),
        ),
    }
}

/// `serde_json::from_slice` for a `serde_json::Value`: the value that the
/// bytes parse to, or nothing when they are not JSON.
#[verifier::external_body]
pub(crate) fn parse_json(bytes: &[u8]) -> (value: Option<Json>)
    ensures
        value == parsed_json(bytes@),
{
    serde_json::from_slice::<serde_json::Value>(bytes).ok().map(json_from)
}

} // verus!
