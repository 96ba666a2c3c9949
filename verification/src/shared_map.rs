//! The concurrent tables of the engine are `dashmap::DashMap`s. What the
//! verifier knows of them is stated here, operation by operation, and is
//! taken on trust from the `dashmap` crate: nothing in this file is proved.
//!
//! Every operation takes its lock and lets go of it before it returns, so no
//! reference into a table outlives a call. Operations that change a table ask
//! for `&mut`, so that the verifier sees the change.

use crate::buffer::{AudioBuffer, BufferView};
use crate::roster::ParticipantRecord;
use dashmap::DashMap;
use vstd::prelude::*;

verus! {

#[verifier::external_type_specification]
#[verifier::external_body]
#[verifier::reject_recursive_types(K)]
#[verifier::reject_recursive_types(V)]
#[verifier::reject_recursive_types(S)]
pub struct ExDashMap<K, V, S>(DashMap<K, V, S>);

/// `pairs` lists every entry of `entries` exactly once, in some order.
pub open spec fn lists_all<K, V>(pairs: Seq<(K, V)>, entries: Map<K, V>) -> bool {
    &&& forall|i: int|
        0 <= i < pairs.len() ==> #[trigger] entries.contains_pair(pairs[i].0, pairs[i].1)
    &&& forall|k: K| #[trigger]
        entries.contains_key(k) ==> exists|i: int| 0 <= i < pairs.len() && (#[trigger] pairs[i]).0 == k
    &&& forall|i: int, j: int|
        0 <= i < j < pairs.len() ==> (#[trigger] pairs[i]).0 != (#[trigger] pairs[j]).0
}

/// `keys` lists every key of `domain` exactly once, in some order.
pub open spec fn lists_domain<K>(keys: Seq<K>, domain: Set<K>) -> bool {
    &&& keys.no_duplicates()
    &&& forall|k: K| keys.contains(k) <==> #[trigger] domain.contains(k)
}

/// What a lookup or a removal hands back for `key`.
pub open spec fn entry_of<K, V>(entries: Map<K, V>, key: K) -> Option<V> {
    if entries.contains_key(key) {
        Some(entries[key])
    } else {
        None
    }
}

// ---------------------------------------------------------------------
// stream session id -> user id
// ---------------------------------------------------------------------
/// The entries of a table from stream session ids to user ids.
pub uninterp spec fn user_entries(table: DashMap<u32, u64>) -> Map<u32, u64>;

/// `DashMap::new`: a fresh table has no entry.
#[verifier::external_body]
pub(crate) fn user_table_new() -> (table: DashMap<u32, u64>)
    ensures
        user_entries(table) =~= Map::empty(),
{
    DashMap::new()
}

/// `DashMap::insert`: the entry is stored, and the value that the key had
/// before comes back.
#[verifier::external_body]
pub(crate) fn user_table_insert(table: &mut DashMap<u32, u64>, key: u32, value: u64) -> (previous:
    Option<u64>)
    ensures
        user_entries(*final(table)) == user_entries(*old(table)).insert(key, value),
        previous == entry_of(user_entries(*old(table)), key),
{
    table.insert(key, value)
}

/// `DashMap::get`: a copy of the value stored for the key, if there is one.
#[verifier::external_body]
pub(crate) fn user_table_get(table: &DashMap<u32, u64>, key: u32) -> (found: Option<u64>)
    ensures
        found == entry_of(user_entries(*table), key),
{
    table.get(&key).map(|entry| *entry.value())
}

/// `DashMap::remove`: the key's entry leaves the table, and its value comes
/// back.
#[verifier::external_body]
pub(crate) fn user_table_remove(table: &mut DashMap<u32, u64>, key: u32) -> (removed: Option<u64>)
    ensures
        user_entries(*final(table)) == user_entries(*old(table)).remove(key),
        removed == entry_of(user_entries(*old(table)), key),
{
    table.remove(&key).map(|pair| pair.1)
}

/// `DashMap::iter`: every entry is visited once. The order is that of the
/// table's hashing and is not stated.
#[verifier::external_body]
pub(crate) fn user_table_pairs(table: &DashMap<u32, u64>) -> (pairs: Vec<(u32, u64)>)
    ensures
        lists_all(pairs@, user_entries(*table)),
{
    table.iter().map(|entry| (*entry.key(), *entry.value())).collect()
}

// ---------------------------------------------------------------------
// stream session id -> placeholder label
// ---------------------------------------------------------------------
/// The entries of a table from stream session ids to placeholder labels,
/// each label as its characters.
pub uninterp spec fn label_entries(table: DashMap<u32, String>) -> Map<u32, Seq<char>>;

/// `DashMap::new`: a fresh table has no entry.
#[verifier::external_body]
pub(crate) fn label_table_new() -> (table: DashMap<u32, String>)
    ensures
        label_entries(table) =~= Map::empty(),
{
    DashMap::new()
}

/// `DashMap::insert`: the entry is stored, and the label that the key had
/// before comes back.
#[verifier::external_body]
pub(crate) fn label_table_insert(table: &mut DashMap<u32, String>, key: u32, value: String) -> (previous:
    Option<String>)
    ensures
        label_entries(*final(table)) == label_entries(*old(table)).insert(key, value@),
        previous.is_some() == label_entries(*old(table)).contains_key(key),
        previous.is_some() ==> previous.unwrap()@ == label_entries(*old(table))[key],
{
    table.insert(key, value)
}

/// `DashMap::get`: a copy of the label stored for the key, if there is one.
#[verifier::external_body]
pub(crate) fn label_table_get(table: &DashMap<u32, String>, key: u32) -> (found: Option<String>)
    ensures
        found.is_some() == label_entries(*table).contains_key(key),
        found.is_some() ==> found.unwrap()@ == label_entries(*table)[key],
{
    table.get(&key).map(|entry| entry.value().clone())
}

/// `DashMap::remove`: the key's entry leaves the table, and its label comes
/// back.
#[verifier::external_body]
pub(crate) fn label_table_remove(table: &mut DashMap<u32, String>, key: u32) -> (removed: Option<
    String,
>)
    ensures
        label_entries(*final(table)) == label_entries(*old(table)).remove(key),
        removed.is_some() == label_entries(*old(table)).contains_key(key),
        removed.is_some() ==> removed.unwrap()@ == label_entries(*old(table))[key],
{
    table.remove(&key).map(|pair| pair.1)
}

// ---------------------------------------------------------------------
// user id -> participation record
// ---------------------------------------------------------------------
/// The entries of a table from user ids to participation records.
pub uninterp spec fn participant_entries(table: DashMap<u64, ParticipantRecord>) -> Map<
    u64,
    ParticipantRecord,
>;

/// `DashMap::new`: a fresh table has no entry.
#[verifier::external_body]
pub(crate) fn participant_table_new() -> (table: DashMap<u64, ParticipantRecord>)
    ensures
        participant_entries(table) =~= Map::empty(),
{
    DashMap::new()
}

/// `DashMap::insert`: the entry is stored, and the record that the key had
/// before comes back.
#[verifier::external_body]
pub(crate) fn participant_table_insert(
    table: &mut DashMap<u64, ParticipantRecord>,
    key: u64,
    value: ParticipantRecord,
) -> (previous: Option<ParticipantRecord>)
    ensures
        participant_entries(*final(table)) == participant_entries(*old(table)).insert(key, value),
        previous == entry_of(participant_entries(*old(table)), key),
{
    table.insert(key, value)
}

/// `DashMap::remove`: the key's entry leaves the table, and its record comes
/// back.
#[verifier::external_body]
pub(crate) fn participant_table_remove(table: &mut DashMap<u64, ParticipantRecord>, key: u64) -> (removed:
    Option<ParticipantRecord>)
    ensures
        participant_entries(*final(table)) == participant_entries(*old(table)).remove(key),
        removed == entry_of(participant_entries(*old(table)), key),
{
    table.remove(&key).map(|pair| pair.1)
}

/// `DashMap::clear`: no entry is left.
#[verifier::external_body]
pub(crate) fn participant_table_clear(table: &mut DashMap<u64, ParticipantRecord>)
    ensures
        participant_entries(*final(table)) =~= Map::empty(),
{
    table.clear()
}

/// `DashMap::len`: the number of entries.
#[verifier::external_body]
pub(crate) fn participant_table_len(table: &DashMap<u64, ParticipantRecord>) -> (count: usize)
    requires
        participant_entries(*table).dom().finite(),
    ensures
        count == participant_entries(*table).dom().len(),
{
    table.len()
}

/// `DashMap::iter`: every entry is visited once. The order is that of the
/// table's hashing and is not stated.
#[verifier::external_body]
pub(crate) fn participant_table_pairs(table: &DashMap<u64, ParticipantRecord>) -> (pairs: Vec<
    (u64, ParticipantRecord),
>)
    ensures
        lists_all(pairs@, participant_entries(*table)),
{
    table.iter().map(|entry| (*entry.key(), *entry.value())).collect()
}

// ---------------------------------------------------------------------
// stream session id -> stream buffer
// ---------------------------------------------------------------------
/// The entries of a table from stream session ids to stream buffers, each
/// buffer as its contents.
pub uninterp spec fn buffer_entries(table: DashMap<u32, AudioBuffer>) -> Map<u32, BufferView>;

/// `DashMap::new`: a fresh table has no entry.
#[verifier::external_body]
pub(crate) fn buffer_table_new() -> (table: DashMap<u32, AudioBuffer>)
    ensures
        buffer_entries(table) =~= Map::empty(),
{
    DashMap::new()
}

/// `DashMap::insert`: the entry is stored, and the buffer that the key had
/// before comes back.
#[verifier::external_body]
pub(crate) fn buffer_table_insert(table: &mut DashMap<u32, AudioBuffer>, key: u32, value: AudioBuffer) -> (previous:
    Option<AudioBuffer>)
    ensures
        buffer_entries(*final(table)) == buffer_entries(*old(table)).insert(key, value@),
        previous.is_some() == buffer_entries(*old(table)).contains_key(key),
        previous.is_some() ==> previous.unwrap()@ == buffer_entries(*old(table))[key],
{
    table.insert(key, value)
}

/// `DashMap::remove`: the key's entry leaves the table, and its buffer comes
/// back.
#[verifier::external_body]
pub(crate) fn buffer_table_remove(table: &mut DashMap<u32, AudioBuffer>, key: u32) -> (removed: Option<
    AudioBuffer,
>)
    ensures
        buffer_entries(*final(table)) == buffer_entries(*old(table)).remove(key),
        removed.is_some() == buffer_entries(*old(table)).contains_key(key),
        removed.is_some() ==> removed.unwrap()@ == buffer_entries(*old(table))[key],
{
    table.remove(&key).map(|pair| pair.1)
}

/// `DashMap::iter`: every entry is visited once, and its key is taken. The
/// order is that of the table's hashing and is not stated.
#[verifier::external_body]
pub(crate) fn buffer_table_keys(table: &DashMap<u32, AudioBuffer>) -> (keys: Vec<u32>)
    ensures
        lists_domain(keys@, buffer_entries(*table).dom()),
{
    table.iter().map(|entry| *entry.key()).collect()
}

} // verus!
