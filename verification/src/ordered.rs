//! The insertion-ordered map that holds a bundle's entries.
//!
//! The map itself is `indexmap::IndexMap`. Nothing in this file is proved:
//! each function below hands one call to that crate and states, over
//! [`map_entries`], what the crate documents of it.

use crate::json::{JsonModel, Value};
use indexmap::IndexMap;
use vstd::prelude::*;

verus! {

/// The model of one entry: the key's characters and the value's model.
pub struct EntryModel {
    pub key: Seq<char>,
    pub value: JsonModel,
}

/// `indexmap::IndexMap`, a hash map that keeps its entries in the order in
/// which they were inserted; nothing is known of what is in it but through
/// the functions below.
#[verifier::external_type_specification]
#[verifier::external_body]
#[verifier::reject_recursive_types(K)]
#[verifier::reject_recursive_types(V)]
#[verifier::reject_recursive_types(S)]
pub struct ExIndexMap<K, V, S>(IndexMap<K, V, S>);

/// What an `IndexMap` holds: its entries, in iteration order.
pub uninterp spec fn map_entries(m: IndexMap<String, Value>) -> Seq<EntryModel>;

/// Whether some entry of `s` has the key `key`.
pub open spec fn has_key(s: Seq<EntryModel>, key: Seq<char>) -> bool {
    exists|i: int| 0 <= i < s.len() && #[trigger] s[i].key == key
}

/// `IndexMap::new`: the new map holds nothing.
#[verifier::external_body]
pub(crate) fn map_new() -> (m: IndexMap<String, Value>)
    ensures
        map_entries(m) == Seq::<EntryModel>::empty(),
{
    IndexMap::new()
}

/// `IndexMap::len`: the number of entries.
#[verifier::external_body]
pub(crate) fn map_len(m: &IndexMap<String, Value>) -> (n: usize)
    ensures
        n == map_entries(*m).len(),
{
    m.len()
}

/// `IndexMap::get_index_of`: the position of the entry with an equal key,
/// or `None` when no entry has one.
#[verifier::external_body]
pub(crate) fn map_index_of(m: &IndexMap<String, Value>, key: &str) -> (r: Option<usize>)
    ensures
        match r {
            Some(i) => i < map_entries(*m).len() && map_entries(*m)[i as int].key == key@,
            None => !has_key(map_entries(*m), key@),
        },
{
    m.get_index_of(key)
}

/// `IndexMap::get_index`: the key and value at a position, `None` past the end.
#[verifier::external_body]
pub(crate) fn map_at(m: &IndexMap<String, Value>, index: usize) -> (r: Option<(&String, &Value)>)
    ensures
        match r {
            Some((k, v)) => index < map_entries(*m).len() && k@ == map_entries(*m)[index as int].key
                && v@ == map_entries(*m)[index as int].value,
            None => index >= map_entries(*m).len(),
        },
{
    m.get_index(index)
}

/// `IndexMap::insert`: a key that is present keeps its place and gets the new
/// value, and the old value is returned; a key that is absent is added last.
#[verifier::external_body]
pub(crate) fn map_insert(m: &mut IndexMap<String, Value>, key: String, value: Value) -> (r: Option<
    Value,
>)
    ensures
        forall|i: int|
            0 <= i < map_entries(*old(m)).len() && #[trigger] map_entries(*old(m))[i].key == key@
                ==> map_entries(*final(m)) == map_entries(*old(m)).update(
                i,
                EntryModel { key: key@, value: value@ },
            ) && r.is_some() && r.unwrap()@ == map_entries(*old(m))[i].value,
        !has_key(map_entries(*old(m)), key@) ==> map_entries(*final(m)) == map_entries(
            *old(m),
        ).push(EntryModel { key: key@, value: value@ }) && r.is_none(),
{
    m.insert(key, value)
}

/// `IndexMap::shift_insert`: a key that is absent goes exactly at `index`, and
/// the entries from there on move up by one; a key that is present gets the
/// new value and moves to `index`, the entries in between shifting over.
#[verifier::external_body]
pub(crate) fn map_shift_insert(
    m: &mut IndexMap<String, Value>,
    index: usize,
    key: String,
    value: Value,
) -> (r: Option<Value>)
    requires
        index <= map_entries(*old(m)).len(),
        has_key(map_entries(*old(m)), key@) ==> index < map_entries(*old(m)).len(),
    ensures
        forall|i: int|
            0 <= i < map_entries(*old(m)).len() && #[trigger] map_entries(*old(m))[i].key == key@
                ==> map_entries(*final(m)) == map_entries(*old(m)).remove(i).insert(
                index as int,
                EntryModel { key: key@, value: value@ },
            ) && r.is_some() && r.unwrap()@ == map_entries(*old(m))[i].value,
        !has_key(map_entries(*old(m)), key@) ==> map_entries(*final(m)) == map_entries(
            *old(m),
        ).insert(index as int, EntryModel { key: key@, value: value@ }) && r.is_none(),
{
    m.shift_insert(index, key, value)
}

/// `IndexMap::shift_remove`: the entry with an equal key leaves, the entries
/// behind it move down by one, and its value is returned; with no such entry
/// the map stays as it is.
#[verifier::external_body]
pub(crate) fn map_shift_remove(m: &mut IndexMap<String, Value>, key: &str) -> (r: Option<Value>)
    ensures
        forall|i: int|
            0 <= i < map_entries(*old(m)).len() && #[trigger] map_entries(*old(m))[i].key == key@
                ==> map_entries(*final(m)) == map_entries(*old(m)).remove(i) && r.is_some()
                && r.unwrap()@ == map_entries(*old(m))[i].value,
        !has_key(map_entries(*old(m)), key@) ==> map_entries(*final(m)) == map_entries(*old(m))
            && r.is_none(),
{
    m.shift_remove(key)
}

} // verus!
