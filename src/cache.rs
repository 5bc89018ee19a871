//! The concurrent map that caches memory entries, seen through the
//! operations the store uses.
use vstd::prelude::*;
use dashmap::DashMap;
use crate::types::{MemoryEntry, MemoryEntryView};

verus! {

/// dashmap's concurrent map, declared so that it can stand in fields and
/// signatures; its contents are seen only through `cache_contents`.
#[verifier::external_type_specification]
#[verifier::external_body]
#[verifier::reject_recursive_types(K)]
#[verifier::reject_recursive_types(V)]
#[verifier::reject_recursive_types(S)]
pub struct ExDashMap<K, V, S>(DashMap<K, V, S>);

/// What a cache map holds: each id with the value of its entry.
pub uninterp spec fn cache_contents(m: DashMap<u128, MemoryEntry>) -> Map<u128, MemoryEntryView>;

/// Relies on DashMap::new: a new map is empty.
#[verifier::external_body]
pub(crate) fn cache_new() -> (r: DashMap<u128, MemoryEntry>)
    ensures
        cache_contents(r).dom().len() == 0,
        cache_contents(r).dom().finite(),
{
    DashMap::new()
}

/// Relies on DashMap::insert: afterwards `key` maps to `value`, and every
/// other key is unchanged.
#[verifier::external_body]
pub(crate) fn cache_insert(m: &mut DashMap<u128, MemoryEntry>, key: u128, value: MemoryEntry)
    ensures
        cache_contents(*final(m)) == cache_contents(*old(m)).insert(key, value@),
{
    m.insert(key, value);
}

/// Relies on DashMap::remove: afterwards `key` is absent, and every other
/// key is unchanged.
#[verifier::external_body]
pub(crate) fn cache_remove(m: &mut DashMap<u128, MemoryEntry>, key: u128)
    ensures
        cache_contents(*final(m)) == cache_contents(*old(m)).remove(key),
{
    m.remove(&key);
}

/// Relies on DashMap::get: a copy of the entry under `key`, if any (the
/// entry's `Clone` is derived).
#[verifier::external_body]
pub(crate) fn cache_get(m: &DashMap<u128, MemoryEntry>, key: u128) -> (r: Option<MemoryEntry>)
    ensures
        r is Some <==> cache_contents(*m).contains_key(key),
        r matches Some(e) ==> e@ == cache_contents(*m)[key],
{
    match m.get(&key) {
        Some(entry) => Some(entry.value().clone()),
        None => None,
    }
}

/// Relies on DashMap::iter: every key with a copy of its entry, each key
/// once, in an order the map chooses.
#[verifier::external_body]
pub(crate) fn cache_snapshot(m: &DashMap<u128, MemoryEntry>) -> (r: Vec<(u128, MemoryEntry)>)
    ensures
        r@.map_values(|p: (u128, MemoryEntry)| p.0).no_duplicates(),
        r@.map_values(|p: (u128, MemoryEntry)| p.0).to_set() == cache_contents(*m).dom(),
        forall|i: int| 0 <= i < r@.len() ==> (#[trigger] r@[i]).1@ == cache_contents(*m)[r@[i].0],
{
    m.iter().map(|entry| (*entry.key(), entry.value().clone())).collect()
}

} // verus!
