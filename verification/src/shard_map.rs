//! The concurrent map of dashmap, from pairs of numbers to numbers.
use vstd::prelude::*;
use dashmap::DashMap;

verus! {

/// The concurrent map of dashmap.
#[verifier::external_type_specification]
#[verifier::external_body]
#[verifier::reject_recursive_types(K)]
#[verifier::reject_recursive_types(V)]
#[verifier::reject_recursive_types(S)]
pub struct ExDashMap<K, V, S>(DashMap<K, V, S>);

/// What a map holds.
pub uninterp spec fn map_entries(m: DashMap<(u64, u64), u64>) -> Map<(u64, u64), u64>;

/// Nothing.
pub open spec fn no_entries() -> Map<(u64, u64), u64> {
    Map::empty()
}

/// `DashMap::new` makes an empty map.
#[verifier::external_body]
pub(crate) fn map_new() -> (r: DashMap<(u64, u64), u64>)
    ensures
        map_entries(r) == no_entries(),
{
    DashMap::new()
}

/// `DashMap::len` counts the entries.
#[verifier::external_body]
pub(crate) fn map_len(m: &DashMap<(u64, u64), u64>) -> (r: usize)
    ensures
        r == map_entries(*m).len(),
{
    m.len()
}

/// `DashMap::get` finds the value of a key.
#[verifier::external_body]
pub(crate) fn map_get(m: &DashMap<(u64, u64), u64>, key: (u64, u64)) -> (r: Option<u64>)
    ensures
        r is Some == map_entries(*m).contains_key(key),
        r is Some ==> r->0 == map_entries(*m)[key],
{
    m.get(&key).map(|entry| *entry.value())
}

/// `DashMap::insert` sets the value of a key.
#[verifier::external_body]
pub(crate) fn map_insert(m: &mut DashMap<(u64, u64), u64>, key: (u64, u64), value: u64)
    ensures
        map_entries(*final(m)) == map_entries(*old(m)).insert(key, value),
{
    m.insert(key, value);
}

/// `DashMap::remove` removes a key with its value.
#[verifier::external_body]
pub(crate) fn map_remove(m: &mut DashMap<(u64, u64), u64>, key: (u64, u64)) -> (r: Option<u64>)
    ensures
        map_entries(*final(m)) == map_entries(*old(m)).remove(key),
        r is Some == map_entries(*old(m)).contains_key(key),
        r is Some ==> r->0 == map_entries(*old(m))[key],
{
    m.remove(&key).map(|entry| entry.1)
}

/// `DashMap::iter` visits every entry once, in no particular order.
#[verifier::external_body]
pub(crate) fn map_list(m: &DashMap<(u64, u64), u64>) -> (r: Vec<((u64, u64), u64)>)
    ensures
        forall|e: ((u64, u64), u64)| #[trigger]
            r@.contains(e) == (map_entries(*m).contains_key(e.0) && map_entries(*m)[e.0] == e.1),
        r@.no_duplicates(),
{
    m.iter().map(|entry| (*entry.key(), *entry.value())).collect()
}

} // verus!
