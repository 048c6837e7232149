//! Numbers filed under strings, held in a `DashMap`.
//!
//! The maps of this crate are never shared while they are changed: each wrapper that
//! changes a map borrows it mutably, so what a map holds is fixed by its value.
use dashmap::DashMap;
use vstd::prelude::*;

use crate::order::stable_order;

verus! {

/// `dashmap::DashMap`, carried as an opaque value.
#[verifier::external_type_specification]
#[verifier::external_body]
#[verifier::reject_recursive_types(K)]
#[verifier::reject_recursive_types(V)]
#[verifier::reject_recursive_types(S)]
pub struct ExDashMap<K, V, S>(dashmap::DashMap<K, V, S>);

/// The entries that a map holds.
pub uninterp spec fn stored(map: DashMap<String, u64>) -> Map<Seq<char>, u64>;

/// What a map without entries holds.
pub open spec fn nothing_stored() -> Map<Seq<char>, u64> {
    Map::empty()
}

/// `list` names each entry of `entries` once, in some order, and nothing else.
pub open spec fn lists(list: Seq<(String, u64)>, entries: Map<Seq<char>, u64>) -> bool {
    &&& forall|i: int|
        0 <= i < list.len() ==> entries.contains_key((#[trigger] list[i]).0@)
            && entries[list[i].0@] == list[i].1
    &&& forall|i: int, j: int|
        0 <= i < j < list.len() ==> (#[trigger] list[i]).0@ != (#[trigger] list[j]).0@
    &&& forall|key: Seq<char>| #[trigger]
        entries.contains_key(key) ==> exists|i: int|
            0 <= i < list.len() && (#[trigger] list[i]).0@ == key
}

/// `entries` are finitely many: `count` of them.
pub open spec fn has_size(entries: Map<Seq<char>, u64>, count: usize) -> bool {
    entries.dom().finite() && entries.dom().len() == count
}

/// `DashMap::new`: a map without entries.
#[verifier::external_body]
pub(crate) fn store_new() -> (made: DashMap<String, u64>)
    ensures
        stored(made) == nothing_stored(),
{
    DashMap::new()
}

/// `DashMap::insert`: afterwards `key` holds `value`, and every other entry is as it was.
#[verifier::external_body]
pub(crate) fn store_insert(map: &mut DashMap<String, u64>, key: String, value: u64)
    ensures
        stored(*final(map)) == stored(*old(map)).insert(key@, value),
{
    map.insert(key, value);
}

/// `DashMap::remove`: afterwards `key` holds nothing, and every other entry is as it was.
#[verifier::external_body]
pub(crate) fn store_remove(map: &mut DashMap<String, u64>, key: &str)
    ensures
        stored(*final(map)) == stored(*old(map)).remove(key@),
{
    map.remove(key);
}

/// `DashMap::get`, the value copied out of the guard: what `key` holds, if anything.
#[verifier::external_body]
pub(crate) fn store_get(map: &DashMap<String, u64>, key: &str) -> (found: Option<u64>)
    ensures
        found is Some <==> stored(*map).contains_key(key@),
        found is Some ==> found == Some(stored(*map)[key@]),
{
    map.get(key).map(|entry| *entry.value())
}

/// `DashMap::len`: the number of entries, of which there are finitely many.
#[verifier::external_body]
pub(crate) fn store_len(map: &DashMap<String, u64>) -> (count: usize)
    ensures
        has_size(stored(*map), count),
{
    map.len()
}

/// `DashMap::iter`, each entry copied out of its guard: every entry once. The order is
/// left open, as the map's hasher is seeded anew for each map.
#[verifier::external_body]
pub(crate) fn store_list(map: &DashMap<String, u64>) -> (list: Vec<(String, u64)>)
    ensures
        lists(list@, stored(*map)),
{
    map.iter().map(|entry| (entry.key().clone(), *entry.value())).collect()
}

/// What `key` holds, or nought.
pub open spec fn held(entries: Map<Seq<char>, u64>, key: Seq<char>) -> u64 {
    if entries.contains_key(key) {
        entries[key]
    } else {
        0
    }
}

/// The keys that a list of entries names.
pub open spec fn keys_of(list: Seq<(String, u64)>) -> Seq<Seq<char>> {
    Seq::new(list.len(), |i: int| list[i].0@)
}

/// A map has as many entries as a list of them all is long.
pub proof fn list_has_size(list: Seq<(String, u64)>, entries: Map<Seq<char>, u64>)
    requires
        lists(list, entries),
    ensures
        entries.dom().finite(),
        entries.dom().len() == list.len(),
        entries.dom() == keys_of(list).to_set(),
{
    let keys = keys_of(list);
    assert(keys.no_duplicates()) by {
        assert forall|i: int, j: int| 0 <= i < keys.len() && 0 <= j < keys.len() && i != j implies
            keys[i] != keys[j] by {
            if i < j {
                assert(list[i].0@ != list[j].0@);
            } else {
                assert(list[j].0@ != list[i].0@);
            }
        }
    }
    keys.unique_seq_to_set();
    assert forall|key: Seq<char>| entries.dom().contains(key) <==> keys.to_set().contains(key) by {
        if entries.contains_key(key) {
            let i = choose|i: int| 0 <= i < list.len() && (#[trigger] list[i]).0@ == key;
            assert(keys[i] == key);
        }
        if keys.to_set().contains(key) {
            let i = choose|i: int| 0 <= i < keys.len() && keys[i] == key;
            assert(entries.contains_key(list[i].0@));
        }
    }
    assert(entries.dom() == keys.to_set());
}

/// `best` names `n` entries, or all if there are fewer, each once, from the highest
/// number down; no other entry has a higher number than any of them. Which of two
/// entries with the same number comes first, or is left out, is open.
pub open spec fn tops(best: Seq<(String, u64)>, entries: Map<Seq<char>, u64>, n: usize) -> bool {
    &&& entries.dom().finite()
    &&& best.len() == if n <= entries.dom().len() {
        n as nat
    } else {
        entries.dom().len()
    }
    &&& forall|i: int|
        0 <= i < best.len() ==> entries.contains_key((#[trigger] best[i]).0@)
            && entries[best[i].0@] == best[i].1
    &&& forall|i: int, j: int|
        0 <= i < j < best.len() ==> (#[trigger] best[i]).0@ != (#[trigger] best[j]).0@ && best[i].1
            >= best[j].1
    &&& forall|key: Seq<char>, i: int|
        entries.contains_key(key) && !keys_of(best).contains(key) && 0 <= i < best.len()
            ==> #[trigger] entries[key] <= (#[trigger] best[i]).1
}

/// The `n` entries with the highest numbers, from the highest down.
pub(crate) fn top_of(map: &DashMap<String, u64>, n: usize) -> (best: Vec<(String, u64)>)
    ensures
        tops(best@, stored(*map), n),
{
    let list = store_list(map);
    let ghost entries = stored(*map);
    proof {
        list_has_size(list@, entries);
    }
    let mut keys: Vec<u64> = Vec::new();
    for i in 0..list.len()
        invariant
            keys.len() == i,
            forall|j: int| 0 <= j < i ==> #[trigger] keys@[j] == u64::MAX - list@[j].1,
    {
        keys.push(u64::MAX - list[i].1);
    }
    let order = stable_order(&keys);
    let count: usize = if n < list.len() {
        n
    } else {
        list.len()
    };
    let mut best: Vec<(String, u64)> = Vec::new();
    for i in 0..count
        invariant
            count <= list.len(),
            keys.len() == list.len(),
            crate::order::stably_sorts(keys@, order@),
            best.len() == i,
            forall|j: int|
                0 <= j < i ==> (#[trigger] best@[j]).0@ == list@[order@[j] as int].0@
                    && best@[j].1 == list@[order@[j] as int].1,
    {
        let entry = &list[order[i]];
        best.push((entry.0.clone(), entry.1));
    }
    proof {
        assert forall|i: int, j: int| 0 <= i < j < best@.len() implies (#[trigger] best@[i]).0@
            != (#[trigger] best@[j]).0@ && best@[i].1 >= best@[j].1 by {
            let a = order@[i] as int;
            let b = order@[j] as int;
            assert(crate::order::precedes(keys@, a, b));
            if a < b {
                assert(list@[a].0@ != list@[b].0@);
            } else {
                assert(list@[b].0@ != list@[a].0@);
            }
        }
        assert forall|key: Seq<char>, i: int|
            entries.contains_key(key) && !keys_of(best@).contains(key) && 0 <= i
                < best@.len() implies #[trigger] entries[key] <= (#[trigger] best@[i]).1 by {
            let p = choose|p: int| 0 <= p < list@.len() && (#[trigger] list@[p]).0@ == key;
            assert(crate::order::listed(order@, p));
            let k = choose|k: int| 0 <= k < order@.len() && order@[k] == p;
            if k < count {
                assert(keys_of(best@)[k] == key);
            }
            assert(crate::order::precedes(keys@, order@[i] as int, order@[k] as int));
        }
    }
    best
}

} // verus!
