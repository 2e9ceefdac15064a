//! The concurrent maps that hold the monitor and source tables, and what
//! this library relies on from them.
//!
//! Each map is keyed by a `String`; the contracts speak of what a map holds
//! as a `Map` keyed by the characters of each key, which is how `String`'s
//! `Eq` and `Hash` tell keys apart.

use dashmap::DashMap;
use vstd::prelude::*;

verus! {

#[verifier::external_type_specification]
#[verifier::external_body]
#[verifier::reject_recursive_types(K)]
#[verifier::reject_recursive_types(V)]
#[verifier::reject_recursive_types(S)]
pub struct ExDashMap<K, V, S>(DashMap<K, V, S>);

/// One entry of the monitor table: the window the monitor is shown in, if
/// one was opened, and the name of the source configured for it.
pub type MonitorSlot = (Option<u64>, String);

/// What the monitor table holds: for each monitor name, the window handle
/// and the characters of the configured source name.
pub uninterp spec fn monitor_table(m: DashMap<String, MonitorSlot>) -> Map<Seq<char>, (Option<u64>, Seq<char>)>;

/// What a source table holds: for each source name, the handle that stands
/// for the discovered source.
pub uninterp spec fn source_table(m: DashMap<String, u64>) -> Map<Seq<char>, u64>;

/// The spec value of a monitor slot.
pub open spec fn slot_view(slot: MonitorSlot) -> (Option<u64>, Seq<char>) {
    (slot.0, slot.1@)
}

/// `DashMap::new` for the monitor table: the new map holds nothing.
#[verifier::external_body]
pub(crate) fn new_monitor_table() -> (res: DashMap<String, MonitorSlot>)
    ensures
        monitor_table(res).dom().is_empty(),
{
    DashMap::new()
}

/// `DashMap::new` for a source table: the new map holds nothing.
#[verifier::external_body]
pub(crate) fn new_source_table() -> (res: DashMap<String, u64>)
    ensures
        source_table(res).dom().is_empty(),
{
    DashMap::new()
}

/// `DashMap::insert` on the monitor table: the key now maps to the value,
/// every other key is untouched, and the earlier value of the key comes back.
#[verifier::external_body]
pub(crate) fn monitor_table_insert(m: &mut DashMap<String, MonitorSlot>, key: String, value: MonitorSlot) -> (res: Option<MonitorSlot>)
    ensures
        monitor_table(*final(m)) == monitor_table(*old(m)).insert(key@, slot_view(value)),
        res is Some <==> monitor_table(*old(m)).contains_key(key@),
        res matches Some(v) ==> slot_view(v) == monitor_table(*old(m))[key@],
{
    m.insert(key, value)
}

/// `DashMap::insert` on a source table: the key now maps to the value, every
/// other key is untouched, and the earlier value of the key comes back.
#[verifier::external_body]
pub(crate) fn source_table_insert(m: &mut DashMap<String, u64>, key: String, value: u64) -> (res: Option<u64>)
    ensures
        source_table(*final(m)) == source_table(*old(m)).insert(key@, value),
        res is Some <==> source_table(*old(m)).contains_key(key@),
        res matches Some(v) ==> v == source_table(*old(m))[key@],
{
    m.insert(key, value)
}

/// `DashMap::remove` on the monitor table: the key no longer maps to
/// anything, every other key is untouched, and the removed entry comes back.
#[verifier::external_body]
pub(crate) fn monitor_table_remove(m: &mut DashMap<String, MonitorSlot>, key: &str) -> (res: Option<(String, MonitorSlot)>)
    ensures
        monitor_table(*final(m)) == monitor_table(*old(m)).remove(key@),
        res is Some <==> monitor_table(*old(m)).contains_key(key@),
        res matches Some(e) ==> e.0@ == key@ && slot_view(e.1) == monitor_table(*old(m))[key@],
{
    m.remove(key)
}

/// `DashMap::contains_key` on the monitor table.
#[verifier::external_body]
pub(crate) fn monitor_table_contains(m: &DashMap<String, MonitorSlot>, key: &str) -> (res: bool)
    ensures
        res == monitor_table(*m).contains_key(key@),
{
    m.contains_key(key)
}

/// `DashMap::get` on a source table, with the value copied out of the guard.
#[verifier::external_body]
pub(crate) fn source_table_get(m: &DashMap<String, u64>, key: &str) -> (res: Option<u64>)
    ensures
        res is Some <==> source_table(*m).contains_key(key@),
        res matches Some(v) ==> v == source_table(*m)[key@],
{
    m.get(key).map(|entry| *entry.value())
}

/// `DashMap::clear` on a source table: afterwards it holds nothing.
#[verifier::external_body]
pub(crate) fn source_table_clear(m: &mut DashMap<String, u64>)
    ensures
        source_table(*final(m)).dom().is_empty(),
{
    m.clear()
}

/// `DashMap::iter` on the monitor table, each entry copied out of its guard:
/// every entry comes out exactly once, in an order the contract leaves open.
#[verifier::external_body]
pub(crate) fn monitor_table_entries(m: &DashMap<String, MonitorSlot>) -> (res: Vec<(String, MonitorSlot)>)
    ensures
        forall|i: int| #![trigger res[i]] 0 <= i < res.len() ==> monitor_table(*m).contains_key(res[i].0@)
            && monitor_table(*m)[res[i].0@] == slot_view(res[i].1),
        forall|k: Seq<char>| #[trigger] monitor_table(*m).contains_key(k)
            ==> exists|i: int| 0 <= i < res.len() && #[trigger] res[i].0@ == k,
        forall|i: int, j: int| 0 <= i < j < res.len() ==> res[i].0@ != res[j].0@,
{
    m.iter().map(|entry| (entry.key().clone(), entry.value().clone())).collect()
}

} // verus!
