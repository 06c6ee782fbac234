//! Shared tables of handles, by name or by number.

use vstd::prelude::*;
use vstd::string::*;

verus! {

/// Declares `dashmap::DashMap`.
#[verifier::external_type_specification]
#[verifier::external_body]
#[verifier::reject_recursive_types(K)]
#[verifier::reject_recursive_types(V)]
#[verifier::reject_recursive_types(S)]
pub struct ExDashMap<K, V, S>(dashmap::DashMap<K, V, S>);

/// The handles that a map holds, by name.
pub uninterp spec fn live(m: dashmap::DashMap<String, u64>) -> Map<Seq<char>, u64>;

pub open spec fn no_handles() -> Map<Seq<char>, u64> {
    Map::empty()
}

/// A map has `n` entries.
pub open spec fn counts(m: Map<Seq<char>, u64>, n: nat) -> bool {
    m.dom().finite() && m.dom().len() == n
}

/// `dashmap::DashMap::new`: no entries.
#[verifier::external_body]
pub(crate) fn handles_new() -> (r: dashmap::DashMap<String, u64>)
    ensures
        live(r) == no_handles(),
{
    dashmap::DashMap::new()
}

/// What a map has under a key.
pub open spec fn at(m: Map<Seq<char>, u64>, key: Seq<char>) -> Option<u64> {
    if m.contains_key(key) {
        Some(m[key])
    } else {
        None
    }
}

/// `dashmap::DashMap::get`, the value copied out.
#[verifier::external_body]
pub(crate) fn handles_get(m: &dashmap::DashMap<String, u64>, key: &str) -> (r: Option<u64>)
    ensures
        r == at(live(*m), key@),
{
    m.get(key).map(|h| *h)
}

/// `dashmap::DashMap::len`: the number of entries.
#[verifier::external_body]
pub(crate) fn handles_len(m: &dashmap::DashMap<String, u64>) -> (n: usize)
    ensures
        counts(live(*m), n as nat),
{
    m.len()
}

/// `dashmap::DashMap::insert`: the entry is there afterwards, in the place of
/// one that was.
#[verifier::external_body]
pub(crate) fn handles_insert(m: &mut dashmap::DashMap<String, u64>, key: String, handle: u64)
    ensures
        live(*final(m)) == live(*old(m)).insert(key@, handle),
{
    m.insert(key, handle);
}

/// `dashmap::DashMap::remove`: the entry is gone afterwards, and handed out if
/// it was there.
#[verifier::external_body]
pub(crate) fn handles_remove(m: &mut dashmap::DashMap<String, u64>, key: &str) -> (r: Option<u64>)
    ensures
        live(*final(m)) == live(*old(m)).remove(key@),
        r == at(live(*old(m)), key@),
{
    m.remove(key).map(|e| e.1)
}

/// The entries that were walked are those of the map, each once, in any order.
pub open spec fn walks(v: Seq<(String, u64)>, m: Map<Seq<char>, u64>) -> bool {
    &&& forall|i: int| 0 <= i < v.len() ==> m.contains_pair((#[trigger] v[i]).0@, v[i].1)
    &&& forall|i: int, j: int|
        0 <= i < j < v.len() ==> (#[trigger] v[i]).0@ != (#[trigger] v[j]).0@
    &&& forall|k: Seq<char>| #[trigger]
        m.contains_key(k) ==> exists|i: int| 0 <= i < v.len() && (#[trigger] v[i]).0@ == k
}

/// `dashmap::DashMap::iter`, keys and values copied out.
#[verifier::external_body]
pub(crate) fn handles_list(m: &dashmap::DashMap<String, u64>) -> (r: Vec<(String, u64)>)
    ensures
        walks(r@, live(*m)),
{
    m.iter().map(|e| (e.key().clone(), *e.value())).collect()
}

// ── By number ───────────────────────────────────────────────────────────

/// The tickets that a map holds, by number.
pub uninterp spec fn tickets(m: dashmap::DashMap<i64, u64>) -> Map<i64, u64>;

pub open spec fn no_tickets() -> Map<i64, u64> {
    Map::empty()
}

/// What a map has under a number.
pub open spec fn ticket_at(m: Map<i64, u64>, id: i64) -> Option<u64> {
    if m.contains_key(id) {
        Some(m[id])
    } else {
        None
    }
}

/// `dashmap::DashMap::new`: no entries.
#[verifier::external_body]
pub(crate) fn tickets_new() -> (r: dashmap::DashMap<i64, u64>)
    ensures
        tickets(r) == no_tickets(),
{
    dashmap::DashMap::new()
}

/// `dashmap::DashMap::insert`: the entry is there afterwards, in the place of
/// one that was.
#[verifier::external_body]
pub(crate) fn tickets_insert(m: &mut dashmap::DashMap<i64, u64>, id: i64, ticket: u64)
    ensures
        tickets(*final(m)) == tickets(*old(m)).insert(id, ticket),
{
    m.insert(id, ticket);
}

/// `dashmap::DashMap::remove`: the entry is gone afterwards, and handed out if
/// it was there.
#[verifier::external_body]
pub(crate) fn tickets_remove(m: &mut dashmap::DashMap<i64, u64>, id: i64) -> (r: Option<u64>)
    ensures
        tickets(*final(m)) == tickets(*old(m)).remove(id),
        r == ticket_at(tickets(*old(m)), id),
{
    m.remove(&id).map(|e| e.1)
}

} // verus!
