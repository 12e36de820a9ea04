//! The pool's page table: a map from resident page identifier to frame index.
//!
//! The table is a `dashmap::DashMap`, a sharded hash map safe for concurrent
//! lookup and insertion without an external coarse lock. Its entries are
//! named by the uninterpreted function [`table_entries`], and the handful of
//! operations the pool needs are specified over that name by trusted
//! wrappers; everything built on top of them is verified.

use vstd::prelude::*;

verus! {

#[verifier::external_type_specification]
#[verifier::external_body]
#[verifier::reject_recursive_types(K)]
#[verifier::reject_recursive_types(V)]
#[verifier::reject_recursive_types(S)]
pub struct ExDashMap<K, V, S>(dashmap::DashMap<K, V, S>);

/// The entries a page table currently holds.
pub uninterp spec fn table_entries(m: dashmap::DashMap<usize, usize>) -> Map<usize, usize>;

/// Relies on dashmap::DashMap::new: creates an empty map.
#[verifier::external_body]
pub(crate) fn table_new() -> (r: dashmap::DashMap<usize, usize>)
    ensures
        forall|k: usize| !table_entries(r).dom().contains(k),
{
    dashmap::DashMap::new()
}

/// Relies on dashmap::DashMap::get: returns the value `key` is mapped to, if
/// any.
#[verifier::external_body]
pub(crate) fn table_get(m: &dashmap::DashMap<usize, usize>, key: usize) -> (r: Option<usize>)
    ensures
        r == if table_entries(*m).dom().contains(key) {
            Some(table_entries(*m)[key])
        } else {
            None::<usize>
        },
{
    m.get(&key).map(|v| *v)
}

/// Relies on dashmap::DashMap::insert: maps `key` to `value`, returning the
/// value `key` was mapped to before, if any.
#[verifier::external_body]
pub(crate) fn table_insert(m: &mut dashmap::DashMap<usize, usize>, key: usize, value: usize) -> (r:
    Option<usize>)
    ensures
        table_entries(*final(m)) == table_entries(*old(m)).insert(key, value),
        r == if table_entries(*old(m)).dom().contains(key) {
            Some(table_entries(*old(m))[key])
        } else {
            None::<usize>
        },
{
    m.insert(key, value)
}

/// Relies on dashmap::DashMap::remove: unmaps `key`, returning the value it
/// was mapped to, if any.
#[verifier::external_body]
pub(crate) fn table_remove(m: &mut dashmap::DashMap<usize, usize>, key: usize) -> (r: Option<
    usize,
>)
    ensures
        table_entries(*final(m)) == table_entries(*old(m)).remove(key),
        r == if table_entries(*old(m)).dom().contains(key) {
            Some(table_entries(*old(m))[key])
        } else {
            None::<usize>
        },
{
    m.remove(&key).map(|kv| kv.1)
}

} // verus!
