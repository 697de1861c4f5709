//! The storage under a `RandMap`: a std `HashMap` keyed by raw handle values
//! that hashes with the pass-through hasher of the `hashers` crate, so that
//! already random keys are not mixed again.
//!
//! vstd specifies `HashMap` only for hash builders that it knows to be
//! deterministic, which it cannot know of an outside one. A `u64` key and a
//! hasher whose output is a function of the bytes written make a plain
//! finite map, and the functions below state each method on that view.
use hashers::null::PassThroughHasher;
use std::collections::HashMap;
use std::hash::BuildHasherDefault;
use vstd::prelude::*;

verus! {

#[verifier::external_type_specification]
#[verifier::external_body]
pub struct ExPassThroughHasher(PassThroughHasher);

#[verifier::external_type_specification]
#[verifier::external_body]
#[verifier::reject_recursive_types(H)]
pub struct ExBuildHasherDefault<H>(BuildHasherDefault<H>);

/// Builds the pass-through hasher, which keeps the last eight bytes written.
pub type PassThrough = BuildHasherDefault<PassThroughHasher>;

/// A hash table from raw handle values to values.
pub type Table<V> = HashMap<u64, V, PassThrough>;

/// An empty table.
pub fn table_new<V>() -> (t: Table<V>)
    ensures
        t@ == Map::<u64, V>::empty(),
{
    HashMap::default()
}

/// Relies on `HashMap::insert`: afterwards `k` maps to `v`, all else is kept.
#[verifier::external_body]
pub fn table_insert<V>(t: &mut Table<V>, k: u64, v: V)
    ensures
        final(t)@ == old(t)@.insert(k, v),
{
    t.insert(k, v);
}

/// Relies on `HashMap::get`: the value under `k`, if there is one.
#[verifier::external_body]
pub fn table_get<'a, V>(t: &'a Table<V>, k: u64) -> (r: Option<&'a V>)
    ensures
        match r {
            Some(v) => t@.contains_key(k) && *v == t@[k],
            None => !t@.contains_key(k),
        },
{
    t.get(&k)
}

/// Relies on `HashMap::get_mut`: a place for the value under `k`, if there
/// is one; what is written there is what the table then holds under `k`.
#[verifier::external_body]
pub fn table_get_mut<'a, V>(t: &'a mut Table<V>, k: u64) -> (r: Option<&'a mut V>)
    ensures
        final(t)@.dom() == old(t)@.dom(),
        match r {
            Some(v) => old(t)@.contains_key(k) && *v == old(t)@[k] && final(t)@ == old(t)@.insert(
                k,
                *final(v),
            ),
            None => !old(t)@.contains_key(k) && final(t)@ == old(t)@,
        },
{
    t.get_mut(&k)
}

/// Relies on `HashMap::remove`: takes out the value under `k`, if there is one.
#[verifier::external_body]
pub fn table_remove<V>(t: &mut Table<V>, k: u64) -> (r: Option<V>)
    ensures
        final(t)@ == old(t)@.remove(k),
        match r {
            Some(v) => old(t)@.contains_key(k) && v == old(t)@[k],
            None => !old(t)@.contains_key(k),
        },
{
    t.remove(&k)
}

/// Relies on `HashMap::len`: the number of keys.
#[verifier::external_body]
pub fn table_len<V>(t: &Table<V>) -> (n: usize)
    ensures
        n == t@.len(),
{
    t.len()
}

/// Relies on `HashMap::keys`: every key once, in the table's own order.
#[verifier::external_body]
pub fn table_keys<V>(t: &Table<V>) -> (ks: Vec<u64>)
    ensures
        ks@.no_duplicates(),
        ks@.to_set() == t@.dom(),
{
    t.keys().copied().collect()
}

/// Relies on `HashMap::iter_mut`: every key once, in the table's own order,
/// with a place for its value; no key is added or taken away, and what is
/// written to each place is what the table then holds under that key.
#[verifier::external_body]
pub fn table_iter_mut<'a, V>(t: &'a mut Table<V>) -> (r: Vec<(u64, &'a mut V)>)
    ensures
        forall|i: int, j: int| 0 <= i < j < r@.len() ==> r@[i].0 != r@[j].0,
        forall|i: int|
            0 <= i < r@.len() ==> #[trigger] old(t)@.contains_key(r@[i].0) && *r@[i].1 == old(
                t,
            )@[r@[i].0],
        forall|k: u64|
            #[trigger] old(t)@.contains_key(k) ==> exists|i: int| 0 <= i < r@.len() && r@[i].0 == k,
        final(t)@.dom() == old(t)@.dom(),
        forall|i: int| 0 <= i < r@.len() ==> #[trigger] final(t)@[r@[i].0] == *final(r@[i].1),
{
    t.iter_mut().map(|(k, v)| (*k, v)).collect()
}

} // verus!
