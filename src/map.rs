//! `RandMap`: values stored under random handles.
use crate::handle::Handle;
use crate::iter::{pairs_of, Iter, IterMut};
use crate::table::{
    table_get, table_get_mut, table_insert, table_iter_mut, table_keys, table_len, table_new,
    table_remove, Table,
};
use vstd::prelude::*;
use vstd::std_specs::cmp::PartialEqSpec;

verus! {

/// Relies on `rand::thread_rng` and `Rng::gen`: 64 uniformly random bits.
/// Nothing is known of the value drawn.
#[verifier::external_body]
fn random_u64() -> (r: u64) {
    rand::Rng::gen::<u64>(&mut rand::thread_rng())
}

/// A map that creates a random handle on insertion, to use when retrieving.
///
/// Its view is the finite map from raw handle values to the stored values.
#[derive(Debug)]
pub struct RandMap<V> {
    table: Table<V>,
}

impl<V> View for RandMap<V> {
    type V = Map<u64, V>;

    closed spec fn view(&self) -> Map<u64, V> {
        self.table@
    }
}

impl<V> RandMap<V> {
    /// The map holds finitely many entries.
    pub open spec fn wf(&self) -> bool {
        self@.dom().finite()
    }

    /// Creates an empty map.
    pub fn new() -> (m: Self)
        ensures
            m.wf(),
            m@ == Map::<u64, V>::empty(),
    {
        RandMap { table: table_new() }
    }

    /// Borrows the table under the map, keyed by raw handle values.
    pub fn as_hash_map(&self) -> (t: &Table<V>)
        ensures
            t@ == self@,
    {
        &self.table
    }

    /// Removes every entry.
    pub fn clear(&mut self)
        ensures
            final(self).wf(),
            final(self)@ == Map::<u64, V>::empty(),
    {
        self.table.clear();
    }

    /// The value stored under `handle`, if any.
    pub fn get(&self, handle: Handle<V>) -> (r: Option<&V>)
        ensures
            match r {
                Some(v) => self@.contains_key(handle.raw) && *v == self@[handle.raw],
                None => !self@.contains_key(handle.raw),
            },
    {
        table_get(&self.table, handle.raw)
    }

    /// A mutable place for the value stored under `handle`, if any.
    pub fn get_mut(&mut self, handle: Handle<V>) -> (r: Option<&mut V>)
        requires
            old(self).wf(),
        ensures
            final(self).wf(),
            final(self)@.dom() == old(self)@.dom(),
            match r {
                Some(v) => old(self)@.contains_key(handle.raw) && *v == old(self)@[handle.raw]
                    && final(self)@ == old(self)@.insert(handle.raw, *final(v)),
                None => !old(self)@.contains_key(handle.raw) && final(self)@ == old(self)@,
            },
    {
        table_get_mut(&mut self.table, handle.raw)
    }

    /// Stores `value` under a freshly drawn random handle and returns that
    /// handle. A handle that is already in use is overwritten.
    pub fn insert(&mut self, value: V) -> (h: Handle<V>)
        requires
            old(self).wf(),
        ensures
            final(self).wf(),
            final(self)@ == old(self)@.insert(h.raw, value),
            final(self)@.len() == old(self)@.len() + if old(self)@.contains_key(h.raw) {
                0int
            } else {
                1int
            },
    {
        let key = Handle::from_u64(random_u64());
        self.insert_key_value(key, value);
        key
    }

    /// Stores `value` under `key`, overwriting what was there. The old value
    /// is not returned.
    pub fn insert_key_value(&mut self, key: Handle<V>, value: V)
        requires
            old(self).wf(),
        ensures
            final(self).wf(),
            final(self)@ == old(self)@.insert(key.raw, value),
            final(self)@.len() == old(self)@.len() + if old(self)@.contains_key(key.raw) {
                0int
            } else {
                1int
            },
    {
        table_insert(&mut self.table, key.raw, value);
    }

    /// Every raw handle in use, each once, in the table's own order.
    pub fn keys(&self) -> (ks: Vec<u64>)
        ensures
            ks@.no_duplicates(),
            ks@.to_set() == self@.dom(),
    {
        table_keys(&self.table)
    }

    /// Walks over `(handle, &value)` for every entry, in no set order.
    pub fn iter(&self) -> (it: Iter<'_, V>)
        ensures
            it.wf(),
            it.source() == self@,
            it.remaining().no_duplicates(),
            it.remaining().to_set() == self@.dom(),
    {
        Iter::new(self)
    }

    /// Walks over `(handle, &mut value)` for every entry, in no set order.
    /// Once the walk is over the map holds the same handles, each with the
    /// value last written through its place.
    pub fn iter_mut(&mut self) -> (it: IterMut<'_, V>)
        requires
            old(self).wf(),
        ensures
            lists(pairs_of(it.items@), old(self)@),
            final(self).wf(),
            final(self)@.dom() == old(self)@.dom(),
            forall|i: int|
                0 <= i < it.items@.len() ==> #[trigger] final(self)@[it.items@[i].0]
                    == *final(it.items@[i].1),
    {
        let items = table_iter_mut(&mut self.table);
        let ghost firsts = pairs_of(items@);
        assert forall|i: int| 0 <= i < firsts.len() implies #[trigger] old(self)@.contains_key(
            firsts[i].0,
        ) && old(self)@[firsts[i].0] == firsts[i].1 by {
            assert(old(self)@.contains_key(items@[i].0));
        }
        assert forall|k: u64| #[trigger] old(self)@.contains_key(k) implies exists|i: int|
            0 <= i < firsts.len() && firsts[i].0 == k by {
            let i = choose|i: int| 0 <= i < items@.len() && items@[i].0 == k;
            assert(firsts[i].0 == k);
        }
        IterMut { items }
    }

    /// The number of entries.
    pub fn len(&self) -> (n: usize)
        ensures
            n == self@.len(),
    {
        table_len(&self.table)
    }

    /// Removes and returns the value stored under `handle`, or `None` if
    /// there is none.
    pub fn remove(&mut self, handle: Handle<V>) -> (r: Option<V>)
        requires
            old(self).wf(),
        ensures
            final(self).wf(),
            final(self)@ == old(self)@.remove(handle.raw),
            match r {
                Some(v) => old(self)@.contains_key(handle.raw) && v == old(self)@[handle.raw]
                    && final(self)@.len() == old(self)@.len() - 1,
                None => !old(self)@.contains_key(handle.raw) && final(self)@.len() == old(
                    self,
                )@.len(),
            },
    {
        table_remove(&mut self.table, handle.raw)
    }
}

impl<V: Clone> Clone for RandMap<V> {
    /// A map with the same handles, each holding a clone of the value.
    fn clone(&self) -> (m: Self)
        ensures
            m@ == self@,
    {
        RandMap { table: self.table.clone() }
    }
}

/// The map that results from storing each pair of `s` in turn, starting from
/// the empty map: a later pair wins over an earlier one with the same handle.
pub open spec fn entries_map<V>(s: Seq<(u64, V)>) -> Map<u64, V>
    decreases s.len(),
{
    if s.len() == 0 {
        Map::empty()
    } else {
        entries_map(s.drop_last()).insert(s.last().0, s.last().1)
    }
}

/// The pairs of `s` name pairwise distinct handles.
pub open spec fn distinct_handles<V>(s: Seq<(u64, V)>) -> bool {
    forall|i: int, j: int| 0 <= i < j < s.len() ==> s[i].0 != s[j].0
}

/// `s` lists the entries of `m`: each entry once, in some order.
pub open spec fn lists<V>(s: Seq<(u64, V)>, m: Map<u64, V>) -> bool {
    &&& distinct_handles(s)
    &&& forall|i: int|
        0 <= i < s.len() ==> #[trigger] m.contains_key(s[i].0) && m[s[i].0] == s[i].1
    &&& forall|k: u64|
        #[trigger] m.contains_key(k) ==> exists|i: int| 0 <= i < s.len() && s[i].0 == k
}

impl<V> RandMap<V> {
    /// Hands out every entry as a pair of raw handle and value, each once, in
    /// the table's own order. This is the map's serialized form.
    pub fn into_entries(self) -> (s: Vec<(u64, V)>)
        requires
            self.wf(),
        ensures
            lists(s@, self@),
    {
        let ghost orig = self@;
        let keys = table_keys(&self.table);
        let mut table = self.table;
        let mut out: Vec<(u64, V)> = Vec::new();
        let mut i: usize = 0;
        while i < keys.len()
            invariant
                keys@.no_duplicates(),
                keys@.to_set() == orig.dom(),
                i <= keys.len(),
                out@.len() == i,
                forall|j: int| 0 <= j < i ==> #[trigger] out@[j] == (keys@[j], orig[keys@[j]]),
                forall|k: u64|
                    #[trigger] table@.contains_key(k) <==> orig.contains_key(k) && (forall|j: int|
                        0 <= j < i ==> keys@[j] != k),
                forall|k: u64| #[trigger] table@.contains_key(k) ==> table@[k] == orig[k],
            decreases keys.len() - i,
        {
            let k = keys[i];
            assert(keys@.to_set().contains(k));
            match table_remove(&mut table, k) {
                Some(v) => {
                    out.push((k, v));
                },
                None => {
                    assert(false);
                },
            }
            i = i + 1;
        }
        assert forall|a: int, b: int| 0 <= a < b < out@.len() implies out@[a].0 != out@[b].0 by {
            assert(out@[a] == (keys@[a], orig[keys@[a]]));
            assert(out@[b] == (keys@[b], orig[keys@[b]]));
        }
        assert forall|a: int| 0 <= a < out@.len() implies #[trigger] orig.contains_key(out@[a].0)
            && orig[out@[a].0] == out@[a].1 by {
            assert(out@[a] == (keys@[a], orig[keys@[a]]));
            assert(keys@.to_set().contains(keys@[a]));
        }
        assert forall|k: u64| #[trigger] orig.contains_key(k) implies exists|a: int|
            0 <= a < out@.len() && out@[a].0 == k by {
            assert(keys@.to_set().contains(k));
            let a = choose|a: int| 0 <= a < keys@.len() && keys@[a] == k;
            assert(out@[a] == (keys@[a], orig[keys@[a]]));
        }
        out
    }

    /// Builds the map that storing each pair of `entries` in turn gives: a
    /// later pair wins over an earlier one with the same raw handle.
    pub fn from_entries(entries: Vec<(u64, V)>) -> (m: Self)
        ensures
            m.wf(),
            m@ == entries_map(entries@),
    {
        let ghost whole = entries@;
        let mut rest = entries;
        let mut table: Table<V> = table_new();
        while rest.len() > 0
            invariant
                table@.dom().finite(),
                entries_map(whole) == entries_map(rest@).union_prefer_right(table@),
            decreases rest.len(),
        {
            let ghost before = rest@;
            let (k, v) = rest.pop().unwrap();
            assert(rest@ == before.drop_last());
            let present = match table_get(&table, k) {
                Some(_) => true,
                None => false,
            };
            if present {
                assert(entries_map(before).union_prefer_right(table@) =~= entries_map(
                    rest@,
                ).union_prefer_right(table@));
            } else {
                let ghost old_table = table@;
                table_insert(&mut table, k, v);
                assert(entries_map(before).union_prefer_right(old_table) =~= entries_map(
                    rest@,
                ).union_prefer_right(table@));
            }
        }
        assert(entries_map(rest@).union_prefer_right(table@) =~= table@);
        RandMap { table }
    }
}


/// Two maps are equal when they have the same handles and equal values under
/// each: the order of the entries plays no part.
pub open spec fn same_entries<V: PartialEqSpec>(a: Map<u64, V>, b: Map<u64, V>) -> bool {
    &&& a.len() == b.len()
    &&& forall|k: u64| #[trigger] a.contains_key(k) ==> b.contains_key(k) && a[k].eq_spec(&b[k])
}

/// A finite map whose handles all lie among those of another one of the same
/// size has the same handles.
proof fn lemma_same_dom<V>(a: Map<u64, V>, b: Map<u64, V>)
    requires
        a.dom().finite(),
        b.dom().finite(),
        a.len() == b.len(),
        forall|k: u64| #[trigger] a.contains_key(k) ==> b.contains_key(k),
    ensures
        a.dom() == b.dom(),
{
    vstd::set_lib::lemma_subset_equality(a.dom(), b.dom());
}

impl<V: PartialEq + PartialEqSpec> PartialEq for RandMap<V> {
    /// Whatever `V`'s `==` does, maps of different sizes or with different
    /// handles are unequal.
    fn eq(&self, other: &Self) -> (r: bool)
        ensures
            self@.len() != other@.len() ==> !r,
            r ==> self@.dom() == other@.dom(),
    {
        if table_len(&self.table) != table_len(&other.table) {
            return false;
        }
        let keys = table_keys(&self.table);
        let mut i: usize = 0;
        while i < keys.len()
            invariant
                keys@.to_set() == self@.dom(),
                self@.len() == other@.len(),
                i <= keys.len(),
                forall|j: int| 0 <= j < i ==> other@.contains_key(#[trigger] keys@[j]),
                V::obeys_eq_spec() ==> forall|j: int|
                    0 <= j < i ==> self@[#[trigger] keys@[j]].eq_spec(&other@[keys@[j]]),
            decreases keys.len() - i,
        {
            let k = keys[i];
            assert(keys@.to_set().contains(k));
            let mine = match table_get(&self.table, k) {
                Some(v) => v,
                None => {
                    return false;
                },
            };
            let theirs = match table_get(&other.table, k) {
                Some(v) => v,
                None => {
                    return false;
                },
            };
            if !(*mine == *theirs) {
                return false;
            }
            i = i + 1;
        }
        assert forall|k: u64| #[trigger] self@.contains_key(k) implies other@.contains_key(k) && (
        V::obeys_eq_spec() ==> self@[k].eq_spec(&other@[k])) by {
            assert(keys@.to_set().contains(k));
            let j = choose|j: int| 0 <= j < keys@.len() && keys@[j] == k;
            assert(other@.contains_key(keys@[j]));
            assert(V::obeys_eq_spec() ==> self@[keys@[j]].eq_spec(&other@[keys@[j]]));
        }
        let others = table_keys(&other.table);
        proof {
            vstd::seq_lib::seq_to_set_is_finite(keys@);
            vstd::seq_lib::seq_to_set_is_finite(others@);
            lemma_same_dom(self@, other@);
        }
        true
    }
}

impl<V: PartialEq + PartialEqSpec> vstd::std_specs::cmp::PartialEqSpecImpl for RandMap<V> {
    open spec fn obeys_eq_spec() -> bool {
        V::obeys_eq_spec()
    }

    open spec fn eq_spec(&self, other: &Self) -> bool {
        same_entries(self@, other@)
    }
}

} // verus!
