//! What holds of a `RandMap` across several operations.
use crate::map::{distinct_handles, entries_map, lists, same_entries, RandMap};
use vstd::prelude::*;
use vstd::std_specs::cmp::PartialEqSpec;

verus! {

/// The raw handles that the pairs of `s` name.
pub open spec fn handles_of<V>(s: Seq<(u64, V)>) -> Set<u64> {
    s.map_values(|p: (u64, V)| p.0).to_set()
}

/// Storing the pairs of `s` in turn fills exactly the handles that they name.
proof fn lemma_entries_dom<V>(s: Seq<(u64, V)>)
    ensures
        entries_map(s).dom() == handles_of(s),
    decreases s.len(),
{
    if s.len() > 0 {
        lemma_entries_dom(s.drop_last());
        let hs = handles_of(s);
        let hp = handles_of(s.drop_last());
        assert forall|k: u64| hs.contains(k) <==> hp.insert(s.last().0).contains(k) by {
            let m = s.map_values(|p: (u64, V)| p.0);
            let mp = s.drop_last().map_values(|p: (u64, V)| p.0);
            if hs.contains(k) {
                let i = choose|i: int| 0 <= i < m.len() && m[i] == k;
                if i < s.len() - 1 {
                    assert(mp[i] == k);
                }
            }
            if hp.contains(k) {
                let i = choose|i: int| 0 <= i < mp.len() && mp[i] == k;
                assert(m[i] == k);
            }
            if k == s.last().0 {
                assert(m[s.len() - 1] == k);
            }
        }
        assert(hs =~= hp.insert(s.last().0));
    }
}

/// The number of entries counts every handle stored, and a handle stored
/// twice (a collision) only once.
pub proof fn law_len_counts_handles<V>(s: Seq<(u64, V)>)
    ensures
        entries_map(s).len() == handles_of(s).len(),
{
    lemma_entries_dom(s);
}

/// Storing a value under a handle and then looking that handle up finds the
/// value.
pub proof fn law_get_after_insert<V>(m: RandMap<V>, h: u64, v: V)
    ensures
        m@.insert(h, v).contains_key(h),
        m@.insert(h, v)[h] == v,
{
}

/// After a handle is removed, looking it up finds nothing.
pub proof fn law_get_after_remove<V>(m: RandMap<V>, h: u64)
    ensures
        !m@.remove(h).contains_key(h),
{
}

/// Rebuilding a map from a listing of its entries gives the map back,
/// whatever the order of the listing.
pub proof fn law_round_trip<V>(s: Seq<(u64, V)>, m: Map<u64, V>)
    requires
        lists(s, m),
    ensures
        entries_map(s) == m,
    decreases s.len(),
{
    if s.len() == 0 {
        assert(entries_map(s) =~= m);
    } else {
        let k = s.last().0;
        let rest = s.drop_last();
        let smaller = m.remove(k);
        assert forall|i: int| 0 <= i < rest.len() implies #[trigger] smaller.contains_key(rest[i].0)
            && smaller[rest[i].0] == rest[i].1 by {
            assert(s[i] == rest[i]);
            assert(m.contains_key(s[i].0));
        }
        assert forall|x: u64| #[trigger] smaller.contains_key(x) implies exists|i: int|
            0 <= i < rest.len() && rest[i].0 == x by {
            assert(m.contains_key(x));
            let i = choose|i: int| 0 <= i < s.len() && s[i].0 == x;
            assert(rest[i] == s[i]);
        }
        assert(m.contains_key(s[s.len() - 1].0));
        law_round_trip(rest, smaller);
        assert(entries_map(s) =~= m);
    }
}

/// Pairs with distinct handles are each found under their handle once
/// stored, and nothing else is.
proof fn lemma_lists_stored<V>(s: Seq<(u64, V)>)
    requires
        distinct_handles(s),
    ensures
        lists(s, entries_map(s)),
    decreases s.len(),
{
    if s.len() > 0 {
        let rest = s.drop_last();
        assert(distinct_handles(rest)) by {
            assert forall|i: int, j: int| 0 <= i < j < rest.len() implies rest[i].0
                != rest[j].0 by {
                assert(rest[i] == s[i] && rest[j] == s[j]);
            }
        }
        lemma_lists_stored(rest);
        let m = entries_map(s);
        assert forall|i: int| 0 <= i < s.len() implies #[trigger] m.contains_key(s[i].0)
            && m[s[i].0] == s[i].1 by {
            if i < s.len() - 1 {
                assert(rest[i] == s[i]);
                assert(entries_map(rest).contains_key(rest[i].0));
            }
        }
        assert forall|x: u64| #[trigger] m.contains_key(x) implies exists|i: int|
            0 <= i < s.len() && s[i].0 == x by {
            if x != s.last().0 {
                assert(entries_map(rest).contains_key(x));
                let i = choose|i: int| 0 <= i < rest.len() && rest[i].0 == x;
                assert(s[i] == rest[i]);
            } else {
                assert(s[s.len() - 1].0 == x);
            }
        }
    }
}

/// Storing the same pairs, with distinct handles, in any two orders gives the
/// same map.
pub proof fn law_insert_order<V>(s: Seq<(u64, V)>, t: Seq<(u64, V)>)
    requires
        distinct_handles(s),
        distinct_handles(t),
        s.to_set() == t.to_set(),
    ensures
        entries_map(s) == entries_map(t),
{
    lemma_lists_stored(s);
    let m = entries_map(s);
    assert forall|i: int| 0 <= i < t.len() implies #[trigger] m.contains_key(t[i].0) && m[t[i].0]
        == t[i].1 by {
        assert(t.to_set().contains(t[i]));
        assert(s.to_set().contains(t[i]));
        let j = choose|j: int| 0 <= j < s.len() && s[j] == t[i];
        assert(m.contains_key(s[j].0));
    }
    assert forall|x: u64| #[trigger] m.contains_key(x) implies exists|i: int|
        0 <= i < t.len() && t[i].0 == x by {
        let j = choose|j: int| 0 <= j < s.len() && s[j].0 == x;
        assert(s.to_set().contains(s[j]));
        assert(t.to_set().contains(s[j]));
        let i = choose|i: int| 0 <= i < t.len() && t[i] == s[j];
        assert(t[i].0 == x);
    }
    law_round_trip(t, m);
}

/// A map equals itself, where each value equals itself.
pub proof fn law_eq_reflexive<V: PartialEqSpec>(m: Map<u64, V>)
    requires
        forall|v: V| #[trigger] v.eq_spec(&v),
    ensures
        same_entries(m, m),
{
}

/// One call that changes a map: `insert_key_value` (or an `insert` that
/// returned the handle) storing a value, or `remove` taking a handle out.
pub enum Step<V> {
    Store(u64, V),
    Take(u64),
}

/// The map that the calls of `steps`, made in turn on `m`, leave.
pub open spec fn run<V>(m: Map<u64, V>, steps: Seq<Step<V>>) -> Map<u64, V>
    decreases steps.len(),
{
    if steps.len() == 0 {
        m
    } else {
        let before = run(m, steps.drop_last());
        match steps.last() {
            Step::Store(h, v) => before.insert(h, v),
            Step::Take(h) => before.remove(h),
        }
    }
}

/// How many of `steps` store a value.
pub open spec fn stores<V>(steps: Seq<Step<V>>) -> nat
    decreases steps.len(),
{
    if steps.len() == 0 {
        0
    } else {
        stores(steps.drop_last()) + if steps.last() is Store {
            1nat
        } else {
            0nat
        }
    }
}

/// How many of `steps`, made in turn on `m`, store under a handle already
/// in use: a collision or an overwrite.
pub open spec fn overwrites<V>(m: Map<u64, V>, steps: Seq<Step<V>>) -> nat
    decreases steps.len(),
{
    if steps.len() == 0 {
        0
    } else {
        overwrites(m, steps.drop_last()) + match steps.last() {
            Step::Store(h, _) => if run(m, steps.drop_last()).contains_key(h) {
                1nat
            } else {
                0nat
            },
            Step::Take(_) => 0nat,
        }
    }
}

/// How many of `steps`, made in turn on `m`, remove a handle that is in use,
/// that is, how many of the `remove` calls return `Some`.
pub open spec fn hits<V>(m: Map<u64, V>, steps: Seq<Step<V>>) -> nat
    decreases steps.len(),
{
    if steps.len() == 0 {
        0
    } else {
        hits(m, steps.drop_last()) + match steps.last() {
            Step::Take(h) => if run(m, steps.drop_last()).contains_key(h) {
                1nat
            } else {
                0nat
            },
            Step::Store(_, _) => 0nat,
        }
    }
}

/// After any sequence of calls the number of entries is what it was, plus
/// the values stored, less those stored under a handle in use, less the
/// removals that found something.
pub proof fn law_len_counts_calls<V>(m: Map<u64, V>, steps: Seq<Step<V>>)
    requires
        m.dom().finite(),
    ensures
        run(m, steps).dom().finite(),
        run(m, steps).len() == m.len() + stores(steps) - overwrites(m, steps) - hits(m, steps),
    decreases steps.len(),
{
    if steps.len() > 0 {
        law_len_counts_calls(m, steps.drop_last());
    }
}

/// Once a handle is removed, it stays absent through any later calls that do
/// not store under it.
pub proof fn law_absent_after_remove<V>(m: Map<u64, V>, h: u64, later: Seq<Step<V>>)
    requires
        forall|i: int|
            0 <= i < later.len() ==> !(#[trigger] later[i] matches Step::Store(g, _) && g == h),
    ensures
        !run(m.remove(h), later).contains_key(h),
    decreases later.len(),
{
    if later.len() > 0 {
        let rest = later.drop_last();
        assert forall|i: int| 0 <= i < rest.len() implies !(#[trigger] rest[i] matches Step::Store(
            g,
            _,
        ) && g == h) by {
            assert(rest[i] == later[i]);
        }
        law_absent_after_remove(m, h, rest);
        assert(later[later.len() - 1] == later.last());
    }
}

/// The calls that store each pair of `s` in turn.
pub open spec fn store_all<V>(s: Seq<(u64, V)>) -> Seq<Step<V>> {
    s.map_values(|p: (u64, V)| Step::Store(p.0, p.1))
}

/// Storing the pairs of `s` in turn into an empty map gives `entries_map(s)`.
pub proof fn law_store_all<V>(s: Seq<(u64, V)>)
    ensures
        run(Map::empty(), store_all(s)) == entries_map(s),
    decreases s.len(),
{
    if s.len() > 0 {
        law_store_all(s.drop_last());
        assert(store_all(s).drop_last() =~= store_all(s.drop_last()));
    }
}

/// Two maps built from empty by storing the same pairs, with distinct
/// handles, in different orders are equal under `==`, where each value
/// equals itself.
pub proof fn law_insert_order_eq<V: PartialEqSpec>(s: Seq<(u64, V)>, t: Seq<(u64, V)>)
    requires
        distinct_handles(s),
        distinct_handles(t),
        s.to_set() == t.to_set(),
        forall|v: V| #[trigger] v.eq_spec(&v),
    ensures
        run(Map::empty(), store_all(s)) == run(Map::empty(), store_all(t)),
        same_entries(run(Map::empty(), store_all(s)), run(Map::empty(), store_all(t))),
{
    law_store_all(s);
    law_store_all(t);
    law_insert_order(s, t);
}

/// Rebuilding a map from a listing of its entries gives a map equal to it
/// under `==`, where each value equals itself.
pub proof fn law_round_trip_eq<V: PartialEqSpec>(s: Seq<(u64, V)>, m: Map<u64, V>)
    requires
        lists(s, m),
        forall|v: V| #[trigger] v.eq_spec(&v),
    ensures
        same_entries(entries_map(s), m),
        same_entries(m, entries_map(s)),
{
    law_round_trip(s, m);
}

} // verus!
