
use rand_map::{Handle, RandMap};

#[test]
fn scenario_insert_clear_mutate_remove() {
    let mut map: RandMap<String> = RandMap::new();
    let a = map.insert("foo".to_string());
    let b = map.insert("bar".to_string());
    assert_ne!(a, b);
    map.clear();
    assert_eq!(map.len(), 0);
    assert!(map.get(a).is_none());
    let a2 = map.insert("foo".to_string());
    let b2 = map.insert("bar".to_string());
    assert_eq!(map.len(), 2);
    map.get_mut(b2).unwrap().push_str("_more");
    assert_eq!(map.get(b2).unwrap(), "bar_more");
    assert_eq!(map.remove(a2), Some("foo".to_string()));
    assert!(map.get(a2).is_none());
}

#[test]
fn scenario_fixed_handle() {
    let mut map: RandMap<String> = RandMap::new();
    map.insert_key_value(Handle::from(4711), "baz".to_string());
    assert_eq!(map.get(Handle::from(4711)), Some(&"baz".to_string()));
    map.remove(Handle::from(4711));
    assert!(map.get(Handle::from(4711)).is_none());
}

#[test]
fn handle_raw_value_round_trips() {
    let h: Handle<String> = Handle::from_u64(4711);
    assert_eq!(h.as_u64(), 4711);
    let u: u64 = h.into();
    assert_eq!(u, 4711);
    let g: Handle<String> = Handle::from(u64::MAX);
    assert_eq!(g.as_u64(), u64::MAX);
    assert!(h < g);
    assert!(h == h.clone());
}

#[test]
fn get_after_insert_finds_value() {
    let mut map: RandMap<u32> = RandMap::new();
    let h = map.insert(7);
    assert_eq!(map.get(h), Some(&7));
}

#[test]
fn get_after_remove_finds_nothing() {
    let mut map: RandMap<u32> = RandMap::new();
    let h = map.insert(7);
    assert_eq!(map.remove(h), Some(7));
    assert_eq!(map.get(h), None);
    assert_eq!(map.remove(h), None);
    assert_eq!(map.len(), 0);
}

#[test]
fn consecutive_handles_differ() {
    let mut map: RandMap<u32> = RandMap::new();
    let mut equal = 0;
    for i in 0..1000u32 {
        let a = map.insert(i);
        let b = map.insert(i);
        if a == b {
            equal += 1;
        }
    }
    assert_eq!(equal, 0);
    assert_eq!(map.len(), 2000);
}

#[test]
fn len_counts_inserts_and_removes() {
    let mut map: RandMap<&str> = RandMap::new();
    map.insert_key_value(Handle::from(1), "a");
    map.insert_key_value(Handle::from(2), "b");
    map.insert_key_value(Handle::from(1), "c");
    assert_eq!(map.len(), 2);
    assert_eq!(map.get(Handle::from(1)), Some(&"c"));
    map.remove(Handle::from(3));
    assert_eq!(map.len(), 2);
    map.remove(Handle::from(2));
    assert_eq!(map.len(), 1);
}

#[test]
fn empty_map() {
    let map: RandMap<String> = RandMap::new();
    assert_eq!(map.len(), 0);
    assert!(map.as_hash_map().is_empty());
    assert!(map.get(Handle::from(0)).is_none());
    assert!(map.iter().next().is_none());
    assert!(map == RandMap::new());
}

#[test]
fn equality_ignores_insertion_order() {
    let mut m: RandMap<String> = RandMap::new();
    let mut n: RandMap<String> = RandMap::new();
    m.insert_key_value(Handle::from(1), "one".to_string());
    m.insert_key_value(Handle::from(2), "two".to_string());
    m.insert_key_value(Handle::from(3), "three".to_string());
    n.insert_key_value(Handle::from(3), "three".to_string());
    n.insert_key_value(Handle::from(1), "one".to_string());
    n.insert_key_value(Handle::from(2), "two".to_string());
    assert!(m == m);
    assert!(m == n);
    assert!(m == m.clone());
    n.get_mut(Handle::from(2)).unwrap().push('!');
    assert!(m != n);
    n.remove(Handle::from(2));
    assert!(m != n);
    let mut k: RandMap<String> = RandMap::new();
    k.insert_key_value(Handle::from(1), "one".to_string());
    k.insert_key_value(Handle::from(2), "two".to_string());
    k.insert_key_value(Handle::from(4), "three".to_string());
    assert!(m != k);
}

#[test]
fn round_trip_through_entries() {
    let mut m: RandMap<String> = RandMap::new();
    let a = m.insert("foo".to_string());
    let b = m.insert("bar".to_string());
    m.insert_key_value(Handle::from(4711), "baz".to_string());
    let copy = m.clone();
    let entries = m.into_entries();
    assert_eq!(entries.len(), 3);
    assert!(entries.contains(&(4711, "baz".to_string())));
    assert!(entries.contains(&(a.as_u64(), "foo".to_string())));
    let back: RandMap<String> = RandMap::from_entries(entries);
    assert!(back == copy);
    assert_eq!(back.get(b).unwrap(), "bar");
}

#[test]
fn from_entries_later_pair_wins() {
    let m: RandMap<u8> = RandMap::from_entries(vec![(5, 1), (6, 2), (5, 3)]);
    assert_eq!(m.len(), 2);
    assert_eq!(m.get(Handle::from(5)), Some(&3));
    assert_eq!(m.get(Handle::from(6)), Some(&2));
    let empty: RandMap<u8> = RandMap::from_entries(Vec::new());
    assert_eq!(empty.len(), 0);

}

#[test]
fn iter_visits_each_entry_once() {
    let mut map: RandMap<String> = RandMap::new();
    let foo = map.insert("foo".to_string());
    let bar = map.insert("bar".to_string());
    let mut seen = Vec::new();
    let mut it = map.iter();
    while let Some((h, v)) = it.next() {
        if h == bar {
            assert_eq!(v, "bar");
        }
        seen.push(h.as_u64());
    }
    seen.sort();
    let mut want = vec![foo.as_u64(), bar.as_u64()];
    want.sort();
    assert_eq!(seen, want);
    let mut keys = map.keys();
    keys.sort();
    assert_eq!(keys, want);
}

#[test]
fn iter_mut_changes_values_in_place() {
    let mut map: RandMap<String> = RandMap::new();
    let foo = map.insert("foo".to_string());
    let bar = map.insert("bar".to_string());
    let mut count = 0;
    let mut it = map.iter_mut();
    while let Some((h, v)) = it.next() {
        assert!(h == foo || h == bar);
        v.push_str("_more");
        count += 1;
    }
    assert_eq!(count, 2);
    let r = map.get_mut(bar);
    assert!(r.is_some());
    r.unwrap().push_str("_and_more");
    assert_eq!(map.remove(foo).unwrap(), "foo_more");
    assert_eq!(map.get(bar).unwrap(), "bar_more_and_more");
    assert!(map.as_hash_map().contains_key(&bar.as_u64()));
    assert_eq!(map.len(), 1);
}

#[test]
fn handles_order_and_hash_by_raw_value() {
    let mut ordered = std::collections::BTreeSet::new();
    let mut hashed = std::collections::HashSet::new();
    for u in [9u64, 3, 9, 1] {
        let h: Handle<String> = Handle::from_u64(u);
        ordered.insert(h);
        hashed.insert(h);
    }
    let raw: Vec<u64> = ordered.iter().map(|h| h.as_u64()).collect();
    assert_eq!(raw, vec![1, 3, 9]);
    assert_eq!(hashed.len(), 3);
    assert!(Handle::<String>::from_u64(2) > Handle::from_u64(1));
}

#[test]
fn iter_mut_keeps_handles_and_writes_values() {
    let mut map: RandMap<u32> = RandMap::new();
    for u in 0..5u64 {
        map.insert_key_value(Handle::from(u), u as u32);
    }
    let mut it = map.iter_mut();
    while let Some((h, v)) = it.next() {
        *v += 10 * h.as_u64() as u32;
    }
    assert_eq!(map.len(), 5);
    for u in 0..5u64 {
        assert_eq!(map.get(Handle::from(u)), Some(&(11 * u as u32)));
    }
}
