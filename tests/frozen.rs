use std::collections::hash_map::DefaultHasher;
use std::collections::{HashMap, HashSet};
use std::hash::{Hash, Hasher};

use frozenset::map::FrozenMap;
use frozenset::set::FrozenSet;
use frozenset::Freeze;

fn hash_of<T: Hash>(value: &T) -> u64 {
    let mut state = DefaultHasher::new();
    value.hash(&mut state);
    state.finish()
}

fn map_of(entries: &[(u64, u64)]) -> HashMap<u64, u64> {
    let mut m = HashMap::new();
    for (k, v) in entries {
        m.insert(*k, *v);
    }
    m
}

fn set_of(elements: &[i32]) -> HashSet<i32> {
    let mut s = HashSet::new();
    for e in elements {
        s.insert(*e);
    }
    s
}

#[test]
fn map_round_trip_keeps_entries() {
    let original = map_of(&[(1, 2), (3, 4), (5, 6)]);
    let back = original.clone().freeze().thaw();
    assert_eq!(back, original);
}

#[test]
fn set_round_trip_keeps_elements() {
    let original = set_of(&[1, 2, 3]);
    let back = original.clone().freeze().thaw();
    assert_eq!(back, original);
}

#[test]
fn map_hash_ignores_insertion_order() {
    let a = map_of(&[(1, 10), (2, 20), (3, 30), (4, 40)]).freeze();
    let b = map_of(&[(4, 40), (2, 20), (3, 30), (1, 10)]).freeze();
    assert_eq!(a.digest(), b.digest());
    assert_eq!(hash_of(&a), hash_of(&b));
}

#[test]
fn set_hash_ignores_insertion_order() {
    let a = set_of(&[5, -7, 11, 0]).freeze();
    let b = set_of(&[0, 11, 5, -7]).freeze();
    assert_eq!(a.digest(), b.digest());
    assert_eq!(hash_of(&a), hash_of(&b));
}

#[test]
fn equal_maps_hash_equal() {
    let a = map_of(&[(7, 8), (9, 10)]).freeze();
    let b = map_of(&[(9, 10), (7, 8)]).freeze();
    assert!(a == b);
    assert_eq!(hash_of(&a), hash_of(&b));
}

#[test]
fn map_equality_is_entry_equality() {
    assert!(map_of(&[(1, 2), (3, 4)]).freeze() == map_of(&[(3, 4), (1, 2)]).freeze());
    assert!(map_of(&[(1, 2)]).freeze() != map_of(&[(1, 3)]).freeze());
    assert!(map_of(&[]).freeze() == map_of(&[]).freeze());
}

#[test]
fn maps_with_different_keys_differ() {
    assert!(map_of(&[(1, 2)]).freeze() != map_of(&[(2, 2)]).freeze());
    assert!(map_of(&[(1, 2)]).freeze() != map_of(&[(1, 2), (3, 4)]).freeze());
}

#[test]
fn empty_wrappers_hash_equal() {
    let a: FrozenMap<u64, u64> = FrozenMap::new();
    let b: FrozenMap<u64, u64> = FrozenMap::default();
    assert_eq!(a.digest(), 0);
    assert_eq!(b.digest(), 0);
    assert_eq!(hash_of(&a), hash_of(&b));
    let c: FrozenSet<i32> = FrozenSet::new();
    let d: FrozenSet<i32> = HashSet::new().freeze();
    assert_eq!(c.digest(), 0);
    assert_eq!(hash_of(&c), hash_of(&d));
}

#[test]
fn wrapper_hash_is_the_hash_of_its_digest() {
    let m = map_of(&[(1, 2), (3, 4)]).freeze();
    assert_eq!(hash_of(&m), hash_of(&m.digest()));
    let s = set_of(&[1, 2, 3]).freeze();
    assert_eq!(hash_of(&s), hash_of(&s.digest()));
}

#[test]
fn digest_depends_on_contents() {
    let one = map_of(&[(1, 2)]).freeze();
    let other = map_of(&[(1, 3)]).freeze();
    assert_ne!(one.digest(), 0);
    assert_ne!(one.digest(), other.digest());
    let s = set_of(&[42]).freeze();
    assert_ne!(s.digest(), 0);
}

#[test]
fn read_through_fidelity() {
    let mut m: HashMap<&str, i32> = HashMap::new();
    m.insert("a", 1);
    m.insert("b", 2);
    let frozen = m.freeze();
    assert!(frozen.contains_key(&"a"));
    assert!(!frozen.contains_key(&"c"));
    assert_eq!(frozen[&"a"], 1);
    assert_eq!(frozen.get(&"b"), Some(&2));
    assert_eq!(frozen.get(&"c"), None);
    assert_eq!(frozen.len(), 2);
    assert!(!frozen.is_empty());
    assert_eq!(frozen.as_map().get("a"), Some(&1));
}

#[test]
fn set_equality_and_hash() {
    let a = set_of(&[1, 2, 3]).freeze();
    let b = set_of(&[3, 2, 1]).freeze();
    assert!(a == b);
    assert_eq!(hash_of(&a), hash_of(&b));
    assert!(a != set_of(&[1, 2]).freeze());
    assert!(a.contains(&2));
    assert!(!a.contains(&4));
    assert_eq!(a.len(), 3);
}

#[test]
fn frozen_maps_serve_as_keys() {
    let mut map_of_maps: HashMap<FrozenMap<u64, u64>, i32> = HashMap::new();
    map_of_maps.insert(map_of(&[(1, 2), (3, 4)]).freeze(), 7);
    assert_eq!(map_of_maps.get(&map_of(&[(3, 4), (1, 2)]).freeze()), Some(&7));
    let mut set_of_sets: HashSet<FrozenSet<i32>> = HashSet::new();
    set_of_sets.insert(set_of(&[1, 2]).freeze());
    set_of_sets.insert(set_of(&[2, 1]).freeze());
    assert_eq!(set_of_sets.len(), 1);
}

#[test]
fn from_and_default_construct_wrappers() {
    let m: FrozenMap<u64, u64> = FrozenMap::from(map_of(&[(1, 2)]));
    assert_eq!(m[&1], 2);
    let s: FrozenSet<i32> = FrozenSet::from(set_of(&[9]));
    assert!(s.contains(&9));
    let e: FrozenSet<i32> = FrozenSet::default();
    assert!(e.is_empty());
}

#[test]
fn small_key_types_hash_consistently() {
    let mut a: HashMap<u8, bool> = HashMap::new();
    a.insert(1, true);
    a.insert(2, false);
    let mut b: HashMap<u8, bool> = HashMap::new();
    b.insert(2, false);
    b.insert(1, true);
    assert_eq!(hash_of(&a.freeze()), hash_of(&b.freeze()));
}

#[test]
fn from_entries_keeps_the_last_value_for_a_key() {
    let m = FrozenMap::from_entries(vec![(1u64, 10u64), (2, 20), (1, 11)]);
    assert_eq!(m.len(), 2);
    assert_eq!(m[&1], 11);
    assert_eq!(m[&2], 20);
}

#[test]
fn rebuilding_in_another_order_gives_an_equal_map() {
    let a = FrozenMap::from_entries(vec![(1u64, 2u64), (3, 4), (5, 6)]);
    let b = FrozenMap::from_entries(vec![(5u64, 6u64), (1, 2), (3, 4)]);
    assert!(a == b);
    assert_eq!(a.digest(), b.digest());
}

#[test]
fn from_elements_drops_repeats() {
    let s = FrozenSet::from_elements(vec![3i32, 1, 3, 2, 1]);
    assert_eq!(s.len(), 3);
    assert!(s == set_of(&[1, 2, 3]).freeze());
}

#[test]
fn wrappers_read_through_to_the_collection() {
    let m = map_of(&[(1, 2), (3, 4)]).freeze();
    let mut total: u64 = 0;
    for (k, v) in m.iter() {
        total += k * v;
    }
    assert_eq!(total, 14);
    let s = set_of(&[4, 5]).freeze();
    assert_eq!(s.iter().sum::<i32>(), 9);
    assert!(s.is_subset(&set_of(&[4, 5, 6])));
}
