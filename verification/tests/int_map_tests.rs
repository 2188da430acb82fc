use escpos_db::IntMap;
use escpos_db::OwnedIntMap;

#[test]
fn sorted_entries_build_and_get_back_every_value() {
    let entries: Vec<(u8, &str)> = vec![(1, "a"), (5, "b"), (9, "c"), (200, "d")];
    let map = IntMap::from_entries(entries).expect("sorted entries must build");
    assert_eq!(map.get(1), Some(&"a"));
    assert_eq!(map.get(5), Some(&"b"));
    assert_eq!(map.get(9), Some(&"c"));
    assert_eq!(map.get(200), Some(&"d"));
    assert_eq!(map.get(0), None);
    assert_eq!(map.get(7), None);
    assert_eq!(map.get(255), None);
    assert_eq!(map.len(), 4);
}

#[test]
fn boundary_keys_build_and_get_back() {
    let map = IntMap::from_entries(vec![(0u8, 10u32), (255u8, 20u32)]).expect("sorted");
    assert_eq!(map.get(0), Some(&10));
    assert_eq!(map.get(255), Some(&20));
    assert_eq!(map.get(128), None);
}

#[test]
fn unsorted_entries_fail() {
    let entries: Vec<(u8, u32)> = vec![(5, 0), (3, 1), (9, 2)];
    assert!(IntMap::from_entries(entries).is_none());
}

#[test]
fn duplicate_keys_fail() {
    let entries: Vec<(u8, u32)> = vec![(5, 0), (5, 1), (9, 2)];
    assert!(IntMap::from_entries(entries).is_none());
}

#[test]
fn empty_map_has_no_entries() {
    let map: IntMap<u32> = IntMap::empty();
    assert_eq!(map.len(), 0);
    assert_eq!(map.get(0), None);
    assert_eq!(map.get(42), None);
}

#[test]
fn iter_yields_entries_in_key_order() {
    let map = IntMap::from_entries(vec![(2u8, "x"), (4u8, "y"), (7u8, "z")]).unwrap();
    let mut it = map.iter();
    assert_eq!(it.next(), Some((2, &"x")));
    assert_eq!(it.next(), Some((4, &"y")));
    assert_eq!(it.next(), Some((7, &"z")));
    assert_eq!(it.next(), None);
    assert_eq!(it.next(), None);
}

#[test]
fn insert_existing_key_returns_prior_value_and_keeps_length() {
    let mut map: OwnedIntMap<u32> = OwnedIntMap::new();
    assert_eq!(map.insert(9, 100), None);
    assert_eq!(map.insert(3, 200), None);
    assert_eq!(map.len(), 2);
    let prior = map.insert(9, 300);
    assert_eq!(prior, Some(100));
    assert_eq!(map.len(), 2);
    assert_eq!(map.get(9), Some(&300));
}

#[test]
fn insert_new_key_grows_by_one_and_preserves_sortedness() {
    let mut map: OwnedIntMap<u32> = OwnedIntMap::new();
    map.insert(9, 1);
    map.insert(3, 2);
    map.insert(6, 3);
    assert_eq!(map.len(), 3);
    let imm = map.into_int_map();
    let mut it = imm.iter();
    assert_eq!(it.next(), Some((3, &2)));
    assert_eq!(it.next(), Some((6, &3)));
    assert_eq!(it.next(), Some((9, &1)));
    assert_eq!(it.next(), None);
}

#[test]
fn extend_applies_pairs_in_order_with_last_write_winning() {
    let mut map: OwnedIntMap<&str> = OwnedIntMap::new();
    map.insert(1, "old");
    map.extend(vec![(5, "a"), (1, "new"), (5, "b")]);
    assert_eq!(map.len(), 2);
    assert_eq!(map.get(1), Some(&"new"));
    assert_eq!(map.get(5), Some(&"b"));
}

#[test]
fn from_pairs_sorts_an_unordered_sequence() {
    let map = OwnedIntMap::from_pairs(vec![(9u8, 'c'), (1u8, 'a'), (5u8, 'b')]);
    assert_eq!(map.len(), 3);
    assert_eq!(map.get(1), Some(&'a'));
    assert_eq!(map.get(5), Some(&'b'));
    assert_eq!(map.get(9), Some(&'c'));
    let imm = map.into_int_map();
    let e0 = imm.entry_at(0);
    let e1 = imm.entry_at(1);
    let e2 = imm.entry_at(2);
    assert_eq!((e0.0, e1.0, e2.0), (1, 5, 9));
}
