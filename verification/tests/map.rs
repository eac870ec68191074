use smallmap::map::footprint;
use smallmap::page::Page;
use smallmap::{SmallMap, SmallSet};

#[test]
fn insert_then_get_finds_the_value() {
    let mut map = SmallMap::new();
    map.insert(42u32, "answer");
    assert_eq!(map.get(&42), Some(&"answer"));
    map.insert(298u32, "other");
    assert_eq!(map.get(&42), Some(&"answer"));
    assert_eq!(map.get(&298), Some(&"other"));
    assert_eq!(map.get(&554), None);
}

#[test]
fn second_insert_returns_first_value_and_keeps_count() {
    let mut map = SmallMap::new();
    assert_eq!(map.insert(7u8, 'x'), None);
    let count = map.len();
    assert_eq!(map.insert(7u8, 'y'), Some('x'));
    assert_eq!(map.len(), count);
    assert_eq!(map.len(), 1);
    assert_eq!(map.get(&7), Some(&'y'));
}

#[test]
fn colliding_keys_take_one_page_each() {
    let mut map = SmallMap::new();
    let keys: Vec<u32> = (0..10).map(|i| 9 + 256 * i).collect();
    for (i, key) in keys.iter().enumerate() {
        assert_eq!(map.insert(*key, i), None);
    }
    assert_eq!(map.num_pages(), 10);
    assert_eq!(map.len(), 10);
    let mut pages = map.pages();
    while let Some(page) = pages.next() {
        assert_eq!(page.len(), 1);
    }
    for (i, key) in keys.iter().enumerate() {
        assert_eq!(map.get(key), Some(&i));
    }
}

#[test]
fn scenario_three_inserts_two_keys() {
    let mut map = SmallMap::new();
    map.insert('a', 1);
    map.insert('b', 2);
    map.insert('a', 3);
    assert_eq!(map.len(), 2);
    assert_eq!(map.get(&'a'), Some(&3));
    assert_eq!(map.get(&'b'), Some(&2));
}

#[test]
fn scenario_two_keys_reducing_to_five() {
    let mut map = SmallMap::new();
    map.insert(5u16, "low");
    map.insert(261u16, "high");
    assert_eq!(map.num_pages(), 2);
    assert_eq!(map.get(&5), Some(&"low"));
    assert_eq!(map.get(&261), Some(&"high"));
    let before = map.clone();
    map.clean();
    assert_eq!(map.num_pages(), 2);
    assert_eq!(map, before);
}

#[test]
fn compaction_drops_empty_pages_and_keeps_entries() {
    let mut map = SmallMap::new();
    map.insert(1u32, 'a');
    map.insert(257u32, 'b');
    map.insert(513u32, 'c');
    map.insert(2u32, 'd');
    assert_eq!(map.num_pages(), 3);
    assert_eq!(map.remove(&257), Some('b'));
    assert_eq!(map.num_pages(), 3);
    map.clean();
    assert_eq!(map.num_pages(), 2);
    assert_eq!(map.get(&1), Some(&'a'));
    assert_eq!(map.get(&513), Some(&'c'));
    assert_eq!(map.get(&2), Some(&'d'));
    assert_eq!(map.get(&257), None);
    assert_eq!(map.len(), 3);
}

#[test]
fn compaction_of_an_empty_map_leaves_no_page() {
    let mut map: SmallMap<u8, u8> = SmallMap::new();
    assert_eq!(map.num_pages(), 1);
    map.clean();
    assert_eq!(map.num_pages(), 0);
    assert_eq!(map.len(), 0);
    assert!(map.is_empty());
    assert_eq!(map.get(&3), None);
    let turned = map.clone().reverse();
    assert_eq!(turned.num_pages(), 1);
    assert_eq!(turned.len(), 0);
    assert!(turned.is_empty());
    assert_eq!(map.insert(3, 4), None);
    assert_eq!(map.num_pages(), 1);
    assert_eq!(map.get(&3), Some(&4));
}

#[test]
fn reverse_twice_gives_the_same_entries() {
    let mut map = SmallMap::new();
    map.insert(1u32, 'a');
    map.insert(257u32, 'b');
    map.insert(2u32, 'c');
    map.insert(513u32, 'd');
    let turned = map.clone().reverse();
    assert_eq!(turned.get(&'a'), Some(&1));
    assert_eq!(turned.get(&'b'), Some(&257));
    assert_eq!(turned.len(), 4);
    let back = turned.reverse();
    assert_eq!(back.len(), 4);
    for key in [1u32, 257, 2, 513] {
        assert_eq!(back.get(&key), map.get(&key));
    }
    assert_eq!(back.get(&3), None);
}

#[test]
fn reverse_twice_may_lay_the_pages_out_anew() {
    let mut map = SmallMap::new();
    map.insert(1u32, 'b');
    map.insert(257u32, 'a');
    let back = map.clone().reverse().reverse();
    assert_eq!(back.num_pages(), 2);
    assert_eq!(back.get(&1), Some(&'b'));
    assert_eq!(back.get(&257), Some(&'a'));
    assert_eq!(map.pages().next().unwrap().search(&1), &Some((1, 'b')));
    assert_eq!(back.pages().next().unwrap().search(&1), &Some((257, 'a')));
    assert_ne!(back, map);
}

#[test]
fn insert_after_a_removal_can_hold_a_key_twice() {
    let mut map = SmallMap::new();
    map.insert(5u16, 'a');
    map.insert(261u16, 'b');
    assert_eq!(map.remove(&5), Some('a'));
    assert_eq!(map.insert(261u16, 'c'), None);
    assert_eq!(map.len(), 2);
    assert_eq!(map.get(&261), Some(&'c'));
    assert_eq!(map.remove(&261), Some('c'));
    assert_eq!(map.get(&261), Some(&'b'));
}

#[test]
fn reverse_keeps_the_later_key_of_equal_values() {
    let mut map = SmallMap::new();
    map.insert(1u8, 'x');
    map.insert(2u8, 'x');
    let turned = map.reverse();
    assert_eq!(turned.len(), 1);
    assert_eq!(turned.get(&'x'), Some(&2));
}

#[test]
fn remove_returns_the_value_once() {
    let mut map = SmallMap::new();
    map.insert("key", 5);
    assert!(map.contains_key(&"key"));
    assert_eq!(map.remove(&"key"), Some(5));
    assert!(!map.contains_key(&"key"));
    assert_eq!(map.remove(&"key"), None);
    assert_eq!(map.len(), 0);
    assert_eq!(map.num_pages(), 1);
}

#[test]
fn lookup_passes_over_an_emptied_slot() {
    let mut map = SmallMap::new();
    map.insert(5u16, 'a');
    map.insert(261u16, 'b');
    assert_eq!(map.remove(&5), Some('a'));
    assert_eq!(map.get(&261), Some(&'b'));
    assert!(map.is_empty());
    assert_eq!(map.len(), 1);
    map.insert(517u16, 'c');
    assert_eq!(map.num_pages(), 2);
    let first = map.pages().next().unwrap();
    assert_eq!(first.search(&517), &Some((517, 'c')));
}

#[test]
fn get_mut_changes_the_value_in_place() {
    let mut map = SmallMap::new();
    map.insert('k', 10);
    if let Some(value) = map.get_mut(&'k') {
        *value += 5;
    }
    assert_eq!(map.get(&'k'), Some(&15));
    assert!(map.get_mut(&'z').is_none());
}

#[test]
fn page_counts_and_capacity() {
    let map: SmallMap<u8, ()> = SmallMap::with_capacity(4);
    assert_eq!(map.num_pages(), 1);
    assert_eq!(map.len(), 0);
    assert!(map.is_empty());
    assert!(map.internal_size_bytes() >= 4 * std::mem::size_of::<Page<u8, ()>>());
    let lone: SmallMap<u8, ()> = SmallMap::new();
    assert!(lone.internal_size_bytes() >= std::mem::size_of::<Page<u8, ()>>());
    assert_eq!(lone.into_pages().len(), 1);
}

#[test]
fn footprint_is_the_product() {
    assert_eq!(footprint(4, 256), 1024);
    assert_eq!(footprint(0, 256), 0);
    assert_eq!(footprint(7, 0), 0);
    assert_eq!(footprint(usize::MAX, 0), 0);
    assert_eq!(footprint(1, usize::MAX), usize::MAX);
    assert_eq!(footprint(usize::MAX / 2, 2), usize::MAX - 1);
    let each = std::mem::size_of::<Page<u8, u8>>();
    let map: SmallMap<u8, u8> = SmallMap::with_capacity(3);
    assert_eq!(map.internal_size_bytes() % each, 0);
    assert!(map.internal_size_bytes() >= 3 * each);
    assert!(map.internal_size_bytes() <= isize::MAX as usize);
}

#[test]
fn reverse_of_distinct_values_keeps_every_pair() {
    let mut map = SmallMap::new();
    map.insert(1u32, 'a');
    map.insert(257u32, 'b');
    map.insert(2u32, 'c');
    assert_eq!(map.remove(&2), Some('c'));
    let turned = map.clone().reverse();
    assert_eq!(turned.len(), map.len());
    assert_eq!(turned.get(&'a'), Some(&1));
    assert_eq!(turned.get(&'b'), Some(&257));
    assert_eq!(turned.get(&'c'), None);
    let back = turned.reverse();
    assert_eq!(back.len(), map.len());
    for key in [1u32, 257, 2] {
        assert_eq!(back.get(&key), map.get(&key));
    }
}

#[test]
fn default_map_has_one_blank_page() {
    let map: SmallMap<u8, u8> = SmallMap::default();
    assert_eq!(map.num_pages(), 1);
    assert_eq!(map, SmallMap::new());
}

#[test]
fn extend_inserts_in_order() {
    let mut map = SmallMap::new();
    map.insert(1u8, 'a');
    map.extend(vec![(2, 'b'), (1, 'c'), (2, 'd')]);
    assert_eq!(map.len(), 2);
    assert_eq!(map.get(&1), Some(&'c'));
    assert_eq!(map.get(&2), Some(&'d'));
}

#[test]
fn set_holds_keys_only() {
    let mut set: SmallSet<char> = SmallSet::new();
    assert_eq!(set.insert('a', ()), None);
    assert_eq!(set.insert('a', ()), Some(()));
    assert!(set.contains_key(&'a'));
    assert!(!set.contains_key(&'b'));
}

#[test]
fn string_keys_are_compared_by_content() {
    let mut map = SmallMap::new();
    map.insert(String::from("alpha"), 1);
    map.insert(String::from("beta"), 2);
    assert_eq!(map.get(&String::from("alpha")), Some(&1));
    assert_eq!(map.insert(String::from("beta"), 3), Some(2));
    assert_eq!(map.get(&String::from("gamma")), None);
    let mut anagrams = SmallMap::new();
    anagrams.insert("ab", 1);
    anagrams.insert("ba", 2);
    assert_eq!(anagrams.num_pages(), 2);
    assert_eq!(anagrams.get(&"ab"), Some(&1));
    assert_eq!(anagrams.get(&"ba"), Some(&2));
}
