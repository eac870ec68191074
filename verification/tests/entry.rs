use smallmap::entry::Entry;
use smallmap::SmallMap;

#[test]
fn or_insert_twice_keeps_the_first_value() {
    let mut map = SmallMap::new();
    *map.entry('k').or_insert(1) += 10;
    assert_eq!(map.get(&'k'), Some(&11));
    let again = map.entry('k').or_insert(99);
    assert_eq!(*again, 11);
    assert_eq!(map.get(&'k'), Some(&11));
    assert_eq!(map.len(), 1);
}

#[test]
fn entry_counts_characters() {
    let mut map = SmallMap::new();
    for x in "hello world".chars() {
        *map.entry(x).or_insert(0usize) += 1;
    }
    assert_eq!(map.get(&'l'), Some(&3));
    assert_eq!(map.get(&'o'), Some(&2));
    assert_eq!(map.get(&'h'), Some(&1));
    assert_eq!(map.get(&'z'), None);
}

#[test]
fn entry_opens_a_page_when_every_slot_is_taken() {
    let mut map = SmallMap::new();
    map.insert(1u32, 'a');
    assert_eq!(map.num_pages(), 1);
    match map.entry(257u32) {
        Entry::Vacant(vacant) => {
            assert_eq!(vacant.key(), &257);
            assert_eq!(*vacant.insert('b'), 'b');
        },
        Entry::Occupied(_) => panic!("the key is not in the map"),
    }
    assert_eq!(map.num_pages(), 2);
    assert_eq!(map.get(&257), Some(&'b'));
    assert_eq!(map.get(&1), Some(&'a'));
}

#[test]
fn vacant_entry_left_alone_changes_nothing_but_pages() {
    let mut map: SmallMap<u32, char> = SmallMap::new();
    map.insert(1, 'a');
    match map.entry(257) {
        Entry::Vacant(vacant) => assert_eq!(vacant.into_key(), 257),
        Entry::Occupied(_) => panic!("the key is not in the map"),
    }
    assert_eq!(map.len(), 1);
    assert_eq!(map.get(&257), None);
    assert_eq!(map.num_pages(), 2);
}

#[test]
fn occupied_entry_reads_and_writes() {
    let mut map = SmallMap::new();
    map.insert("k", 1);
    match map.entry("k") {
        Entry::Occupied(mut occupied) => {
            assert_eq!(occupied.key(), &"k");
            assert_eq!(occupied.get(), &1);
            *occupied.get_mut() = 2;
            assert_eq!(occupied.insert(3), 2);
            *occupied.into_mut() += 1;
        },
        Entry::Vacant(_) => panic!("the key is in the map"),
    }
    assert_eq!(map.get(&"k"), Some(&4));
}

#[test]
fn occupied_entry_removes() {
    let mut map = SmallMap::new();
    map.insert(1u8, 'a');
    map.insert(2u8, 'b');
    match map.entry(1) {
        Entry::Occupied(occupied) => assert_eq!(occupied.remove(), 'a'),
        Entry::Vacant(_) => panic!("the key is in the map"),
    }
    match map.entry(2) {
        Entry::Occupied(occupied) => assert_eq!(occupied.remove_entry(), (2, 'b')),
        Entry::Vacant(_) => panic!("the key is in the map"),
    }
    assert_eq!(map.len(), 0);
    assert_eq!(map.get(&1), None);
}

#[test]
fn and_modify_runs_only_on_an_occupied_entry() {
    let mut map = SmallMap::new();
    map.entry('a').and_modify(|v| *v += 1).or_insert(10);
    assert_eq!(map.get(&'a'), Some(&10));
    map.entry('a').and_modify(|v| *v += 1).or_insert(10);
    assert_eq!(map.get(&'a'), Some(&11));
}

#[test]
fn or_insert_with_and_or_default() {
    let mut map: SmallMap<u8, String> = SmallMap::new();
    map.entry(1).or_insert_with(|| String::from("made")).push('!');
    assert_eq!(map.get(&1), Some(&String::from("made!")));
    assert_eq!(map.entry(1).or_insert_with(|| String::from("late")), "made!");
    assert_eq!(map.entry(2).or_default(), "");
    assert_eq!(map.entry(1).or_default(), "made!");
    assert_eq!(map.entry(2).key(), &2);
    assert_eq!(map.entry(3).key(), &3);
}
