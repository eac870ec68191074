use smallmap::page::{Page, SlotCountError};
use smallmap::SmallMap;

#[test]
fn blank_page_holds_nothing() {
    let page: Page<u8, u8> = Page::new();
    assert_eq!(page.len(), 0);
    assert!(page.iter().next().is_none());
    assert_eq!(page.search(&9), &None);
    assert_eq!(page, Page::default());
}

#[test]
fn replace_writes_the_slot_of_the_key() {
    let mut page = Page::new();
    assert_eq!(page.replace(261u16, 'a'), None);
    assert_eq!(page.len(), 1);
    assert_eq!(page.search(&5), &Some((261, 'a')));
    assert_eq!(page.replace(5u16, 'b'), Some((261, 'a')));
    assert_eq!(page.len(), 1);
    *page.search_mut(&5) = None;
    assert_eq!(page.len(), 0);
    page.replace(7, 'c');
    *page.value_mut(&7) = 'd';
    assert_eq!(page.search(&7), &Some((7, 'd')));
}

#[test]
fn page_iterators_go_by_slot() {
    let mut page = Page::new();
    page.replace(200u8, 'c');
    page.replace(3u8, 'a');
    page.replace(100u8, 'b');
    let mut seen = Vec::new();
    let mut elements = page.iter();
    assert_eq!(elements.size_hint(), (0, Some(256)));
    while let Some(entry) = elements.next() {
        seen.push(*entry);
    }
    assert_eq!(seen, vec![(3, 'a'), (100, 'b'), (200, 'c')]);
    assert_eq!(elements.next(), None);

    let mut elements = page.iter_mut();
    while let Some(entry) = elements.next() {
        entry.1 = entry.1.to_ascii_uppercase();
    }
    assert_eq!(elements.size_hint(), (0, Some(0)));
    let mut taken = Vec::new();
    let mut elements = page.into_iter();
    assert_eq!(elements.size_hint(), (0, Some(256)));
    while let Some(entry) = elements.next() {
        taken.push(entry);
    }
    assert_eq!(taken, vec![(3, 'A'), (100, 'B'), (200, 'C')]);
    assert_eq!(elements.next(), None);
}

#[test]
fn page_is_made_from_256_slots_only() {
    let mut slots: Vec<Option<(u8, char)>> = (0..256).map(|_| None).collect();
    slots[65] = Some((65, 'A'));
    let page = Page::from_slots(slots.clone()).unwrap();
    assert_eq!(page.len(), 1);
    assert_eq!(page.search(&65), &Some((65, 'A')));
    assert_eq!(page.0.to_vec(), slots);

    slots.push(None);
    assert_eq!(Page::from_slots(slots.clone()), Err(SlotCountError { found: 257 }));
    slots.truncate(255);
    assert_eq!(Page::from_slots(slots), Err(SlotCountError { found: 255 }));
    assert_eq!(Page::<u8, char>::from_slots(Vec::new()), Err(SlotCountError { found: 0 }));
}

#[test]
fn page_clone_is_equal() {
    let mut page = Page::new();
    page.replace(String::from("k"), vec![1, 2]);
    let copy = page.clone();
    assert_eq!(page, copy);
}

#[test]
fn map_iterators_go_by_page_then_slot() {
    let mut map = SmallMap::new();
    map.insert(300u32, 'd');
    map.insert(44u32, 'a');
    map.insert(2u32, 'b');
    map.insert(556u32, 'e');
    map.insert(1u32, 'c');
    let mut seen = Vec::new();
    let mut entries = map.iter();
    assert_eq!(entries.size_hint(), (0, Some(3 * 256)));
    while let Some(entry) = entries.next() {
        seen.push(*entry);
    }
    assert_eq!(seen, vec![(1, 'c'), (2, 'b'), (300, 'd'), (44, 'a'), (556, 'e')]);
    assert_eq!(entries.next(), None);

    let mut entries = map.iter_mut();
    assert_eq!(entries.size_hint(), (0, Some(3 * 256)));
    while let Some(entry) = entries.next() {
        entry.1 = entry.1.to_ascii_uppercase();
    }
    assert!(entries.next().is_none());
    assert_eq!(map.get(&44), Some(&'A'));

    let mut taken = Vec::new();
    let mut entries = map.into_iter();
    assert_eq!(entries.size_hint(), (0, Some(3 * 256)));
    while let Some(entry) = entries.next() {
        taken.push(entry);
    }
    assert_eq!(taken, vec![(1, 'C'), (2, 'B'), (300, 'D'), (44, 'A'), (556, 'E')]);
    assert_eq!(entries.next(), None);
}

#[test]
fn pages_are_walked_in_order() {
    let mut map = SmallMap::new();
    map.insert(1u32, 'a');
    map.insert(257u32, 'b');
    let mut pages = map.pages();
    assert_eq!(pages.size_hint(), (2, Some(2)));
    assert_eq!(pages.next().unwrap().search(&1), &Some((1, 'a')));
    assert_eq!(pages.next().unwrap().search(&1), &Some((257, 'b')));
    assert!(pages.next().is_none());
    assert_eq!(pages.size_hint(), (0, Some(0)));

    let mut pages = map.pages_mut();
    assert_eq!(pages.size_hint(), (2, Some(2)));
    let first = pages.next().unwrap();
    let second = pages.next().unwrap();
    assert!(pages.next().is_none());
    first.replace(2, 'c');
    second.replace(258, 'd');
    assert_eq!(map.len(), 4);
    assert_eq!(map.get(&258), Some(&'d'));
}
