//! A page: 256 slots, one for each byte a key can reduce to.
use vstd::prelude::*;
use crate::collapse::Collapse;
use crate::iter::{IntoPageElements, PageElements, PageElementsMut};

verus! {

/// Why a run of slots is not a page: it has `found` slots, and not 256.
#[derive(Debug, Clone, Copy, PartialEq, Eq)]
pub struct SlotCountError {
    pub found: usize,
}

/// A single page in a `Map`. Contains up to 256 key-value entries.
#[derive(Debug, PartialEq, Eq, Hash)]
pub struct Page<K, V>(pub [Option<(K, V)>; 256]);

impl<K, V> View for Page<K, V> {
    type V = Seq<Option<(K, V)>>;

    open spec fn view(&self) -> Seq<Option<(K, V)>> {
        self.0@
    }
}

/// The entries that `slots` hold, in the order of the slots.
pub open spec fn entries<K, V>(slots: Seq<Option<(K, V)>>) -> Seq<(K, V)>
    decreases slots.len(),
{
    if slots.len() == 0 {
        Seq::empty()
    } else {
        match slots[0] {
            Some(entry) => seq![entry] + entries(slots.skip(1)),
            None => entries(slots.skip(1)),
        }
    }
}

/// The entries of two runs of slots, one after the other, are the entries of
/// the first followed by those of the second.
pub proof fn lemma_entries_concat<K, V>(a: Seq<Option<(K, V)>>, b: Seq<Option<(K, V)>>)
    ensures
        entries(a + b) == entries(a) + entries(b),
    decreases a.len(),
{
    if a.len() == 0 {
        assert(a + b =~= b);
        assert(entries(a) + entries(b) =~= entries(b));
    } else {
        assert((a + b).skip(1) =~= a.skip(1) + b);
        lemma_entries_concat(a.skip(1), b);
        match a[0] {
            Some(entry) => {
                assert(seq![entry] + (entries(a.skip(1)) + entries(b)) =~= (seq![entry] + entries(
                    a.skip(1),
                )) + entries(b));
            },
            None => {},
        }
    }
}

/// Slots that are all empty hold no entry.
pub proof fn lemma_entries_none<K, V>(slots: Seq<Option<(K, V)>>)
    requires
        forall|i: int| 0 <= i < slots.len() ==> slots[i] is None,
    ensures
        entries(slots).len() == 0,
    decreases slots.len(),
{
    if slots.len() > 0 {
        lemma_entries_none(slots.skip(1));
    }
}

/// Slots of which one is occupied hold an entry.
pub proof fn lemma_entries_some<K, V>(slots: Seq<Option<(K, V)>>, i: int)
    requires
        0 <= i < slots.len(),
        slots[i] is Some,
    ensures
        entries(slots).len() > 0,
    decreases slots.len(),
{
    if i > 0 {
        lemma_entries_some(slots.skip(1), i - 1);
    }
}

/// Writing a slot changes the number of entries by what the slot gains or
/// loses.
pub proof fn lemma_entries_update<K, V>(slots: Seq<Option<(K, V)>>, i: int, slot: Option<(K, V)>)
    requires
        0 <= i < slots.len(),
    ensures
        entries(slots.update(i, slot)).len() + (if slots[i] is Some {
            1int
        } else {
            0int
        }) == entries(slots).len() + (if slot is Some {
            1int
        } else {
            0int
        }),
{
    let front = slots.take(i);
    let back = slots.skip(i + 1);
    assert(slots =~= front + seq![slots[i]] + back);
    assert(slots.update(i, slot) =~= front + seq![slot] + back);
    lemma_entries_concat(front + seq![slots[i]], back);
    lemma_entries_concat(front, seq![slots[i]]);
    lemma_entries_concat(front + seq![slot], back);
    lemma_entries_concat(front, seq![slot]);
    lemma_entries_single(slots[i]);
    lemma_entries_single(slot);
}

/// A single slot holds its entry, or nothing.
pub proof fn lemma_entries_single<K, V>(slot: Option<(K, V)>)
    ensures
        entries(seq![slot]) == (match slot {
            Some(entry) => seq![entry],
            None => Seq::empty(),
        }),
{
    assert(seq![slot].skip(1) =~= Seq::<Option<(K, V)>>::empty());
    assert(entries(seq![slot].skip(1)) =~= Seq::<(K, V)>::empty());
    match slot {
        Some(entry) => {
            assert(seq![entry] + Seq::<(K, V)>::empty() =~= seq![entry]);
        },
        None => {},
    }
}

/// A page that holds one entry, in slot `i`, has that entry as its entries.
pub proof fn lemma_entries_blank_update<K, V>(i: int, entry: (K, V))
    requires
        0 <= i < 256,
    ensures
        entries(blank::<K, V>().update(i, Some(entry))) == seq![entry],
{
    let page = blank::<K, V>().update(i, Some(entry));
    let front = page.take(i);
    let back = page.skip(i + 1);
    assert(page =~= front + seq![Some(entry)] + back);
    lemma_entries_concat(front + seq![Some(entry)], back);
    lemma_entries_concat(front, seq![Some(entry)]);
    lemma_entries_single(Some(entry));
    lemma_entries_none(front);
    lemma_entries_none(back);
    assert(entries(front) =~= Seq::<(K, V)>::empty());
    assert(entries(back) =~= Seq::<(K, V)>::empty());
    assert(Seq::<(K, V)>::empty() + seq![entry] + Seq::<(K, V)>::empty() =~= seq![entry]);
}

/// The entries of a run of slots are what its occupied slots hold.
pub proof fn lemma_entries_contains<K, V>(slots: Seq<Option<(K, V)>>, entry: (K, V))
    ensures
        entries(slots).contains(entry) <==> exists|b: int|
            0 <= b < slots.len() && #[trigger] slots[b] == Some(entry),
    decreases slots.len(),
{
    if slots.len() > 0 {
        let rest = slots.skip(1);
        lemma_entries_contains(rest, entry);
        let found = entries(slots);
        let behind = entries(rest);
        if found.contains(entry) {
            let i = choose|i: int| 0 <= i < found.len() && found[i] == entry;
            if slots[0] is Some && i == 0 {
                assert(slots[0] == Some(entry));
            } else {
                if slots[0] is Some {
                    assert(behind[i - 1] == entry);
                } else {
                    assert(behind[i] == entry);
                }
                assert(behind.contains(entry));
                let b = choose|b: int| 0 <= b < rest.len() && #[trigger] rest[b] == Some(entry);
                assert(slots[b + 1] == Some(entry));
            }
        }
        if exists|b: int| 0 <= b < slots.len() && #[trigger] slots[b] == Some(entry) {
            let b = choose|b: int| 0 <= b < slots.len() && #[trigger] slots[b] == Some(entry);
            if b == 0 {
                assert(found[0] == entry);
            } else {
                assert(rest[b - 1] == Some(entry));
                assert(behind.contains(entry));
                let j = choose|j: int| 0 <= j < behind.len() && behind[j] == entry;
                if slots[0] is Some {
                    assert(found[j + 1] == entry);
                } else {
                    assert(found[j] == entry);
                }
            }
        }
    }
}

/// The number of empty slots before the first occupied one; the number of
/// slots if all are empty.
pub open spec fn leading_vacant<K, V>(slots: Seq<Option<(K, V)>>) -> int
    decreases slots.len(),
{
    if slots.len() == 0 || slots[0] is Some {
        0
    } else {
        1 + leading_vacant(slots.skip(1))
    }
}

/// The slots of a page that holds nothing.
pub open spec fn blank<K, V>() -> Seq<Option<(K, V)>> {
    Seq::new(256, |i: int| None)
}

fn blank_page<K, V>() -> (slots: [Option<(K, V)>; 256])
    ensures
        slots@ == blank::<K, V>(),
{
    let slots: [Option<(K, V)>; 256] = [
        None, None, None, None, None, None, None, None,
        None, None, None, None, None, None, None, None,
        None, None, None, None, None, None, None, None,
        None, None, None, None, None, None, None, None,
        None, None, None, None, None, None, None, None,
        None, None, None, None, None, None, None, None,
        None, None, None, None, None, None, None, None,
        None, None, None, None, None, None, None, None,
        None, None, None, None, None, None, None, None,
        None, None, None, None, None, None, None, None,
        None, None, None, None, None, None, None, None,
        None, None, None, None, None, None, None, None,
        None, None, None, None, None, None, None, None,
        None, None, None, None, None, None, None, None,
        None, None, None, None, None, None, None, None,
        None, None, None, None, None, None, None, None,
        None, None, None, None, None, None, None, None,
        None, None, None, None, None, None, None, None,
        None, None, None, None, None, None, None, None,
        None, None, None, None, None, None, None, None,
        None, None, None, None, None, None, None, None,
        None, None, None, None, None, None, None, None,
        None, None, None, None, None, None, None, None,
        None, None, None, None, None, None, None, None,
        None, None, None, None, None, None, None, None,
        None, None, None, None, None, None, None, None,
        None, None, None, None, None, None, None, None,
        None, None, None, None, None, None, None, None,
        None, None, None, None, None, None, None, None,
        None, None, None, None, None, None, None, None,
        None, None, None, None, None, None, None, None,
        None, None, None, None, None, None, None, None,
    ];
    assert(slots@ =~= blank::<K, V>());
    slots
}

impl<K: Collapse, V> Page<K, V> {
    /// Create a new blank page
    pub fn new() -> (page: Self)
        ensures
            page@ == blank::<K, V>(),
    {
        Page(blank_page())
    }

    /// The number of entries currently in this page
    ///
    /// This is a count that iterates over all slots, if possible store it in a temporary instead of re-calling it many times.
    pub fn len(&self) -> (count: usize)
        ensures
            count == entries(self@).len(),
            count <= 256,
    {
        let mut count: usize = 0;
        let mut i: usize = 0;
        while i < 256
            invariant
                i <= 256,
                count <= i,
                count == entries(self@.take(i as int)).len(),
            decreases 256 - i,
        {
            proof {
                let slot = self@[i as int];
                lemma_entries_concat(self@.take(i as int), seq![slot]);
                assert(self@.take(i as int) + seq![slot] =~= self@.take(i + 1));
                assert(seq![slot].skip(1) =~= Seq::<Option<(K, V)>>::empty());
                assert(entries(seq![slot].skip(1)).len() == 0);
            }
            if self.0[i].is_some() {
                count += 1;
            }
            i += 1;
        }
        proof {
            assert(self@.take(256) =~= self@);
        }
        count
    }

    /// The page that holds the given slots, in their order. A page has 256
    /// slots: any other number of them is refused.
    pub fn from_slots(slots: Vec<Option<(K, V)>>) -> (made: Result<Self, SlotCountError>)
        ensures
            made is Ok <==> slots@.len() == 256,
            made matches Ok(page) ==> page@ == slots@,
            made matches Err(error) ==> error.found == slots@.len(),
    {
        if slots.len() != 256 {
            return Err(SlotCountError { found: slots.len() });
        }
        let mut page = blank_page();
        let mut i: usize = 0;
        for slot in it: slots.into_iter()
            invariant
                it.seq() == slots@,
                slots@.len() == 256,
                i == it.index(),
                forall|j: int| 0 <= j < i ==> page@[j] == slots@[j],
        {
            page[i] = slot;
            i += 1;
        }
        assert(page@ =~= slots@);
        Ok(Page(page))
    }

    /// An iterator over all entries currently in this page
    pub fn iter(&self) -> (elements: PageElements<'_, K, V>)
        ensures
            elements.remaining() == entries(self@),
            elements.0@ == self@,
    {
        PageElements(self.0.as_slice())
    }

    /// A mutable iterator over all entries currently in this page
    pub fn iter_mut(&mut self) -> (elements: PageElementsMut<'_, K, V>)
        ensures
            elements.slots() == old(self)@,
            elements.0 matches Some(slots) && final(self)@ == final(slots)@,
    {
        let slots: &mut [Option<(K, V)>] = &mut self.0;
        PageElementsMut(Some(slots))
    }

    /// Consume this `Page` into an iterator of all values currently in it.
    pub fn into_iter(self) -> (elements: IntoPageElements<K, V>)
        ensures
            elements.remaining() == entries(self@),
            elements == IntoPageElements(self.0, 0),
    {
        let elements = IntoPageElements(self.0, 0);
        assert(elements.0@.skip(0) =~= self@);
        elements
    }

    /// The slot that `key` reduces to.
    pub fn search(&self, key: &K) -> (slot: &Option<(K, V)>)
        ensures
            *slot == self@[K::reduce(key@) as int],
    {
        &self.0[key.collapse() as usize]
    }

    /// The slot that `key` reduces to, for writing.
    pub fn search_mut(&mut self, key: &K) -> (slot: &mut Option<(K, V)>)
        ensures
            *slot == old(self)@[K::reduce(key@) as int],
            final(self)@ == old(self)@.update(K::reduce(key@) as int, *final(slot)),
    {
        &mut self.0[key.collapse() as usize]
    }

    /// The value in the slot that `key` reduces to, for writing.
    pub fn value_mut(&mut self, key: &K) -> (value: &mut V)
        requires
            old(self)@[K::reduce(key@) as int] is Some,
        ensures
            *value == old(self)@[K::reduce(key@) as int].unwrap().1,
            final(self)@ == old(self)@.update(
                K::reduce(key@) as int,
                Some((old(self)@[K::reduce(key@) as int].unwrap().0, *final(value))),
            ),
    {
        &mut self.0[key.collapse() as usize].as_mut().unwrap().1
    }

    /// Write the entry into the slot that its key reduces to, and hand back
    /// what the slot held before.
    pub fn replace(&mut self, k: K, v: V) -> (previous: Option<(K, V)>)
        ensures
            previous == old(self)@[K::reduce(k@) as int],
            final(self)@ == old(self)@.update(K::reduce(k@) as int, Some((k, v))),
    {
        let slot = &mut self.0[k.collapse() as usize];
        let previous = slot.take();
        *slot = Some((k, v));
        previous
    }
}

impl<K: Clone, V: Clone> Clone for Page<K, V> {
    fn clone(&self) -> (page: Self)
        ensures
            forall|i: int| 0 <= i < 256 ==> cloned(#[trigger] self@[i], page@[i]),
    {
        let mut slots = blank_page();
        let mut i: usize = 0;
        while i < 256
            invariant
                i <= 256,
                forall|j: int| 0 <= j < i ==> cloned(#[trigger] self@[j], slots@[j]),
            decreases 256 - i,
        {
            slots[i] = self.0[i].clone();
            i += 1;
        }
        Page(slots)
    }
}

impl<K: Collapse, V> Default for Page<K, V> {
    fn default() -> (page: Self)
        ensures
            page@ == blank::<K, V>(),
    {
        Self::new()
    }
}

} // verus!
