//! The map: pages in the order of their creation.
use vstd::prelude::*;
use crate::collapse::Collapse;
use crate::entry::{Entry, OccupiedEntry, VacantEntry};
use crate::iter::{IntoIter, Iter, IterMut, Pages, PagesMut};
use crate::lemmas::{
    lemma_all_entries_concat, lemma_all_entries_one, lemma_blank_table, lemma_compacted_contents,
    lemma_compacted_sound, lemma_first_accepting_from, lemma_first_accepting_is,
    lemma_first_holding_from, lemma_insert_all_contents, lemma_inserted_contents,
    lemma_inserted_sound, lemma_opened_contents, lemma_packed_empty, lemma_removed_sound,
    lemma_revalued, lemma_sound_len, lemma_written_contents, lemma_written_none,
    lemma_written_sound,
};
use crate::page::{blank, entries, Page};
use crate::table::{
    accepts, all_entries, compacted, contents, displaced, first_accepting, first_accepting_from,
    first_holding, first_holding_from, framed, insert_all, inserted, mapped_all, occupied, opened,
    packed, put, removed, reversed, sound, swapped, written, Table,
};

verus! {

/// A small hashtable-like map with byte sized key indecies.
///
/// The map is its pages, in the order in which they were made. A lookup of a
/// key goes through the pages in that order and looks, in each, at the one
/// slot that the key reduces to. The contracts speak of the pages as a
/// [`Table`] (`table()`), and of what lookups find as a `Map` (the view).
///
/// A map that was only inserted into is [`sound`](SmallMap::sound) and
/// [`packed`](SmallMap::packed). A removal leaves it sound, and may leave a
/// slot empty before an occupied one; an insertion into such a map can put a
/// key, that a later page holds, into the empty slot as well.
#[derive(Debug, PartialEq, Eq, Hash)]
pub struct SmallMap<K, V>(pub Vec<Page<K, V>>);

/// A smallmap set.
///
/// Can be used to quickly insert or remove a key only, with no value; and can be used to see if this key is present.
///
/// Any map type with a zero-sized value is essentially a set.
pub type SmallSet<T> = SmallMap<T, ()>;

/// The bytes that room for `capacity` elements of `each` bytes takes.
pub open spec fn footprint_of(capacity: usize, each: usize) -> int {
    capacity * each
}

/// The bytes that room for `capacity` elements of `each` bytes takes, which
/// have to fit in a `usize`.
pub fn footprint(capacity: usize, each: usize) -> (bytes: usize)
    requires
        footprint_of(capacity, each) <= usize::MAX,
    ensures
        bytes == footprint_of(capacity, each),
{
    capacity * each
}

/// `Vec::capacity`: the number of elements that the vector has room for
/// without allocating again. It is never less than the vector's length, and
/// the room never takes more than `isize::MAX` bytes, which is the most that
/// a vector allocates; for elements without size it takes none.
#[verifier::external_body]
fn capacity_of<T>(v: &Vec<T>) -> (capacity: usize)
    ensures
        capacity >= v@.len(),
        capacity * vstd::layout::size_of::<T>() <= isize::MAX,
{
    v.capacity()
}

impl<K: Clone, V: Clone> Clone for SmallMap<K, V> {
    fn clone(&self) -> (map: Self)
        ensures
            map.table().len() == self.table().len(),
            forall|p: int, b: int|
                0 <= p < self.table().len() && 0 <= b < 256 ==> cloned(
                    #[trigger] self.table()[p][b],
                    map.table()[p][b],
                ),
    {
        let mut pages: Vec<Page<K, V>> = Vec::with_capacity(self.0.len());
        let mut i: usize = 0;
        while i < self.0.len()
            invariant
                i <= self.0.len(),
                pages@.len() == i,
                forall|p: int, b: int|
                    0 <= p < i && 0 <= b < 256 ==> cloned(
                        #[trigger] self.0@[p]@[b],
                        pages@[p]@[b],
                    ),
            decreases self.0.len() - i,
        {
            pages.push(self.0[i].clone());
            i += 1;
        }
        SmallMap(pages)
    }
}

impl<K: Collapse, V> Default for SmallMap<K, V> {
    fn default() -> (map: Self)
        ensures
            map.table() == seq![blank::<K, V>()],
            map@ == Map::<K::V, V>::empty(),
            map.sound(),
            map.packed(),
    {
        Self::new()
    }
}

impl<K: Collapse, V> View for SmallMap<K, V> {
    type V = Map<K::V, V>;

    /// What a lookup finds in the map.
    open spec fn view(&self) -> Map<K::V, V> {
        contents(self.table())
    }
}

impl<K, V> SmallMap<K, V> {
    /// The pages of the map, first page first, each as its 256 slots.
    pub open spec fn table(&self) -> Table<K, V> {
        self.0@.map_values(|page: Page<K, V>| page@)
    }

    /// Returns the currently allocated size of the map in bytes (including currently unused reserved space.)
    ///
    /// This is the footprint of the room that the vector of pages has, which
    /// is room for no fewer pages than the map has.
    pub fn internal_size_bytes(&self) -> (bytes: usize)
        ensures
            exists|capacity: usize|
                {
                    &&& capacity >= self.table().len()
                    &&& capacity * vstd::layout::size_of::<Page<K, V>>() <= isize::MAX
                    &&& bytes == #[trigger] footprint_of(
                        capacity,
                        vstd::layout::size_of::<Page<K, V>>() as usize,
                    )
                },
            bytes >= self.table().len() * vstd::layout::size_of::<Page<K, V>>(),
            bytes <= isize::MAX,
    {
        let capacity: usize = capacity_of(&self.0);
        let each: usize = core::mem::size_of::<Page<K, V>>();
        proof {
            assert(vstd::layout::size_of::<Page<K, V>>() as usize == each);
            assert(capacity >= self.table().len());
            assert(capacity * each >= self.0@.len() * each) by (nonlinear_arith)
                requires
                    capacity >= self.0@.len(),
                    each >= 0,
            ;
        }
        footprint(capacity, each)
    }

    /// Every page of a map has 256 slots.
    pub proof fn lemma_framed(&self)
        ensures
            framed(self.table()),
    {
        assert forall|p: int| 0 <= p < self.table().len() implies (#[trigger] self.table()[p]).len()
            == 256 by {
            assert(self.table()[p] == self.0@[p]@);
        }
    }
}

impl<K: Collapse, V> SmallMap<K, V> {
    /// Every entry of the map is the one that a lookup of its key finds: it
    /// sits in the slot that its key reduces to, and no key is held twice.
    pub open spec fn sound(&self) -> bool {
        sound(self.table())
    }

    /// No slot is empty in a page before one in which it is occupied.
    pub open spec fn packed(&self) -> bool {
        packed(self.table())
    }
}

impl<K: Collapse, V> SmallMap<K, V> {
    /// The first page whose slot for `key` holds `key`, or the number of pages.
    fn seek(&self, key: &K) -> (p: usize)
        ensures
            p == first_holding(self.table(), key@),
            p <= self.table().len(),
    {
        let mut i: usize = 0;
        while i < self.0.len()
            invariant
                i <= self.0.len(),
                first_holding(self.table(), key@) == first_holding_from(
                    self.table(),
                    key@,
                    i as int,
                ),
            decreases self.0.len() - i,
        {
            match self.0[i].search(key) {
                Some(entry) => {
                    if key.same(&entry.0) {
                        return i;
                    }
                },
                None => {},
            }
            i += 1;
        }
        i
    }

    /// The first page whose slot for `key` is empty or holds `key`, or the
    /// number of pages.
    fn seek_free(&self, key: &K) -> (p: usize)
        ensures
            p == first_accepting(self.table(), key@),
            p <= self.table().len(),
    {
        let mut i: usize = 0;
        while i < self.0.len()
            invariant
                i <= self.0.len(),
                first_accepting(self.table(), key@) == first_accepting_from(
                    self.table(),
                    key@,
                    i as int,
                ),
            decreases self.0.len() - i,
        {
            match self.0[i].search(key) {
                Some(entry) => {
                    if key.same(&entry.0) {
                        return i;
                    }
                },
                None => {
                    return i;
                },
            }
            i += 1;
        }
        i
    }

    /// Page `p`, for writing.
    fn page_mut(&mut self, p: usize) -> (page: &mut Page<K, V>)
        requires
            p < old(self).table().len(),
        ensures
            page@ == old(self).table()[p as int],
            final(self).table() =~= old(self).table().update(p as int, final(page)@),
    {
        &mut self.0[p]
    }

    /// Put a blank page behind the others.
    fn new_page(&mut self) -> (page: &mut Page<K, V>)
        ensures
            page@ == blank::<K, V>(),
            final(self).table() =~= old(self).table().push(final(page)@),
    {
        let len: usize = self.0.len();
        self.0.push(Page::new());
        &mut self.0[len]
    }

    /// The entry for `key` among the pages that there are: over the first
    /// slot for the key that is empty or holds it. `None` if every page's
    /// slot for the key holds another key.
    fn try_entry(&mut self, key: K) -> (found: Option<Entry<'_, K, V>>)
        ensures
            found is Some == (first_accepting(old(self).table(), key@) < old(self).table().len()),
            found is None ==> *final(self) == *old(self),
            found matches Some(entry) ==> {
                &&& entry.wf()
                &&& entry.slot() == old(self).table()[first_accepting(
                    old(self).table(),
                    key@,
                )][K::reduce(key@) as int]
                &&& entry matches Entry::Vacant(vacant) ==> vacant.1 == key
                &&& entry.spec_key()@ == key@
            },
            found matches Some(entry) ==> final(self).table() =~= put(
                old(self).table(),
                first_accepting(old(self).table(), key@),
                K::reduce(key@) as int,
                match entry {
                    Entry::Vacant(vacant) => *final(vacant.0),
                    Entry::Occupied(occupied) => *final(occupied.0),
                },
            ),
    {
        proof {
            lemma_first_accepting_from(self.table(), key@, 0);
        }
        let p: usize = self.seek_free(&key);
        if p < self.0.len() {
            let slot = self.page_mut(p).search_mut(&key);
            if slot.is_some() {
                Some(Entry::Occupied(OccupiedEntry(slot)))
            } else {
                Some(Entry::Vacant(VacantEntry(slot, key)))
            }
        } else {
            None
        }
    }

    /// Get an `Entry` for the `key` that lets you get or insert the value
    ///
    /// The entry is over the first slot for the key that is empty or holds the
    /// key; where every page's slot for the key holds another key, a blank
    /// page is put behind the others first. The map is, in the end, as it was
    /// but for that page and for what the slot of the entry holds in the end.
    pub fn entry(&mut self, key: K) -> (entry: Entry<'_, K, V>)
        ensures
            entry.wf(),
            entry.slot() == opened(old(self).table(), key@)[first_accepting(
                old(self).table(),
                key@,
            )][K::reduce(key@) as int],
            entry.spec_key()@ == key@,
            entry matches Entry::Vacant(vacant) ==> vacant.1 == key,
            final(self).table() =~= written(
                old(self).table(),
                key@,
                match entry {
                    Entry::Vacant(vacant) => *final(vacant.0),
                    Entry::Occupied(occupied) => *final(occupied.0),
                },
            ),
            (match entry {
                Entry::Vacant(vacant) => *final(vacant.0),
                Entry::Occupied(occupied) => *final(occupied.0),
            }) matches Some(held) ==> (held.0@ == key@ ==> final(self)@ == old(self)@.insert(
                key@,
                held.1,
            )),
            (match entry {
                Entry::Vacant(vacant) => *final(vacant.0),
                Entry::Occupied(occupied) => *final(occupied.0),
            }) matches Some(held) ==> (held.0@ == key@ && old(self).sound() && old(self).packed()
                ==> final(self).sound() && final(self).packed()),
            (match entry {
                Entry::Vacant(vacant) => *final(vacant.0),
                Entry::Occupied(occupied) => *final(occupied.0),
            }) is None && entry is Vacant ==> final(self)@ == old(self)@,
            (match entry {
                Entry::Vacant(vacant) => *final(vacant.0),
                Entry::Occupied(occupied) => *final(occupied.0),
            }) is None && entry is Occupied && old(self).sound() ==> final(self).sound()
                && final(self)@ == old(self)@.remove(key@),
    {
        proof {
            self.lemma_framed();
            let t = self.table();
            let o = opened(t, key@);
            let p = first_accepting(t, key@);
            let b = K::reduce(key@) as int;
            assert forall|slot: Option<(K, V)>|
                slot matches Some(held) ==> (held.0@ == key@ ==> contents(
                    #[trigger] put(o, p, b, slot),
                ) == contents(t).insert(key@, held.1)) by {
                if let Some(held) = slot {
                    if held.0@ == key@ {
                        lemma_written_contents(t, held);
                    }
                }
            }
            assert forall|slot: Option<(K, V)>|
                slot matches Some(held) ==> (held.0@ == key@ && sound(t) && packed(t) ==> sound(
                    #[trigger] put(o, p, b, slot),
                ) && packed(put(o, p, b, slot))) by {
                if let Some(held) = slot {
                    if held.0@ == key@ && sound(t) && packed(t) {
                        lemma_written_sound(t, held);
                    }
                }
            }
            lemma_written_none(t, key@);
            lemma_opened_contents(t, key@);
            if sound(t) {
                lemma_removed_sound(t, key@);
            }
        }
        if self.seek_free(&key) == self.0.len() {
            self.new_page();
            proof {
                let t = old(self).table();
                lemma_first_accepting_from(t, key@, 0);
                assert forall|q: int| 0 <= q < t.len() implies !accepts(
                    #[trigger] self.table()[q][K::reduce(key@) as int],
                    key@,
                ) by {
                    assert(self.table()[q] == t[q]);
                }
                lemma_first_accepting_is(self.table(), key@, t.len() as int);
            }
        }
        self.try_entry(key).unwrap()
    }

    /// Remove all empty pages from this instance.
    ///
    /// The pages that hold an entry stay, in their order; every key is mapped
    /// to what it was mapped to.
    pub fn clean(&mut self)
        ensures
            final(self).table() == compacted(old(self).table()),
            final(self)@ == old(self)@,
            old(self).sound() ==> final(self).sound(),
            old(self).packed() ==> final(self).packed(),
    {
        proof {
            self.lemma_framed();
            lemma_compacted_contents(self.table());
            lemma_compacted_sound(self.table());
        }
        let ghost all = self.table();
        let ghost done: int = 0;
        let mut i: usize = 0;
        while i != self.0.len()
            invariant
                i <= self.0.len(),
                0 <= done <= all.len(),
                self.table().take(i as int) == compacted(all.take(done)),
                self.table().skip(i as int) == all.skip(done),
            decreases self.0.len() - i,
        {
            proof {
                assert(self.table().skip(i as int).len() == self.table().len() - i);
                assert(all.skip(done).len() == all.len() - done);
                assert(self.table()[i as int] == self.table().skip(i as int)[0]);
                assert(all[done] == all.skip(done)[0]);
                assert(all.take(done + 1) =~= all.take(done).push(all[done]));
                all.take(done).lemma_filter_push(all[done], occupied::<K, V>());
            }
            let ghost before = self.table();
            if self.0[i].len() < 1 {
                self.0.remove(i);
                proof {
                    assert(self.table() =~= before.remove(i as int));
                    assert(self.table().take(i as int) =~= before.take(i as int));
                    assert(self.table().skip(i as int) =~= before.skip(i as int).skip(1));
                    assert(all.skip(done + 1) =~= all.skip(done).skip(1));
                }
            } else {
                i += 1;
                proof {
                    assert(before.take(i as int) =~= before.take(i - 1).push(before[i - 1]));
                    assert(before.skip(i as int) =~= before.skip(i - 1).skip(1));
                    assert(all.skip(done + 1) =~= all.skip(done).skip(1));
                }
            }
            proof {
                done = done + 1;
            }
        }
        proof {
            assert(self.table().take(i as int) =~= self.table());
            assert(all.skip(done).len() == 0);
            assert(all.take(done) =~= all);
        }
    }

    /// The number of entries currently in this map
    ///
    /// This is an iterating count over all slots in all current pages, if possible store it in a temporary instead of re-calling it.
    /// The count has to fit in a `usize`, which it does where 256 times the
    /// number of pages does.
    pub fn len(&self) -> (count: usize)
        requires
            self.table().len() * 256 <= usize::MAX,
        ensures
            count == all_entries(self.table()).len(),
            self.sound() ==> self@.dom().finite() && count == self@.dom().len(),
    {
        proof {
            if self.sound() {
                lemma_sound_len(self.table());
            }
        }
        let mut count: usize = 0;
        let mut i: usize = 0;
        while i < self.0.len()
            invariant
                i <= self.0.len(),
                self.table().len() * 256 <= usize::MAX,
                count <= i * 256,
                count == all_entries(self.table().take(i as int)).len(),
            decreases self.0.len() - i,
        {
            proof {
                let page = self.table()[i as int];
                assert(self.table().take(i + 1) =~= self.table().take(i as int) + seq![page]);
                lemma_all_entries_concat(self.table().take(i as int), seq![page]);
                lemma_all_entries_one(page);
            }
            count += self.0[i].len();
            i += 1;
        }
        proof {
            assert(self.table().take(i as int) =~= self.table());
        }
        count
    }

    /// Is this map empty
    ///
    /// This looks at the first page only: a map without pages is empty, and
    /// in a packed map no other page holds an entry if the first holds none.
    pub fn is_empty(&self) -> (empty: bool)
        ensures
            empty == (self.table().len() == 0 || entries(self.table()[0]).len() == 0),
            self.packed() ==> empty == (all_entries(self.table()).len() == 0),
            self.packed() && self.sound() ==> empty == (self@.dom().len() == 0),
    {
        proof {
            self.lemma_framed();
            if self.packed() && self.table().len() > 0 {
                lemma_packed_empty(self.table());
            }
            if self.sound() {
                lemma_sound_len(self.table());
            }
        }
        if self.0.len() == 0 {
            true
        } else {
            self.0[0].iter().next().is_none()
        }
    }

    /// An iterator over all pages
    pub fn pages(&self) -> (pages: Pages<'_, K, V>)
        ensures
            pages.remaining() == self.0@,
    {
        Pages(self.0.as_slice())
    }

    /// A mutable iterator over all pages
    pub fn pages_mut(&mut self) -> (pages: PagesMut<'_, K, V>)
        ensures
            pages.remaining() == old(self).0@,
            pages.0 matches Some(all) && final(self).0@ == final(all)@,
    {
        PagesMut(Some(self.0.as_mut_slice()))
    }

    /// A mutable iterator over all elements in the map
    pub fn iter_mut(&mut self) -> (entries: IterMut<'_, K, V>)
        ensures
            entries.remaining() == all_entries(old(self).table()),
            entries.0 is None,
            entries.1.remaining() == old(self).0@,
            entries.1.0 matches Some(all) && final(self).0@ == final(all)@,
    {
        IterMut(None, self.pages_mut())
    }

    /// An iterator over all elements in the map
    pub fn iter(&self) -> (entries: Iter<'_, K, V>)
        ensures
            entries.remaining() == all_entries(self.table()),
            entries == Iter(None, Pages(entries.1.0)),
            entries.1.remaining() == self.0@,
    {
        Iter(None, self.pages())
    }

    /// Consume this map into an iterator over all currently inserted entries
    pub fn into_iter(self) -> (entries: IntoIter<K, V>)
        ensures
            entries.remaining() == all_entries(self.table()),
            entries.0 is None,
            entries.1@ == self.0@.reverse(),
    {
        let mut pages = self.0;
        let mut stack: Vec<Page<K, V>> = Vec::new();
        while pages.len() > 0
            invariant
                pages@.len() <= self.0@.len(),
                pages@ == self.0@.take(pages@.len() as int),
                stack@ == self.0@.skip(pages@.len() as int).reverse(),
            decreases pages@.len(),
        {
            let ghost n = pages@.len() as int;
            let page = pages.pop().unwrap();
            stack.push(page);
            proof {
                assert(pages@ =~= self.0@.take(n - 1));
                assert(stack@ =~= self.0@.skip(n - 1).reverse());
            }
        }
        proof {
            assert(self.0@.skip(0) =~= self.0@);
            assert(stack@.reverse() =~= self.0@);
        }
        IntoIter(None, stack)
    }

    /// A map that holds the pairs, inserted one after the other.
    pub fn from_iter(pairs: Vec<(K, V)>) -> (map: Self)
        ensures
            map.table() == insert_all(seq![blank::<K, V>()], pairs@),
            map@ == mapped_all::<K, V>(Map::empty(), pairs@),
            map.sound(),
            map.packed(),
    {
        let mut this = Self::new();
        this.extend(pairs);
        this
    }

    /// Insert the pairs one after the other.
    pub fn extend(&mut self, pairs: Vec<(K, V)>)
        ensures
            final(self).table() == insert_all(old(self).table(), pairs@),
            final(self)@ == mapped_all(old(self)@, pairs@),
            old(self).sound() && old(self).packed() ==> final(self).sound() && final(self).packed(),
    {
        proof {
            self.lemma_framed();
            lemma_insert_all_contents(self.table(), pairs@);
        }
        for pair in it: pairs.into_iter()
            invariant
                it.seq() == pairs@,
                self.table() == insert_all(old(self).table(), pairs@.take(it.index() as int)),
        {
            proof {
                assert(pairs@.take(it.index() + 1).drop_last() =~= pairs@.take(it.index() as int));
            }
            let (key, value) = pair;
            self.insert(key, value);
        }
        proof {
            assert(pairs@.take(pairs@.len() as int) =~= pairs@);
        }
    }

    /// Consume this `Map` by swapping its keys and values around.
    ///
    /// The entries are inserted into a new map in their order, value for key:
    /// of two keys with the same value, the later one stays. The new map has
    /// room for as many pages as this one has, and for one where it has none.
    pub fn reverse(self) -> (output: SmallMap<V, K>) where V: Collapse
        ensures
            output.table() == reversed(self.table()),
            output@ == mapped_all::<V, K>(Map::empty(), swapped(all_entries(self.table()))),
            output.sound(),
            output.packed(),
    {
        let pages: usize = self.num_pages();
        let mut output = SmallMap::with_capacity(
            if pages == 0 {
                1
            } else {
                pages
            },
        );
        let ghost all = all_entries(self.table());
        let ghost done: int = 0;
        let mut entries = self.into_iter();
        loop
            invariant
                all == all_entries(self.table()),
                0 <= done <= all.len(),
                entries.remaining() == all.skip(done),
                output.table() == insert_all(seq![blank::<V, K>()], swapped(all.take(done))),
            decreases all.len() - done,
        {
            match entries.next() {
                Some(entry) => {
                    let (k, v) = entry;
                    output.insert(v, k);
                    proof {
                        assert(all.skip(done).len() == all.len() - done);
                        assert(all.skip(done)[0] == all[done]);
                        assert(all.skip(done).skip(1) =~= all.skip(done + 1));
                        assert(swapped(all.take(done + 1)).drop_last() =~= swapped(
                            all.take(done),
                        ));
                        done = done + 1;
                    }
                },
                None => {
                    proof {
                        assert(all.skip(done).len() == all.len() - done);
                        assert(all.take(done) =~= all);
                        lemma_blank_table::<V, K>();
                        lemma_insert_all_contents(seq![blank::<V, K>()], swapped(all));
                    }
                    return output;
                },
            }
        }
    }

    /// The number of pages currently in this map
    pub fn num_pages(&self) -> (n: usize)
        ensures
            n == self.table().len(),
    {
        self.0.len()
    }

    /// Consume the instance, returning all pages.
    pub fn into_pages(self) -> (pages: Vec<Page<K, V>>)
        ensures
            pages == self.0,
    {
        self.0
    }

    /// Create a new empty `Map`
    pub fn new() -> (map: Self)
        ensures
            map.table() == seq![blank::<K, V>()],
            map@ == Map::<K::V, V>::empty(),
            map.sound(),
            map.packed(),
    {
        let mut pages = Vec::new();
        pages.push(Page::new());
        let map = SmallMap(pages);
        proof {
            assert(map.table() =~= seq![blank::<K, V>()]);
            lemma_blank_table::<K, V>();
        }
        map
    }

    /// Create a new empty `Map` with a specific number of pages pre-allocated
    ///
    /// The number of pages cannot be 0. The map is the one that `new` gives:
    /// one blank page. The pages asked for are room set aside in the vector,
    /// which is the allocator's to give and has no part in what the map holds.
    pub fn with_capacity(pages: usize) -> (map: Self)
        requires
            pages > 0,
        ensures
            map.table() == seq![blank::<K, V>()],
            map@ == Map::<K::V, V>::empty(),
            map.sound(),
            map.packed(),
    {
        let mut p = Vec::with_capacity(pages);
        p.push(Page::new());
        let map = SmallMap(p);
        proof {
            assert(map.table() =~= seq![blank::<K, V>()]);
            lemma_blank_table::<K, V>();
        }
        map
    }

    /// Get a reference of the value corresponding to this key if it is in the map.
    pub fn get(&self, key: &K) -> (found: Option<&V>)
        ensures
            found is Some == self@.contains_key(key@),
            found matches Some(value) ==> *value == self@[key@],
    {
        let p: usize = self.seek(key);
        if p < self.0.len() {
            proof {
                lemma_first_holding_from(self.table(), key@, 0);
            }
            Some(&self.0[p].search(key).as_ref().unwrap().1)
        } else {
            None
        }
    }

    /// Search the map for entry corresponding to this key
    pub fn contains_key(&self, key: &K) -> (found: bool)
        ensures
            found == self@.contains_key(key@),
    {
        self.get(key).is_some()
    }

    /// Get a mutable reference of the value corresponding to this key if it is in the map.
    pub fn get_mut(&mut self, key: &K) -> (found: Option<&mut V>)
        ensures
            found is Some == old(self)@.contains_key(key@),
            found matches Some(value) ==> *value == old(self)@[key@],
            found matches Some(value) ==> final(self).table() =~= put(
                old(self).table(),
                first_holding(old(self).table(), key@),
                K::reduce(key@) as int,
                Some(
                    (
                        old(self).table()[first_holding(old(self).table(), key@)][K::reduce(
                            key@,
                        ) as int].unwrap().0,
                        *final(value),
                    ),
                ),
            ),
            found matches Some(value) ==> {
                &&& final(self)@ == old(self)@.insert(key@, *final(value))
                &&& old(self).sound() ==> final(self).sound()
                &&& old(self).packed() ==> final(self).packed()
            },
            found is None ==> *final(self) == *old(self),
    {
        let p: usize = self.seek(key);
        if p < self.0.len() {
            proof {
                lemma_first_holding_from(self.table(), key@, 0);
                self.lemma_framed();
                let t = self.table();
                let b = K::reduce(key@) as int;
                assert forall|value: V| #![trigger put(t, p as int, b, Some((t[p as int][b].unwrap().0, value)))]
                    {
                        let u = put(t, p as int, b, Some((t[p as int][b].unwrap().0, value)));
                        &&& contents(u) == contents(t).insert(key@, value)
                        &&& sound(t) ==> sound(u)
                        &&& packed(t) ==> packed(u)
                    } by {
                    lemma_revalued(t, key@, value);
                }
            }
            let value = self.page_mut(p).value_mut(key);
            Some(value)
        } else {
            None
        }
    }

    /// Remove the entry corresponding to this key in the map, returning the value if it was present
    ///
    /// The first slot that holds the key is emptied. No page is taken away.
    pub fn remove(&mut self, key: &K) -> (taken: Option<V>)
        ensures
            taken == old(self)@.get(key@),
            final(self).table() == removed(old(self).table(), key@),
            old(self).sound() ==> final(self).sound() && final(self)@ == old(self)@.remove(key@),
    {
        proof {
            if self.sound() {
                lemma_removed_sound(self.table(), key@);
            }
        }
        let p: usize = self.seek(key);
        if p < self.0.len() {
            proof {
                lemma_first_holding_from(self.table(), key@, 0);
            }
            let slot = self.0[p].search_mut(key);
            let taken = match slot.take() {
                Some(entry) => Some(entry.1),
                None => None,
            };
            assert(self.table() =~= removed(old(self).table(), key@));
            taken
        } else {
            None
        }
    }

    /// Insert a new key-value entry into this map, returning the pervious value if it was present
    ///
    /// The entry goes into the first page whose slot for the key is empty or
    /// holds the key, and into a new page behind the others where every
    /// page's slot holds another key. No entry is moved.
    pub fn insert(&mut self, key: K, value: V) -> (previous: Option<V>)
        ensures
            previous == displaced(old(self).table(), key),
            final(self).table() == inserted(old(self).table(), key, value),
            final(self)@ == old(self)@.insert(key@, value),
            old(self).sound() && old(self).packed() ==> {
                &&& final(self).sound()
                &&& final(self).packed()
                &&& previous == old(self)@.get(key@)
            },
    {
        proof {
            self.lemma_framed();
            lemma_inserted_contents(self.table(), key, value);
            if self.sound() && self.packed() {
                lemma_inserted_sound(self.table(), key, value);
            }
        }
        let p: usize = self.seek_free(&key);
        if p < self.0.len() {
            proof {
                lemma_first_accepting_from(self.table(), key@, 0);
            }
            let slot = self.0[p].search_mut(&key);
            let previous = match slot {
                Some(entry) => {
                    let mut value = value;
                    core::mem::swap(&mut entry.1, &mut value);
                    Some(value)
                },
                None => {
                    *slot = Some((key, value));
                    None
                },
            };
            assert(self.table() =~= inserted(old(self).table(), key, value));
            previous
        } else {
            let mut page = Page::new();
            page.replace(key, value);
            self.0.push(page);
            assert(self.table() =~= inserted(old(self).table(), key, value));
            None
        }
    }
}

} // verus!
