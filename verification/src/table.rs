//! The mathematical model of a map: its pages in order, each a run of 256
//! slots, and what a walk over them finds.
use vstd::prelude::*;
use crate::collapse::Collapse;
use crate::page::{blank, entries};

verus! {

/// The pages of a map, first page first.
pub type Table<K, V> = Seq<Seq<Option<(K, V)>>>;

/// The slot holds an entry whose key is `id`.
pub open spec fn holds<K: Collapse, V>(slot: Option<(K, V)>, id: K::V) -> bool {
    slot matches Some(entry) && entry.0@ == id
}

/// The slot is free for a key `id`: it is empty, or holds that key already.
pub open spec fn accepts<K: Collapse, V>(slot: Option<(K, V)>, id: K::V) -> bool {
    slot is None || holds(slot, id)
}

/// Every page has 256 slots.
pub open spec fn framed<K, V>(t: Table<K, V>) -> bool {
    forall|p: int| 0 <= p < t.len() ==> (#[trigger] t[p]).len() == 256
}

/// The first page from `from` on whose slot for `id` holds `id`; the number
/// of pages if there is none.
pub open spec fn first_holding_from<K: Collapse, V>(t: Table<K, V>, id: K::V, from: int) -> int
    decreases t.len() - from,
{
    if from >= t.len() {
        t.len() as int
    } else if holds(t[from][K::reduce(id) as int], id) {
        from
    } else {
        first_holding_from(t, id, from + 1)
    }
}

/// The first page whose slot for `id` holds `id`; the number of pages if
/// there is none. This is where a lookup ends.
pub open spec fn first_holding<K: Collapse, V>(t: Table<K, V>, id: K::V) -> int {
    first_holding_from(t, id, 0)
}

/// The first page from `from` on whose slot for `id` is empty or holds `id`;
/// the number of pages if there is none.
pub open spec fn first_accepting_from<K: Collapse, V>(t: Table<K, V>, id: K::V, from: int) -> int
    decreases t.len() - from,
{
    if from >= t.len() {
        t.len() as int
    } else if accepts(t[from][K::reduce(id) as int], id) {
        from
    } else {
        first_accepting_from(t, id, from + 1)
    }
}

/// The first page whose slot for `id` is empty or holds `id`; the number of
/// pages if every page's slot holds another key. This is where an insertion
/// ends.
pub open spec fn first_accepting<K: Collapse, V>(t: Table<K, V>, id: K::V) -> int {
    first_accepting_from(t, id, 0)
}

/// Every entry sits in the slot that its key reduces to.
pub open spec fn keyed<K: Collapse, V>(t: Table<K, V>) -> bool {
    forall|p: int, b: int|
        0 <= p < t.len() && 0 <= b < 256 ==> ((#[trigger] t[p][b]) matches Some(entry)
            ==> K::reduce(entry.0@) == b)
}

/// No key is held by two slots.
pub open spec fn distinct<K: Collapse, V>(t: Table<K, V>) -> bool {
    forall|p: int, b: int, q: int, c: int|
        0 <= p < t.len() && 0 <= b < 256 && 0 <= q < t.len() && 0 <= c < 256 ==> ((
        #[trigger] t[p][b]) matches Some(one) ==> ((#[trigger] t[q][c]) matches Some(other)
            ==> (one.0@ == other.0@ ==> p == q && b == c)))
}

/// Every entry is the one that a lookup of its key finds: each page has its
/// 256 slots, each entry sits in the slot that its key reduces to, and no key
/// is held twice.
pub open spec fn sound<K: Collapse, V>(t: Table<K, V>) -> bool {
    framed(t) && keyed(t) && distinct(t)
}

/// No slot is empty in a page before one in which it is occupied: a key that
/// found its slot taken in every page so far went into a new page.
pub open spec fn packed<K, V>(t: Table<K, V>) -> bool {
    forall|p: int, q: int, b: int|
        0 <= p < q < t.len() && 0 <= b < 256 ==> ((#[trigger] t[q][b]) is Some ==> (
        #[trigger] t[p][b]) is Some)
}

/// The table with slot `b` of page `p` replaced.
pub open spec fn put<K, V>(t: Table<K, V>, p: int, b: int, slot: Option<(K, V)>) -> Table<K, V> {
    t.update(p, t[p].update(b, slot))
}

/// What a lookup finds: each key that some page holds in the slot it reduces
/// to, with the value beside it in the first such page.
pub open spec fn contents<K: Collapse, V>(t: Table<K, V>) -> Map<K::V, V> {
    Map::new(
        |id: K::V| first_holding(t, id) < t.len(),
        |id: K::V| t[first_holding(t, id)][K::reduce(id) as int].unwrap().1,
    )
}

/// All entries of the table: page by page, and in each page slot by slot.
pub open spec fn all_entries<K, V>(t: Table<K, V>) -> Seq<(K, V)>
    decreases t.len(),
{
    if t.len() == 0 {
        Seq::empty()
    } else {
        entries(t[0]) + all_entries(t.skip(1))
    }
}

/// The number of pages without an entry before the first page that holds
/// one; the number of pages if none holds one.
pub open spec fn leading_blank<K, V>(t: Table<K, V>) -> int
    decreases t.len(),
{
    if t.len() == 0 || entries(t[0]).len() > 0 {
        0
    } else {
        1 + leading_blank(t.skip(1))
    }
}

/// Some slot of the table holds the entry.
pub open spec fn stores<K, V>(t: Table<K, V>, entry: (K, V)) -> bool {
    exists|p: int, b: int|
        0 <= p < t.len() && 0 <= b < t[p].len() && #[trigger] t[p][b] == Some(entry)
}

/// The table after an insertion of `key` with `value`: the entry goes into
/// the first page whose slot for the key is empty or holds the key, and into a
/// new page behind the others if there is no such page. A slot that holds the
/// key keeps the key it has and takes the value.
pub open spec fn inserted<K: Collapse, V>(t: Table<K, V>, key: K, value: V) -> Table<K, V> {
    let b = K::reduce(key@) as int;
    let p = first_accepting(t, key@);
    if p < t.len() {
        match t[p][b] {
            Some(entry) => put(t, p, b, Some((entry.0, value))),
            None => put(t, p, b, Some((key, value))),
        }
    } else {
        t.push(blank::<K, V>().update(b, Some((key, value))))
    }
}

/// The table after the insertion of each of `pairs` in turn.
pub open spec fn insert_all<K: Collapse, V>(t: Table<K, V>, pairs: Seq<(K, V)>) -> Table<K, V> {
    pairs.fold_left(t, |acc: Table<K, V>, pair: (K, V)| inserted(acc, pair.0, pair.1))
}

/// Each pair with its two parts exchanged.
pub open spec fn swapped<K, V>(pairs: Seq<(K, V)>) -> Seq<(V, K)> {
    pairs.map_values(|pair: (K, V)| (pair.1, pair.0))
}

/// The table of the map with keys and values exchanged: a new map into which
/// each entry of the table was inserted, in the order of the entries, with
/// its value for the key and its key for the value.
pub open spec fn reversed<K: Collapse, V: Collapse>(t: Table<K, V>) -> Table<V, K> {
    insert_all(seq![blank::<V, K>()], swapped(all_entries(t)))
}

/// No value is held by two slots.
pub open spec fn distinct_values<K, V: Collapse>(t: Table<K, V>) -> bool {
    forall|p: int, b: int, q: int, c: int|
        0 <= p < t.len() && 0 <= b < 256 && 0 <= q < t.len() && 0 <= c < 256 ==> ((
        #[trigger] t[p][b]) matches Some(one) ==> ((#[trigger] t[q][c]) matches Some(other)
            ==> (one.1@ == other.1@ ==> p == q && b == c)))
}

/// The page holds an entry.
pub open spec fn occupied<K, V>() -> spec_fn(Seq<Option<(K, V)>>) -> bool {
    |page: Seq<Option<(K, V)>>| entries(page).len() > 0
}

/// The table without the pages that hold no entry.
pub open spec fn compacted<K, V>(t: Table<K, V>) -> Table<K, V> {
    t.filter(occupied::<K, V>())
}

/// The table in which an entry for the key `id` is sought: the table itself
/// if one of its pages has the slot for `id` empty or holding `id`, and else
/// the table with a blank page behind the others.
pub open spec fn opened<K: Collapse, V>(t: Table<K, V>, id: K::V) -> Table<K, V> {
    if first_accepting(t, id) < t.len() {
        t
    } else {
        t.push(blank::<K, V>())
    }
}

/// The table after a write through the entry for the key `id`: the slot of
/// the entry, in the table in which the entry is sought, holds `slot`.
pub open spec fn written<K: Collapse, V>(t: Table<K, V>, id: K::V, slot: Option<(K, V)>) -> Table<
    K,
    V,
> {
    put(opened(t, id), first_accepting(t, id), K::reduce(id) as int, slot)
}

/// The key that the slot for `key` holds after an insertion: the one that it
/// holds already, and `key` itself where the slot is empty.
pub open spec fn kept_key<K: Collapse, V>(t: Table<K, V>, key: K) -> K {
    let p = first_accepting(t, key@);
    if p < t.len() && t[p][K::reduce(key@) as int] is Some {
        t[p][K::reduce(key@) as int].unwrap().0
    } else {
        key
    }
}

/// The value that an insertion of `key` displaces: the one beside the key in
/// the slot that the insertion writes, if that slot holds the key.
pub open spec fn displaced<K: Collapse, V>(t: Table<K, V>, key: K) -> Option<V> {
    let b = K::reduce(key@) as int;
    let p = first_accepting(t, key@);
    if p < t.len() {
        match t[p][b] {
            Some(entry) => Some(entry.1),
            None => None,
        }
    } else {
        None
    }
}

/// The table after a removal of the key `id`: the first slot that holds it is
/// emptied.
pub open spec fn removed<K: Collapse, V>(t: Table<K, V>, id: K::V) -> Table<K, V> {
    let p = first_holding(t, id);
    if p < t.len() {
        put(t, p, K::reduce(id) as int, None)
    } else {
        t
    }
}

/// What a lookup of the key `id` finds: the value beside the key in the first
/// page whose slot for the key holds it.
pub open spec fn lookup<K: Collapse, V>(t: Table<K, V>, id: K::V) -> Option<V> {
    if first_holding(t, id) < t.len() {
        Some(t[first_holding(t, id)][K::reduce(id) as int].unwrap().1)
    } else {
        None
    }
}

/// The page of the table that is page `i` of the compacted table.
pub open spec fn origin<K, V>(t: Table<K, V>, i: int) -> int
    decreases t.len(),
{
    if t.len() == 0 {
        0
    } else if occupied::<K, V>()(t.last()) && i == compacted(t.drop_last()).len() {
        t.len() - 1
    } else {
        origin(t.drop_last(), i)
    }
}

/// The map after each of `pairs` was mapped in turn, key to value.
pub open spec fn mapped_all<K: Collapse, V>(m: Map<K::V, V>, pairs: Seq<(K, V)>) -> Map<K::V, V> {
    pairs.fold_left(m, |acc: Map<K::V, V>, pair: (K, V)| acc.insert(pair.0@, pair.1))
}

/// Pairs with the same key are the same pair.
pub open spec fn one_pair_per_key<K: Collapse, V>(pairs: Seq<(K, V)>) -> bool {
    forall|i: int, j: int|
        0 <= i < pairs.len() && 0 <= j < pairs.len() ==> ((#[trigger] pairs[i]).0@ == (
        #[trigger] pairs[j]).0@ ==> pairs[i] == pairs[j])
}

/// No two of the entries have the same key.
pub open spec fn keys_differ<K: Collapse, V>(list: Seq<(K, V)>) -> bool {
    forall|i: int, j: int|
        0 <= i < j < list.len() ==> (#[trigger] list[i]).0@ != (#[trigger] list[j]).0@
}

} // verus!
