//! What holds of the map's operations, taken together.
use vstd::prelude::*;
use crate::collapse::Collapse;
use crate::lemmas::{
    lemma_all_entries_put, lemma_all_entries_stores, lemma_compacted_contents,
    lemma_compacted_len, lemma_first_accepting_from, lemma_first_accepting_is,
    lemma_first_holding_is, lemma_insert_all_stores, lemma_inserted_contents,
    lemma_inserted_framed, lemma_inserted_written, lemma_sound_same_contents,
};
use crate::page::{blank, entries, lemma_entries_blank_update};
use crate::table::{
    accepts, all_entries, compacted, contents, displaced, distinct, distinct_values,
    first_accepting,
    framed, holds, insert_all, inserted, kept_key, lookup, one_pair_per_key, opened, put,
    reversed, sound, stores, swapped, written, Table,
};

verus! {

/// Keys that are equal reduce to the same byte.
pub proof fn law_equal_keys_reduce_alike<K: Collapse>(a: K, b: K)
    requires
        a@ == b@,
    ensures
        K::reduce(a@) == K::reduce(b@),
{
}

/// After a key is inserted with a value, a lookup of the key finds the value.
pub proof fn law_round_trip<K: Collapse, V>(t: Table<K, V>, key: K, value: V)
    requires
        framed(t),
    ensures
        contents(inserted(t, key, value)).contains_key(key@),
        contents(inserted(t, key, value))[key@] == value,
{
    lemma_inserted_contents(t, key, value);
}

/// A second insertion of a key hands back the value of the first, and leaves
/// the number of entries as the first left it.
pub proof fn law_overwrite<K: Collapse, V>(t: Table<K, V>, key: K, first: V, second: V)
    requires
        framed(t),
    ensures
        displaced(inserted(t, key, first), key) == Some(first),
        all_entries(inserted(inserted(t, key, first), key, second)).len() == all_entries(
            inserted(t, key, first),
        ).len(),
{
    let id = key@;
    let b = K::reduce(id) as int;
    let p = first_accepting(t, id);
    let u = inserted(t, key, first);
    lemma_first_accepting_from(t, id, 0);
    lemma_inserted_written(t, key, first);
    lemma_inserted_framed(t, key, first);
    assert forall|q: int| 0 <= q < p implies !accepts(#[trigger] u[q][b], id) by {
        assert(u[q] == t[q]);
    }
    lemma_first_accepting_is(u, id, p);
    let v = inserted(u, key, second);
    assert(v =~= put(u, p, b, Some((kept_key(t, key), second))));
    lemma_all_entries_put(u, p, b, Some((kept_key(t, key), second)));
}

/// The table after the insertion, into a new map, of the first `n` of the
/// pairs, whose keys differ and all reduce to `b`: one page for each pair,
/// blank but for the pair in slot `b`.
proof fn lemma_spill<K: Collapse, V>(pairs: Seq<(K, V)>, b: u8, n: int)
    requires
        1 <= n <= pairs.len(),
        forall|i: int| 0 <= i < pairs.len() ==> K::reduce(#[trigger] pairs[i].0@) == b,
        forall|i: int, j: int|
            0 <= i < j < pairs.len() ==> (#[trigger] pairs[i]).0@ != (#[trigger] pairs[j]).0@,
    ensures
        insert_all(seq![blank::<K, V>()], pairs.take(n)).len() == n,
        forall|i: int|
            0 <= i < n ==> (#[trigger] insert_all(seq![blank::<K, V>()], pairs.take(n))[i])
                == blank::<K, V>().update(b as int, Some(pairs[i])),
    decreases n,
{
    let start = seq![blank::<K, V>()];
    let pair = pairs[n - 1];
    assert(pairs.take(n).drop_last() =~= pairs.take(n - 1));
    assert(pairs.take(n).last() == pair);
    assert(K::reduce(pair.0@) == b);
    if n == 1 {
        assert(pairs.take(0) =~= Seq::<(K, V)>::empty());
        assert(insert_all(start, pairs.take(0)) == start);
        lemma_first_accepting_is(start, pair.0@, 0);
        assert(insert_all(start, pairs.take(1)) =~= seq![
            blank::<K, V>().update(b as int, Some(pair)),
        ]);
    } else {
        lemma_spill(pairs, b, n - 1);
        let t = insert_all(start, pairs.take(n - 1));
        assert forall|q: int| 0 <= q < t.len() implies !accepts(
            #[trigger] t[q][b as int],
            pair.0@,
        ) by {
            assert(t[q] == blank::<K, V>().update(b as int, Some(pairs[q])));
            assert(pairs[q].0@ != pairs[n - 1].0@);
        }
        lemma_first_accepting_is(t, pair.0@, n - 1);
        let u = insert_all(start, pairs.take(n));
        assert(u == inserted(t, pair.0, pair.1));
        assert forall|i: int| 0 <= i < n implies (#[trigger] u[i]) == blank::<K, V>().update(
            b as int,
            Some(pairs[i]),
        ) by {
            if i < n - 1 {
                assert(u[i] == t[i]);
            }
        }
    }
}

/// Keys that differ and all reduce to one byte, inserted into a new map, take
/// one page each: the pages are as many as the keys, each page holds the one
/// entry of its key, and a lookup of each key finds its value.
pub proof fn law_collision_spill<K: Collapse, V>(pairs: Seq<(K, V)>, b: u8)
    requires
        pairs.len() > 0,
        forall|i: int| 0 <= i < pairs.len() ==> K::reduce(#[trigger] pairs[i].0@) == b,
        forall|i: int, j: int|
            0 <= i < j < pairs.len() ==> (#[trigger] pairs[i]).0@ != (#[trigger] pairs[j]).0@,
    ensures
        insert_all(seq![blank::<K, V>()], pairs).len() == pairs.len(),
        forall|i: int|
            0 <= i < pairs.len() ==> entries(
                #[trigger] insert_all(seq![blank::<K, V>()], pairs)[i],
            ) == seq![pairs[i]],
        forall|i: int|
            0 <= i < pairs.len() ==> lookup(
                insert_all(seq![blank::<K, V>()], pairs),
                #[trigger] pairs[i].0@,
            ) == Some(pairs[i].1),
{
    let t = insert_all(seq![blank::<K, V>()], pairs);
    assert(pairs.take(pairs.len() as int) =~= pairs);
    lemma_spill(pairs, b, pairs.len() as int);
    assert forall|i: int| 0 <= i < pairs.len() implies entries(#[trigger] t[i]) == seq![
        pairs[i],
    ] by {
        lemma_entries_blank_update(b as int, pairs[i]);
    }
    assert forall|i: int| 0 <= i < pairs.len() implies lookup(t, #[trigger] pairs[i].0@) == Some(
        pairs[i].1,
    ) by {
        let id = pairs[i].0@;
        assert forall|q: int| 0 <= q < i implies !holds(#[trigger] t[q][K::reduce(id) as int], id) by {
            assert(t[q] == blank::<K, V>().update(b as int, Some(pairs[q])));
            assert(pairs[q].0@ != pairs[i].0@);
        }
        assert(t[i] == blank::<K, V>().update(b as int, Some(pairs[i])));
        lemma_first_holding_is(t, id, i);
    }
}

/// Once the slot of the entry for a key holds an entry for that key, the
/// entry for the key is sought in the same table, is over the same slot, and
/// finds that entry in it; left as it is, the table is as it was.
pub proof fn law_entry_idempotent<K: Collapse, V>(t: Table<K, V>, held: (K, V))
    requires
        framed(t),
    ensures
        ({
            let id = held.0@;
            let u = written(t, id, Some(held));
            &&& opened(u, id) == u
            &&& first_accepting(u, id) == first_accepting(t, id)
            &&& u[first_accepting(u, id)][K::reduce(id) as int] == Some(held)
            &&& written(u, id, Some(held)) == u
        }),
{
    let id = held.0@;
    let b = K::reduce(id) as int;
    let p = first_accepting(t, id);
    let u = written(t, id, Some(held));
    lemma_first_accepting_from(t, id, 0);
    assert forall|q: int| 0 <= q < p implies !accepts(#[trigger] u[q][b], id) by {
        assert(u[q] == t[q]);
    }
    assert(opened(t, id)[p].len() == 256);
    lemma_first_accepting_is(u, id, p);
    assert(u[p].update(b, Some(held)) =~= u[p]);
    assert(written(u, id, Some(held)) =~= u);
}

/// Compaction leaves every key mapped to what it was mapped to; it takes the
/// number of pages down if there is a page without an entry; and it leaves
/// the table as it is if there is none.
pub proof fn law_compaction<K: Collapse, V>(t: Table<K, V>)
    requires
        framed(t),
    ensures
        contents(compacted(t)) == contents(t),
        (exists|p: int| 0 <= p < t.len() && entries(#[trigger] t[p]).len() == 0) ==> compacted(
            t,
        ).len() < t.len(),
        (forall|p: int| 0 <= p < t.len() ==> entries(#[trigger] t[p]).len() > 0) ==> compacted(t)
            == t,
{
    lemma_compacted_contents(t);
    lemma_compacted_len(t);
}

/// Two entries of a table are the same entry if they have the same key and
/// the table holds no key twice, and if they have the same value and the
/// table holds no value twice: they sit in the same slot.
proof fn lemma_stored_alike<K: Collapse, V: Collapse>(t: Table<K, V>, one: (K, V), other: (K, V))
    requires
        framed(t),
        stores(t, one),
        stores(t, other),
    ensures
        distinct(t) && one.0@ == other.0@ ==> one == other,
        distinct_values(t) && one.1@ == other.1@ ==> one == other,
{
    let (p, b) = choose|p: int, b: int|
        0 <= p < t.len() && 0 <= b < t[p].len() && #[trigger] t[p][b] == Some(one);
    let (q, c) = choose|q: int, c: int|
        0 <= q < t.len() && 0 <= c < t[q].len() && #[trigger] t[q][c] == Some(other);
    assert(t[p].len() == 256 && t[q].len() == 256);
    if (distinct(t) && one.0@ == other.0@) || (distinct_values(t) && one.1@ == other.1@) {
        assert(p == q && b == c);
    }
}

/// Each entry of the map with keys and values exchanged twice is an entry of
/// the map, and each entry of the map is one of those.
proof fn lemma_reversed_twice_stores<K: Collapse, V: Collapse>(t: Table<K, V>)
    requires
        sound(t),
        distinct_values(t),
    ensures
        one_pair_per_key(swapped(all_entries(reversed(t)))),
        forall|entry: (K, V)|
            swapped(all_entries(reversed(t))).contains(entry) <==> stores(t, entry),
{
    let here = all_entries(t);
    let turned = swapped(here);
    assert forall|i: int, j: int| 0 <= i < turned.len() && 0 <= j < turned.len() implies ((
    #[trigger] turned[i]).0@ == (#[trigger] turned[j]).0@ ==> turned[i] == turned[j]) by {
        assert(here.contains(here[i]));
        assert(here.contains(here[j]));
        lemma_all_entries_stores(t, here[i]);
        lemma_all_entries_stores(t, here[j]);
        lemma_stored_alike(t, here[i], here[j]);
    }
    lemma_insert_all_stores(turned);
    let once = reversed(t);
    let there = all_entries(once);
    let back = swapped(there);
    assert forall|entry: (K, V)| back.contains(entry) <==> stores(t, entry) by {
        let other = (entry.1, entry.0);
        lemma_all_entries_stores(once, other);
        lemma_all_entries_stores(t, entry);
        if back.contains(entry) {
            let i = choose|i: int| 0 <= i < back.len() && back[i] == entry;
            assert(there[i] == other);
            assert(there.contains(other));
            assert(stores(once, other));
            assert(turned.contains(other));
            let m = choose|m: int| 0 <= m < turned.len() && turned[m] == other;
            assert(here[m] == entry);
            assert(here.contains(entry));
        }
        if stores(t, entry) {
            assert(here.contains(entry));
            let m = choose|m: int| 0 <= m < here.len() && here[m] == entry;
            assert(turned[m] == other);
            assert(turned.contains(other));
            assert(stores(once, other));
            assert(there.contains(other));
            let i = choose|i: int| 0 <= i < there.len() && there[i] == other;
            assert(back[i] == entry);
        }
    }
    assert forall|i: int, j: int| 0 <= i < back.len() && 0 <= j < back.len() implies ((
    #[trigger] back[i]).0@ == (#[trigger] back[j]).0@ ==> back[i] == back[j]) by {
        assert(back.contains(back[i]));
        assert(back.contains(back[j]));
        assert(stores(t, back[i]));
        assert(stores(t, back[j]));
        lemma_stored_alike(t, back[i], back[j]);
    }
}

/// A map whose entries are all found by a lookup of their key, and of which
/// no two have the same value, maps every key to what it was mapped to after
/// its keys and values were exchanged twice.
pub proof fn law_reverse_twice<K: Collapse, V: Collapse>(t: Table<K, V>)
    requires
        sound(t),
        distinct_values(t),
    ensures
        contents(reversed(reversed(t))) == contents(t),
{
    let back = swapped(all_entries(reversed(t)));
    lemma_reversed_twice_stores(t);
    lemma_insert_all_stores(back);
    lemma_sound_same_contents(reversed(reversed(t)), t);
}

} // verus!
