//! What holds of the model of a map: the proofs that the contracts of the
//! map and the laws rest on.
use vstd::prelude::*;
use crate::collapse::Collapse;
use crate::page::{
    blank, entries, lemma_entries_contains, lemma_entries_none, lemma_entries_some,
    lemma_entries_update,
};
use crate::table::{
    accepts, all_entries, compacted, contents, displaced, distinct, first_accepting,
    first_accepting_from, first_holding, first_holding_from, framed, holds, insert_all, inserted,
    kept_key, keys_differ, leading_blank, lookup, mapped_all, occupied, one_pair_per_key, opened,
    origin, packed, put, removed, sound, stores, written, Table,
};

verus! {

/// `first_holding_from` is the least page from `from` on that holds `id`.
pub proof fn lemma_first_holding_from<K: Collapse, V>(t: Table<K, V>, id: K::V, from: int)
    requires
        0 <= from <= t.len(),
    ensures
        from <= first_holding_from(t, id, from) <= t.len(),
        first_holding_from(t, id, from) < t.len() ==> holds(
            t[first_holding_from(t, id, from)][K::reduce(id) as int],
            id,
        ),
        forall|q: int|
            from <= q < first_holding_from(t, id, from) ==> !holds(
                #[trigger] t[q][K::reduce(id) as int],
                id,
            ),
    decreases t.len() - from,
{
    if from < t.len() && !holds(t[from][K::reduce(id) as int], id) {
        lemma_first_holding_from(t, id, from + 1);
    }
}

/// `first_accepting_from` is the least page from `from` on that accepts `id`.
pub proof fn lemma_first_accepting_from<K: Collapse, V>(t: Table<K, V>, id: K::V, from: int)
    requires
        0 <= from <= t.len(),
    ensures
        from <= first_accepting_from(t, id, from) <= t.len(),
        first_accepting_from(t, id, from) < t.len() ==> accepts(
            t[first_accepting_from(t, id, from)][K::reduce(id) as int],
            id,
        ),
        forall|q: int|
            from <= q < first_accepting_from(t, id, from) ==> !accepts(
                #[trigger] t[q][K::reduce(id) as int],
                id,
            ),
    decreases t.len() - from,
{
    if from < t.len() && !accepts(t[from][K::reduce(id) as int], id) {
        lemma_first_accepting_from(t, id, from + 1);
    }
}

/// A page `p` is the first that holds `id` if it holds it and no page before
/// it does; the number of pages is, if no page does.
pub proof fn lemma_first_holding_is<K: Collapse, V>(t: Table<K, V>, id: K::V, p: int)
    requires
        0 <= p <= t.len(),
        p < t.len() ==> holds(t[p][K::reduce(id) as int], id),
        forall|q: int| 0 <= q < p ==> !holds(#[trigger] t[q][K::reduce(id) as int], id),
    ensures
        first_holding(t, id) == p,
{
    lemma_first_holding_from(t, id, 0);
}

/// A page `p` is the first that accepts `id` if it accepts it and no page
/// before it does; the number of pages is, if no page does.
pub proof fn lemma_first_accepting_is<K: Collapse, V>(t: Table<K, V>, id: K::V, p: int)
    requires
        0 <= p <= t.len(),
        p < t.len() ==> accepts(t[p][K::reduce(id) as int], id),
        forall|q: int| 0 <= q < p ==> !accepts(#[trigger] t[q][K::reduce(id) as int], id),
    ensures
        first_accepting(t, id) == p,
{
    lemma_first_accepting_from(t, id, 0);
}

/// `n` is the number of leading pages without an entry if the first `n` pages
/// hold none and the page behind them, if there is one, holds one.
pub proof fn lemma_leading_blank_is<K, V>(t: Table<K, V>, n: int)
    requires
        0 <= n <= t.len(),
        forall|j: int| 0 <= j < n ==> entries(#[trigger] t[j]).len() == 0,
        n < t.len() ==> entries(t[n]).len() > 0,
    ensures
        leading_blank(t) == n,
    decreases t.len(),
{
    if n > 0 {
        let rest = t.skip(1);
        assert forall|j: int| 0 <= j < n - 1 implies entries(#[trigger] rest[j]).len() == 0 by {
            assert(rest[j] == t[j + 1]);
        }
        lemma_leading_blank_is(rest, n - 1);
    }
}

/// The entries of two runs of pages, one after the other, are the entries of
/// the first followed by those of the second.
pub proof fn lemma_all_entries_concat<K, V>(a: Table<K, V>, b: Table<K, V>)
    ensures
        all_entries(a + b) == all_entries(a) + all_entries(b),
    decreases a.len(),
{
    if a.len() == 0 {
        assert(a + b =~= b);
        assert(all_entries(a) + all_entries(b) =~= all_entries(b));
    } else {
        assert((a + b).skip(1) =~= a.skip(1) + b);
        lemma_all_entries_concat(a.skip(1), b);
        assert(entries(a[0]) + (all_entries(a.skip(1)) + all_entries(b)) =~= (entries(a[0])
            + all_entries(a.skip(1))) + all_entries(b));
    }
}

/// Writing a slot changes the number of entries by what the slot gains or
/// loses.
pub proof fn lemma_all_entries_put<K, V>(t: Table<K, V>, p: int, b: int, slot: Option<(K, V)>)
    requires
        0 <= p < t.len(),
        0 <= b < t[p].len(),
    ensures
        all_entries(put(t, p, b, slot)).len() + (if t[p][b] is Some {
            1int
        } else {
            0int
        }) == all_entries(t).len() + (if slot is Some {
            1int
        } else {
            0int
        }),
{
    let front = t.take(p);
    let back = t.skip(p + 1);
    let page = t[p].update(b, slot);
    assert(t =~= front + seq![t[p]] + back);
    assert(put(t, p, b, slot) =~= front + seq![page] + back);
    lemma_all_entries_concat(front + seq![t[p]], back);
    lemma_all_entries_concat(front, seq![t[p]]);
    lemma_all_entries_concat(front + seq![page], back);
    lemma_all_entries_concat(front, seq![page]);
    lemma_all_entries_one(t[p]);
    lemma_all_entries_one(page);
    lemma_entries_update(t[p], b, slot);
}

/// The entries of a table are what its occupied slots hold.
pub proof fn lemma_all_entries_stores<K, V>(t: Table<K, V>, entry: (K, V))
    ensures
        all_entries(t).contains(entry) <==> stores(t, entry),
    decreases t.len(),
{
    if t.len() > 0 {
        let rest = t.skip(1);
        lemma_all_entries_stores(rest, entry);
        lemma_entries_contains(t[0], entry);
        let here = entries(t[0]);
        let behind = all_entries(rest);
        let found = all_entries(t);
        if found.contains(entry) {
            let i = choose|i: int| 0 <= i < found.len() && found[i] == entry;
            if i < here.len() {
                assert(here[i] == entry);
                assert(here.contains(entry));
                let b = choose|b: int| 0 <= b < t[0].len() && #[trigger] t[0][b] == Some(entry);
                assert(t[0][b] == Some(entry));
            } else {
                assert(behind[i - here.len()] == entry);
                assert(behind.contains(entry));
                let (p, b) = choose|p: int, b: int|
                    0 <= p < rest.len() && 0 <= b < rest[p].len() && #[trigger] rest[p][b] == Some(
                        entry,
                    );
                assert(t[p + 1][b] == Some(entry));
            }
        }
        if stores(t, entry) {
            let (p, b) = choose|p: int, b: int|
                0 <= p < t.len() && 0 <= b < t[p].len() && #[trigger] t[p][b] == Some(entry);
            if p == 0 {
                assert(here.contains(entry));
                let i = choose|i: int| 0 <= i < here.len() && here[i] == entry;
                assert(found[i] == entry);
            } else {
                assert(rest[p - 1][b] == Some(entry));
                assert(stores(rest, entry));
                let j = choose|j: int| 0 <= j < behind.len() && behind[j] == entry;
                assert(found[here.len() + j] == entry);
            }
        }
    } else {
        assert(all_entries(t).len() == 0);
    }
}

/// The entries of a single page, as a table.
pub proof fn lemma_all_entries_one<K, V>(page: Seq<Option<(K, V)>>)
    ensures
        all_entries(seq![page]) == entries(page),
{
    assert(seq![page].skip(1) =~= Seq::<Seq<Option<(K, V)>>>::empty());
    assert(all_entries(seq![page].skip(1)) =~= Seq::<(K, V)>::empty());
    assert(entries(page) + Seq::<(K, V)>::empty() =~= entries(page));
}

/// Two tables in which every lookup finds the same have the same contents.
pub proof fn lemma_contents_equal<K: Collapse, V>(t: Table<K, V>, u: Table<K, V>)
    requires
        forall|id: K::V| lookup(t, id) == lookup(u, id),
    ensures
        contents(t) == contents(u),
{
    assert forall|id: K::V| contents(t).contains_key(id) == contents(u).contains_key(id) by {
        assert(lookup(t, id) == lookup(u, id));
    }
    assert forall|id: K::V| contents(t).contains_key(id) implies contents(t)[id] == contents(
        u,
    )[id] by {
        assert(lookup(t, id) == lookup(u, id));
    }
    assert(contents(t) =~= contents(u));
}

/// What a lookup finds in a table with one more page behind the others: what
/// it found before, and else what the new page holds for the key.
pub proof fn lemma_lookup_push<K: Collapse, V>(t: Table<K, V>, page: Seq<Option<(K, V)>>, id: K::V)
    ensures
        lookup(t.push(page), id) == (match lookup(t, id) {
            Some(value) => Some(value),
            None => if holds(page[K::reduce(id) as int], id) {
                Some(page[K::reduce(id) as int].unwrap().1)
            } else {
                None
            },
        }),
{
    let b = K::reduce(id) as int;
    let u = t.push(page);
    let h = first_holding(t, id);
    lemma_first_holding_from(t, id, 0);
    assert forall|q: int| 0 <= q < h implies !holds(#[trigger] u[q][b], id) by {
        assert(u[q] == t[q]);
    }
    if h < t.len() {
        assert(u[h] == t[h]);
        lemma_first_holding_is(u, id, h);
    } else if holds(page[b], id) {
        lemma_first_holding_is(u, id, h);
    } else {
        lemma_first_holding_is(u, id, h + 1);
    }
}

/// A lookup of `id` finds the same in two tables of equal length in which
/// each page's slot for `id` either is the same or holds `id` in neither.
pub proof fn lemma_lookup_same<K: Collapse, V>(t: Table<K, V>, u: Table<K, V>, id: K::V)
    requires
        t.len() == u.len(),
        forall|q: int|
            0 <= q < t.len() ==> {
                ||| (#[trigger] t[q][K::reduce(id) as int]) == u[q][K::reduce(id) as int]
                ||| (!holds(t[q][K::reduce(id) as int], id) && !holds(
                    u[q][K::reduce(id) as int],
                    id,
                ))
            },
    ensures
        lookup(t, id) == lookup(u, id),
{
    let b = K::reduce(id) as int;
    let h = first_holding(t, id);
    lemma_first_holding_from(t, id, 0);
    assert forall|q: int| 0 <= q < h implies !holds(#[trigger] u[q][b], id) by {
        assert(!holds(t[q][b], id));
    }
    if h < t.len() {
        assert(holds(t[h][b], id));
    }
    lemma_first_holding_is(u, id, h);
}

/// An insertion is a write through the entry for the key.
pub proof fn lemma_inserted_written<K: Collapse, V>(t: Table<K, V>, key: K, value: V)
    requires
        framed(t),
    ensures
        inserted(t, key, value) == written(t, key@, Some((kept_key(t, key), value))),
        kept_key(t, key)@ == key@,
{
    let b = K::reduce(key@) as int;
    lemma_first_accepting_from(t, key@, 0);
    assert(inserted(t, key, value) =~= written(t, key@, Some((kept_key(t, key), value))));
}

/// A write through the entry for a key leaves every page with 256 slots.
pub proof fn lemma_written_framed<K: Collapse, V>(t: Table<K, V>, id: K::V, slot: Option<(K, V)>)
    requires
        framed(t),
    ensures
        framed(written(t, id, slot)),
{
    lemma_first_accepting_from(t, id, 0);
    let u = written(t, id, slot);
    assert forall|p: int| 0 <= p < u.len() implies (#[trigger] u[p]).len() == 256 by {
        if p < t.len() {
            assert(t[p].len() == 256);
        }
    }
}

/// After an entry for `id` is written through the entry for `id`, a lookup of
/// `id` finds its value, and a lookup of any other key finds what it found
/// before.
pub proof fn lemma_written_lookup<K: Collapse, V>(
    t: Table<K, V>,
    entry: (K, V),
    other: K::V,
)
    requires
        framed(t),
    ensures
        lookup(written(t, entry.0@, Some(entry)), other) == (if other == entry.0@ {
            Some(entry.1)
        } else {
            lookup(t, other)
        }),
{
    let id = entry.0@;
    let b = K::reduce(id) as int;
    let p = first_accepting(t, id);
    let o = opened(t, id);
    let u = written(t, id, Some(entry));
    lemma_first_accepting_from(t, id, 0);
    if other == id {
        assert forall|q: int| 0 <= q < p implies !holds(#[trigger] u[q][b], other) by {
            assert(u[q] == t[q]);
            assert(!accepts(t[q][b], id));
        }
        lemma_first_holding_is(u, other, p);
    } else {
        if p == t.len() {
            lemma_lookup_push(t, blank::<K, V>(), other);
        }
        assert(lookup(o, other) == lookup(t, other));
        assert forall|q: int| 0 <= q < o.len() implies {
            ||| (#[trigger] o[q][K::reduce(other) as int]) == u[q][K::reduce(other) as int]
            ||| (!holds(o[q][K::reduce(other) as int], other) && !holds(
                u[q][K::reduce(other) as int],
                other,
            ))
        } by {
            if q != p {
                assert(u[q] == o[q]);
            }
        }
        lemma_lookup_same(o, u, other);
    }
}

/// A write of an entry for `id` through the entry for `id` maps `id` to the
/// entry's value and leaves what the other keys are mapped to.
pub proof fn lemma_written_contents<K: Collapse, V>(t: Table<K, V>, entry: (K, V))
    requires
        framed(t),
    ensures
        contents(written(t, entry.0@, Some(entry))) == contents(t).insert(entry.0@, entry.1),
{
    let u = written(t, entry.0@, Some(entry));
    assert forall|id: K::V| contents(u).contains_key(id) == contents(t).insert(
        entry.0@,
        entry.1,
    ).contains_key(id) by {
        lemma_written_lookup(t, entry, id);
    }
    assert forall|id: K::V| contents(u).contains_key(id) implies contents(u)[id] == contents(
        t,
    ).insert(entry.0@, entry.1)[id] by {
        lemma_written_lookup(t, entry, id);
    }
    assert(contents(u) =~= contents(t).insert(entry.0@, entry.1));
}

/// An insertion of `key` with `value` maps the key to the value and leaves
/// what the other keys are mapped to.
pub proof fn lemma_inserted_contents<K: Collapse, V>(t: Table<K, V>, key: K, value: V)
    requires
        framed(t),
    ensures
        contents(inserted(t, key, value)) == contents(t).insert(key@, value),
{
    lemma_inserted_written(t, key, value);
    lemma_written_contents(t, (kept_key(t, key), value));
}

/// An insertion leaves every page with 256 slots.
pub proof fn lemma_inserted_framed<K: Collapse, V>(t: Table<K, V>, key: K, value: V)
    requires
        framed(t),
    ensures
        framed(inserted(t, key, value)),
{
    lemma_inserted_written(t, key, value);
    lemma_written_framed(t, key@, Some((kept_key(t, key), value)));
}

/// A single blank page holds nothing, and is sound and packed.
pub proof fn lemma_blank_table<K: Collapse, V>()
    ensures
        contents(seq![blank::<K, V>()]) == Map::<K::V, V>::empty(),
        sound(seq![blank::<K, V>()]),
        packed(seq![blank::<K, V>()]),
        all_entries(seq![blank::<K, V>()]).len() == 0,
{
    let t = seq![blank::<K, V>()];
    assert forall|id: K::V| !contents(t).contains_key(id) by {
        lemma_first_holding_is(t, id, 1);
    }
    assert(contents(t) =~= Map::<K::V, V>::empty());
    lemma_all_entries_one(blank::<K, V>());
    lemma_entries_none(blank::<K, V>());
}

/// A packed table whose first page holds no entry holds no entry at all.
pub proof fn lemma_packed_empty<K, V>(t: Table<K, V>)
    requires
        framed(t),
        packed(t),
        t.len() > 0,
    ensures
        (entries(t[0]).len() == 0) == (all_entries(t).len() == 0),
{
    if entries(t[0]).len() == 0 {
        assert forall|b: int| 0 <= b < 256 implies t[0][b] is None by {
            if t[0][b] is Some {
                assert(t[0].len() == 256);
                lemma_entries_some(t[0], b);
            }
        }
        lemma_all_vacant(t, 0);
        assert(t.skip(0) =~= t);
    }
}

/// Pages whose slots are all empty hold no entry.
proof fn lemma_all_vacant<K, V>(t: Table<K, V>, from: int)
    requires
        framed(t),
        packed(t),
        0 <= from <= t.len(),
        t.len() > 0,
        forall|b: int| 0 <= b < 256 ==> (#[trigger] t[0][b]) is None,
    ensures
        all_entries(t.skip(from)).len() == 0,
    decreases t.len() - from,
{
    if from < t.len() {
        lemma_all_vacant(t, from + 1);
        assert(t.skip(from).skip(1) =~= t.skip(from + 1));
        assert(t.skip(from)[0] == t[from]);
        assert(t[from].len() == 256);
        assert forall|b: int| 0 <= b < t[from].len() implies (#[trigger] t[from][b]) is None by {
            if from > 0 && t[from][b] is Some {
                assert(t[0][b] is Some);
            }
        }
        lemma_entries_none(t[from]);
    }
}

/// In a sound table each entry is in the first page that holds its key.
pub proof fn lemma_sound_first_holding<K: Collapse, V>(t: Table<K, V>, p: int, b: int)
    requires
        sound(t),
        0 <= p < t.len(),
        0 <= b < 256,
        t[p][b] is Some,
    ensures
        K::reduce(t[p][b].unwrap().0@) == b,
        first_holding(t, t[p][b].unwrap().0@) == p,
        lookup(t, t[p][b].unwrap().0@) == Some(t[p][b].unwrap().1),
{
    let id = t[p][b].unwrap().0@;
    assert forall|q: int| 0 <= q < p implies !holds(#[trigger] t[q][K::reduce(id) as int], id) by {
        if holds(t[q][b], id) {
            assert(t[p][b] is Some);
        }
    }
    lemma_first_holding_is(t, id, p);
}

/// A write of an entry for `id` through the entry for `id`, into a sound and
/// packed table, leaves it sound and packed.
pub proof fn lemma_written_sound<K: Collapse, V>(t: Table<K, V>, entry: (K, V))
    requires
        sound(t),
        packed(t),
    ensures
        sound(written(t, entry.0@, Some(entry))),
        packed(written(t, entry.0@, Some(entry))),
        opened(t, entry.0@)[first_accepting(t, entry.0@)][K::reduce(entry.0@) as int] == (
        if lookup(t, entry.0@) is Some {
            Some((t[first_holding(t, entry.0@)][K::reduce(entry.0@) as int].unwrap().0, lookup(
                t,
                entry.0@,
            ).unwrap()))
        } else {
            None
        }),
{
    let id = entry.0@;
    let b = K::reduce(id) as int;
    let p = first_accepting(t, id);
    let o = opened(t, id);
    let u = written(t, id, Some(entry));
    lemma_first_accepting_from(t, id, 0);
    lemma_written_framed(t, id, Some(entry));
    lemma_first_holding_from(t, id, 0);
    // The key is held nowhere but, at most, in the slot that is written.
    assert forall|q: int, c: int|
        0 <= q < t.len() && 0 <= c < 256 && !(q == p && c == b) implies !holds(
        #[trigger] t[q][c],
        id,
    ) by {
        if holds(t[q][c], id) {
            assert(c == b);
            if q < p {
                assert(!accepts(t[q][b], id));
            } else {
                assert(accepts(t[p][b], id));
                if t[p][b] is None {
                    assert(t[q][b] is Some);
                } else {
                    assert(t[p][b] is Some);
                }
            }
        }
    }
    if p < t.len() && holds(t[p][b], id) {
        assert forall|q: int| 0 <= q < p implies !holds(#[trigger] t[q][b], id) by {}
        lemma_first_holding_is(t, id, p);
    } else {
        assert forall|q: int| 0 <= q < t.len() implies !holds(#[trigger] t[q][b], id) by {}
        lemma_first_holding_is(t, id, t.len() as int);
    }
    assert forall|q: int, c: int| 0 <= q < u.len() && 0 <= c < 256 implies ((
    #[trigger] u[q][c]) matches Some(held) ==> K::reduce(held.0@) == c) by {
        if q < t.len() && !(q == p && c == b) {
            assert(u[q][c] == t[q][c]);
        }
    }
    assert forall|q: int, c: int, r: int, d: int|
        0 <= q < u.len() && 0 <= c < 256 && 0 <= r < u.len() && 0 <= d < 256 implies ((
    #[trigger] u[q][c]) matches Some(one) ==> ((#[trigger] u[r][d]) matches Some(other) ==> (
    one.0@ == other.0@ ==> q == r && c == d))) by {
        if q < t.len() && !(q == p && c == b) {
            assert(u[q][c] == t[q][c]);
        }
        if r < t.len() && !(r == p && d == b) {
            assert(u[r][d] == t[r][d]);
        }
    }
    assert forall|q: int, r: int, c: int| 0 <= q < r < u.len() && 0 <= c < 256 implies ((
    #[trigger] u[r][c]) is Some ==> (#[trigger] u[q][c]) is Some) by {
        if r < t.len() && !(r == p && c == b) {
            assert(u[r][c] == t[r][c]);
        }
        if q < t.len() && !(q == p && c == b) {
            assert(u[q][c] == t[q][c]);
        }
        if r == p && c == b && u[r][c] is Some {
            assert(!accepts(t[q][b], id));
        }
    }
}

/// An insertion into a sound and packed table leaves it sound and packed, and
/// displaces the value that the key was mapped to.
pub proof fn lemma_inserted_sound<K: Collapse, V>(t: Table<K, V>, key: K, value: V)
    requires
        sound(t),
        packed(t),
    ensures
        sound(inserted(t, key, value)),
        packed(inserted(t, key, value)),
        displaced(t, key) == lookup(t, key@),
{
    lemma_inserted_written(t, key, value);
    lemma_written_sound(t, (kept_key(t, key), value));
    lemma_first_accepting_from(t, key@, 0);
}

/// A removal from a sound table leaves it sound, and leaves the key mapped to
/// nothing and every other key to what it was mapped to.
pub proof fn lemma_removed_sound<K: Collapse, V>(t: Table<K, V>, id: K::V)
    requires
        sound(t),
    ensures
        sound(removed(t, id)),
        contents(removed(t, id)) == contents(t).remove(id),
{
    let b = K::reduce(id) as int;
    let p = first_holding(t, id);
    let u = removed(t, id);
    lemma_first_holding_from(t, id, 0);
    if p < t.len() {
        assert forall|q: int| 0 <= q < u.len() implies (#[trigger] u[q]).len() == 256 by {
            assert(t[q].len() == 256);
        }
        assert forall|q: int, c: int| 0 <= q < u.len() && 0 <= c < 256 implies ((
        #[trigger] u[q][c]) matches Some(entry) ==> K::reduce(entry.0@) == c) by {
            if !(q == p && c == b) {
                assert(u[q][c] == t[q][c]);
            }
        }
        assert forall|q: int, c: int, r: int, d: int|
            0 <= q < u.len() && 0 <= c < 256 && 0 <= r < u.len() && 0 <= d < 256 implies ((
        #[trigger] u[q][c]) matches Some(one) ==> ((#[trigger] u[r][d]) matches Some(other)
            ==> (one.0@ == other.0@ ==> q == r && c == d))) by {
            if !(q == p && c == b) {
                assert(u[q][c] == t[q][c]);
            }
            if !(r == p && d == b) {
                assert(u[r][d] == t[r][d]);
            }
        }
        assert forall|q: int| 0 <= q < u.len() implies !holds(#[trigger] u[q][b], id) by {
            if q != p {
                assert(u[q][b] == t[q][b]);
                if holds(t[q][b], id) {
                    assert(t[p][b] is Some);
                }
            }
        }
        lemma_first_holding_is(u, id, u.len() as int);
        assert forall|other: K::V| other != id implies lookup(u, other) == lookup(t, other) by {
            assert forall|q: int| 0 <= q < t.len() implies {
                ||| (#[trigger] u[q][K::reduce(other) as int]) == t[q][K::reduce(other) as int]
                ||| (!holds(u[q][K::reduce(other) as int], other) && !holds(
                    t[q][K::reduce(other) as int],
                    other,
                ))
            } by {
                if q != p {
                    assert(u[q] == t[q]);
                }
            }
            lemma_lookup_same(u, t, other);
        }
    }
    assert forall|other: K::V| lookup(u, other) == (if other == id {
        None
    } else {
        lookup(t, other)
    }) by {
        if p < t.len() && other != id {
            assert(lookup(u, other) == lookup(t, other));
        }
    }
    assert forall|other: K::V| contents(u).contains_key(other) == contents(t).remove(
        id,
    ).contains_key(other) by {
        assert(lookup(u, other) == (if other == id {
            None
        } else {
            lookup(t, other)
        }));
    }
    assert forall|other: K::V| contents(u).contains_key(other) implies contents(u)[other]
        == contents(t).remove(id)[other] by {
        assert(lookup(u, other) == (if other == id {
            None
        } else {
            lookup(t, other)
        }));
    }
    assert(contents(u) =~= contents(t).remove(id));
}

/// The table in which an entry is sought holds what the table holds.
pub proof fn lemma_opened_contents<K: Collapse, V>(t: Table<K, V>, id: K::V)
    ensures
        contents(opened(t, id)) == contents(t),
{
    assert forall|other: K::V| lookup(opened(t, id), other) == lookup(t, other) by {
        lemma_lookup_push(t, blank::<K, V>(), other);
    }
    lemma_contents_equal(opened(t, id), t);
}

/// Emptying the slot of the entry for `id` leaves the table in which the
/// entry is sought if the slot is empty, and is the removal of `id` if the
/// slot holds `id`.
pub proof fn lemma_written_none<K: Collapse, V>(t: Table<K, V>, id: K::V)
    requires
        framed(t),
    ensures
        opened(t, id)[first_accepting(t, id)][K::reduce(id) as int] is None ==> written(
            t,
            id,
            None,
        ) == opened(t, id),
        opened(t, id)[first_accepting(t, id)][K::reduce(id) as int] is Some ==> written(
            t,
            id,
            None,
        ) == removed(t, id),
{
    let b = K::reduce(id) as int;
    let p = first_accepting(t, id);
    lemma_first_accepting_from(t, id, 0);
    if opened(t, id)[p][b] is None {
        let o = opened(t, id);
        assert(o[p].update(b, None) =~= o[p]);
        assert(written(t, id, None) =~= opened(t, id));
    } else {
        assert forall|q: int| 0 <= q < p implies !holds(#[trigger] t[q][b], id) by {
            assert(!accepts(t[q][b], id));
        }
        lemma_first_holding_is(t, id, p);
    }
}

/// A new value beside the key `id`, in the first slot that holds `id`, maps
/// `id` to that value and leaves what the other keys are mapped to; it leaves
/// a sound table sound and a packed one packed.
pub proof fn lemma_revalued<K: Collapse, V>(t: Table<K, V>, id: K::V, value: V)
    requires
        framed(t),
        first_holding(t, id) < t.len(),
    ensures
        ({
            let p = first_holding(t, id);
            let b = K::reduce(id) as int;
            let u = put(t, p, b, Some((t[p][b].unwrap().0, value)));
            &&& contents(u) == contents(t).insert(id, value)
            &&& sound(t) ==> sound(u)
            &&& packed(t) ==> packed(u)
        }),
{
    let p = first_holding(t, id);
    let b = K::reduce(id) as int;
    let u = put(t, p, b, Some((t[p][b].unwrap().0, value)));
    lemma_first_holding_from(t, id, 0);
    assert forall|q: int| 0 <= q < p implies !holds(#[trigger] u[q][b], id) by {
        assert(u[q] == t[q]);
    }
    lemma_first_holding_is(u, id, p);
    assert forall|other: K::V| lookup(u, other) == (if other == id {
        Some(value)
    } else {
        lookup(t, other)
    }) by {
        if other != id {
            assert forall|q: int| 0 <= q < t.len() implies {
                ||| (#[trigger] t[q][K::reduce(other) as int]) == u[q][K::reduce(other) as int]
                ||| (!holds(t[q][K::reduce(other) as int], other) && !holds(
                    u[q][K::reduce(other) as int],
                    other,
                ))
            } by {
                if q != p {
                    assert(u[q] == t[q]);
                }
            }
            lemma_lookup_same(t, u, other);
        }
    }
    assert forall|other: K::V| contents(u).contains_key(other) == contents(t).insert(
        id,
        value,
    ).contains_key(other) by {
        assert(lookup(u, other) == (if other == id {
            Some(value)
        } else {
            lookup(t, other)
        }));
    }
    assert forall|other: K::V| contents(u).contains_key(other) implies contents(u)[other]
        == contents(t).insert(id, value)[other] by {
        assert(lookup(u, other) == (if other == id {
            Some(value)
        } else {
            lookup(t, other)
        }));
    }
    assert(contents(u) =~= contents(t).insert(id, value));
    if sound(t) {
        assert forall|q: int| 0 <= q < u.len() implies (#[trigger] u[q]).len() == 256 by {
            assert(t[q].len() == 256);
        }
        assert forall|q: int, c: int| 0 <= q < u.len() && 0 <= c < 256 implies ((
        #[trigger] u[q][c]) matches Some(held) ==> K::reduce(held.0@) == c) by {
            if !(q == p && c == b) {
                assert(u[q][c] == t[q][c]);
            } else {
                assert(t[p][b] is Some);
            }
        }
        assert forall|q: int, c: int, r: int, d: int|
            0 <= q < u.len() && 0 <= c < 256 && 0 <= r < u.len() && 0 <= d < 256 implies ((
        #[trigger] u[q][c]) matches Some(one) ==> ((#[trigger] u[r][d]) matches Some(other)
            ==> (one.0@ == other.0@ ==> q == r && c == d))) by {
            if !(q == p && c == b) {
                assert(u[q][c] == t[q][c]);
            } else {
                assert(t[q][c] is Some);
            }
            if !(r == p && d == b) {
                assert(u[r][d] == t[r][d]);
            } else {
                assert(t[r][d] is Some);
            }
        }
    }
    if packed(t) {
        assert forall|q: int, r: int, c: int| 0 <= q < r < u.len() && 0 <= c < 256 implies ((
        #[trigger] u[r][c]) is Some ==> (#[trigger] u[q][c]) is Some) by {
            if !(r == p && c == b) {
                assert(u[r][c] == t[r][c]);
            } else {
                assert(t[r][c] is Some);
            }
            if !(q == p && c == b) {
                assert(u[q][c] == t[q][c]);
            }
        }
    }
}

/// A lookup finds in the compacted table what it finds in the table.
pub proof fn lemma_compacted_lookup<K: Collapse, V>(t: Table<K, V>, id: K::V)
    requires
        framed(t),
    ensures
        lookup(compacted(t), id) == lookup(t, id),
    decreases t.len(),
{
    reveal(Seq::filter);
    if t.len() > 0 {
        let front = t.drop_last();
        let page = t.last();
        assert(t =~= front.push(page));
        assert(framed(front)) by {
            assert forall|p: int| 0 <= p < front.len() implies (#[trigger] front[p]).len()
                == 256 by {
                assert(front[p] == t[p]);
            }
        }
        lemma_compacted_lookup(front, id);
        lemma_lookup_push(front, page, id);
        if occupied::<K, V>()(page) {
            lemma_lookup_push(compacted(front), page, id);
        } else {
            let b = K::reduce(id) as int;
            assert(page.len() == 256);
            if page[b] is Some {
                lemma_entries_some(page, b);
            }
        }
    }
}

/// The compacted table is shorter than the table if the table has a page
/// without an entry, and is the table if it has none.
pub proof fn lemma_compacted_len<K, V>(t: Table<K, V>)
    ensures
        compacted(t).len() <= t.len(),
        (exists|p: int| 0 <= p < t.len() && entries(#[trigger] t[p]).len() == 0) ==> compacted(
            t,
        ).len() < t.len(),
        (forall|p: int| 0 <= p < t.len() ==> entries(#[trigger] t[p]).len() > 0) ==> compacted(t)
            == t,
    decreases t.len(),
{
    reveal(Seq::filter);
    if t.len() > 0 {
        let front = t.drop_last();
        let page = t.last();
        assert(t =~= front.push(page));
        lemma_compacted_len(front);
        if exists|p: int| 0 <= p < t.len() && entries(#[trigger] t[p]).len() == 0 {
            let p = choose|p: int| 0 <= p < t.len() && entries(#[trigger] t[p]).len() == 0;
            if p < front.len() {
                assert(front[p] == t[p]);
            }
        }
        if forall|p: int| 0 <= p < t.len() ==> entries(#[trigger] t[p]).len() > 0 {
            assert forall|p: int| 0 <= p < front.len() implies entries(#[trigger] front[p]).len()
                > 0 by {
                assert(front[p] == t[p]);
            }
            assert(compacted(t) =~= t);
        }
    }
}

/// Each page of the compacted table is a page of the table, and the pages
/// are in the order that they have in the table.
pub proof fn lemma_origin<K, V>(t: Table<K, V>, i: int)
    requires
        0 <= i < compacted(t).len(),
    ensures
        0 <= origin(t, i) < t.len(),
        compacted(t)[i] == t[origin(t, i)],
        forall|j: int| 0 <= j < i ==> origin(t, j) < origin(t, i),
    decreases t.len(),
{
    reveal(Seq::filter);
    if t.len() > 0 {
        let front = t.drop_last();
        if occupied::<K, V>()(t.last()) && i == compacted(front).len() {
            assert forall|j: int| 0 <= j < i implies origin(t, j) < origin(t, i) by {
                lemma_origin(front, j);
            }
        } else {
            lemma_origin(front, i);
            assert(t[origin(front, i)] == front[origin(front, i)]);
            assert forall|j: int| 0 <= j < i implies origin(t, j) < origin(t, i) by {
                lemma_origin(front, j);
            }
        }
    }
}

/// Compaction leaves a sound table sound and a packed table packed.
pub proof fn lemma_compacted_sound<K: Collapse, V>(t: Table<K, V>)
    requires
        framed(t),
    ensures
        framed(compacted(t)),
        sound(t) ==> sound(compacted(t)),
        packed(t) ==> packed(compacted(t)),
{
    let u = compacted(t);
    assert forall|p: int| 0 <= p < u.len() implies (#[trigger] u[p]).len() == 256 by {
        lemma_origin(t, p);
        assert(t[origin(t, p)].len() == 256);
    }
    if sound(t) {
        assert forall|p: int, b: int| 0 <= p < u.len() && 0 <= b < 256 implies ((
        #[trigger] u[p][b]) matches Some(held) ==> K::reduce(held.0@) == b) by {
            lemma_origin(t, p);
            assert(u[p][b] == t[origin(t, p)][b]);
        }
        assert forall|p: int, b: int, q: int, c: int|
            0 <= p < u.len() && 0 <= b < 256 && 0 <= q < u.len() && 0 <= c < 256 implies ((
        #[trigger] u[p][b]) matches Some(one) ==> ((#[trigger] u[q][c]) matches Some(other)
            ==> (one.0@ == other.0@ ==> p == q && b == c))) by {
            lemma_origin(t, p);
            lemma_origin(t, q);
            assert(u[p][b] == t[origin(t, p)][b]);
            assert(u[q][c] == t[origin(t, q)][c]);
        }
    }
    if packed(t) {
        assert forall|p: int, q: int, b: int| 0 <= p < q < u.len() && 0 <= b < 256 implies ((
        #[trigger] u[q][b]) is Some ==> (#[trigger] u[p][b]) is Some) by {
            lemma_origin(t, p);
            lemma_origin(t, q);
            assert(u[p][b] == t[origin(t, p)][b]);
            assert(u[q][b] == t[origin(t, q)][b]);
        }
    }
}

/// Compaction leaves what every key is mapped to.
pub proof fn lemma_compacted_contents<K: Collapse, V>(t: Table<K, V>)
    requires
        framed(t),
    ensures
        contents(compacted(t)) == contents(t),
{
    assert forall|id: K::V| lookup(compacted(t), id) == lookup(t, id) by {
        lemma_compacted_lookup(t, id);
    }
    lemma_contents_equal(compacted(t), t);
}

/// The insertion of pairs maps each key to its value, in turn, and leaves
/// every page with 256 slots.
pub proof fn lemma_insert_all_contents<K: Collapse, V>(t: Table<K, V>, pairs: Seq<(K, V)>)
    requires
        framed(t),
    ensures
        framed(insert_all(t, pairs)),
        contents(insert_all(t, pairs)) == mapped_all(contents(t), pairs),
        sound(t) && packed(t) ==> sound(insert_all(t, pairs)) && packed(insert_all(t, pairs)),
    decreases pairs.len(),
{
    if pairs.len() > 0 {
        let front = pairs.drop_last();
        let pair = pairs.last();
        lemma_insert_all_contents(t, front);
        let f = insert_all(t, front);
        assert(insert_all(t, pairs) == inserted(f, pair.0, pair.1));
        lemma_inserted_contents(f, pair.0, pair.1);
        lemma_inserted_framed(f, pair.0, pair.1);
        if sound(t) && packed(t) {
            lemma_inserted_sound(f, pair.0, pair.1);
        }
    }
}

/// A new map into which pairs were inserted, of which those with the same key
/// are the same pair, holds exactly those pairs, and is sound and packed.
pub proof fn lemma_insert_all_stores<K: Collapse, V>(pairs: Seq<(K, V)>)
    requires
        one_pair_per_key(pairs),
    ensures
        sound(insert_all(seq![blank::<K, V>()], pairs)),
        packed(insert_all(seq![blank::<K, V>()], pairs)),
        forall|entry: (K, V)|
            stores(insert_all(seq![blank::<K, V>()], pairs), entry) <==> pairs.contains(entry),
    decreases pairs.len(),
{
    let start = seq![blank::<K, V>()];
    let t = insert_all(start, pairs);
    if pairs.len() == 0 {
        lemma_blank_table::<K, V>();
        assert forall|entry: (K, V)| stores(t, entry) <==> pairs.contains(entry) by {
            if stores(t, entry) {
                let (p, b) = choose|p: int, b: int|
                    0 <= p < t.len() && 0 <= b < t[p].len() && #[trigger] t[p][b] == Some(entry);
                assert(t[0][b] is None);
            }
        }
    } else {
        let front = pairs.drop_last();
        let pair = pairs.last();
        let n = pairs.len() as int;
        assert forall|i: int, j: int| 0 <= i < front.len() && 0 <= j < front.len() implies ((
        #[trigger] front[i]).0@ == (#[trigger] front[j]).0@ ==> front[i] == front[j]) by {
            assert(front[i] == pairs[i]);
            assert(front[j] == pairs[j]);
        }
        lemma_insert_all_stores(front);
        let f = insert_all(start, front);
        assert(t == inserted(f, pair.0, pair.1));
        lemma_inserted_sound(f, pair.0, pair.1);
        lemma_inserted_written(f, pair.0, pair.1);
        lemma_first_accepting_from(f, pair.0@, 0);
        let id = pair.0@;
        let b = K::reduce(id) as int;
        let p = first_accepting(f, id);
        let o = opened(f, id);
        if o[p][b] is Some {
            let held = o[p][b].unwrap();
            assert(f[p][b] == Some(held));
            assert(stores(f, held));
            assert(front.contains(held));
            let j = choose|j: int| 0 <= j < front.len() && front[j] == held;
            assert(pairs[j] == held);
            assert(pairs[n - 1] == pair);
            assert(pairs[j].0@ == pairs[n - 1].0@);
            assert(held == pair);
            assert(f[p].update(b, Some(pair)) =~= f[p]);
            assert(t =~= f);
            assert forall|entry: (K, V)| stores(t, entry) <==> pairs.contains(entry) by {
                if front.contains(entry) {
                    let i = choose|i: int| 0 <= i < front.len() && front[i] == entry;
                    assert(pairs[i] == entry);
                }
                if pairs.contains(entry) {
                    let i = choose|i: int| 0 <= i < pairs.len() && pairs[i] == entry;
                    if i < n - 1 {
                        assert(front[i] == entry);
                    } else {
                        assert(front[j] == entry);
                    }
                }
            }
        } else {
            assert forall|entry: (K, V)| stores(t, entry) <==> pairs.contains(entry) by {
                if stores(t, entry) {
                    let (q, c) = choose|q: int, c: int|
                        0 <= q < t.len() && 0 <= c < t[q].len() && #[trigger] t[q][c] == Some(
                            entry,
                        );
                    if q == p && c == b {
                        assert(pairs[n - 1] == entry);
                    } else {
                        assert(t[q][c] == o[q][c]);
                        assert(o[q].len() == 256);
                        if q < f.len() {
                            assert(f[q][c] == Some(entry));
                            assert(f[q].len() == 256);
                            assert(stores(f, entry));
                            assert(front.contains(entry));
                            let i = choose|i: int| 0 <= i < front.len() && front[i] == entry;
                            assert(front[i] == pairs[i]);
                            assert(pairs[i] == entry);
                        } else {
                            assert(o[q][c] is None);
                        }
                    }
                }
                if pairs.contains(entry) {
                    let i = choose|i: int| 0 <= i < pairs.len() && pairs[i] == entry;
                    if i < n - 1 {
                        assert(front[i] == entry);
                        assert(front.contains(entry));
                        assert(stores(f, entry));
                        let (q, c) = choose|q: int, c: int|
                            0 <= q < f.len() && 0 <= c < f[q].len() && #[trigger] f[q][c] == Some(
                                entry,
                            );
                        assert(!(q == p && c == b));
                        assert(t[q][c] == Some(entry));
                    } else {
                        assert(o[p].len() == 256);
                        assert(t[p][b] == Some(entry));
                    }
                }
            }
        }
    }
}

/// Two sound tables that hold the same entries map every key to the same.
pub proof fn lemma_sound_same_contents<K: Collapse, V>(t: Table<K, V>, u: Table<K, V>)
    requires
        sound(t),
        sound(u),
        forall|entry: (K, V)| stores(t, entry) <==> stores(u, entry),
    ensures
        contents(t) == contents(u),
{
    assert forall|id: K::V| lookup(t, id) == lookup(u, id) by {
        lemma_sound_lookup_stores(t, u, id);
        lemma_sound_lookup_stores(u, t, id);
    }
    lemma_contents_equal(t, u);
}

/// What a lookup finds in a table, it finds in every sound table that holds
/// the entries of the first.
pub proof fn lemma_sound_lookup_stores<K: Collapse, V>(t: Table<K, V>, u: Table<K, V>, id: K::V)
    requires
        framed(t),
        sound(u),
        forall|entry: (K, V)| stores(t, entry) ==> stores(u, entry),
    ensures
        lookup(t, id) is Some ==> lookup(u, id) == lookup(t, id),
{
    if lookup(t, id) is Some {
        lemma_first_holding_from(t, id, 0);
        let p = first_holding(t, id);
        let b = K::reduce(id) as int;
        let entry = t[p][b].unwrap();
        assert(t[p].len() == 256);
        assert(t[p][b] == Some(entry));
        assert(stores(t, entry));
        assert(stores(u, entry));
        let (q, c) = choose|q: int, c: int|
            0 <= q < u.len() && 0 <= c < u[q].len() && #[trigger] u[q][c] == Some(entry);
        assert(u[q].len() == 256);
        lemma_sound_first_holding(u, q, c);
    }
}

/// The entries of slots that hold no key twice have keys that differ.
proof fn lemma_entries_keys_differ<K: Collapse, V>(slots: Seq<Option<(K, V)>>)
    requires
        forall|b: int, c: int|
            0 <= b < c < slots.len() ==> ((#[trigger] slots[b]) matches Some(one) ==> ((
            #[trigger] slots[c]) matches Some(other) ==> one.0@ != other.0@)),
    ensures
        keys_differ(entries(slots)),
    decreases slots.len(),
{
    if slots.len() > 0 {
        let rest = slots.skip(1);
        assert forall|b: int, c: int| 0 <= b < c < rest.len() implies ((
        #[trigger] rest[b]) matches Some(one) ==> ((#[trigger] rest[c]) matches Some(other)
            ==> one.0@ != other.0@)) by {
            assert(rest[b] == slots[b + 1]);
            assert(rest[c] == slots[c + 1]);
        }
        lemma_entries_keys_differ(rest);
        let list = entries(slots);
        let behind = entries(rest);
        assert forall|i: int, j: int| 0 <= i < j < list.len() implies (#[trigger] list[i]).0@ != (
        #[trigger] list[j]).0@ by {
            if slots[0] is Some {
                if i == 0 {
                    assert(behind[j - 1] == list[j]);
                    assert(behind.contains(list[j]));
                    lemma_entries_contains(rest, list[j]);
                    let c = choose|c: int| 0 <= c < rest.len() && #[trigger] rest[c] == Some(list[j]);
                    assert(slots[c + 1] == Some(list[j]));
                    assert(slots[0] == Some(list[0]));
                } else {
                    assert(behind[i - 1] == list[i]);
                    assert(behind[j - 1] == list[j]);
                }
            }
        }
    }
}

/// The entries of a table that holds no key twice have keys that differ.
pub proof fn lemma_all_entries_keys_differ<K: Collapse, V>(t: Table<K, V>)
    requires
        framed(t),
        distinct(t),
    ensures
        keys_differ(all_entries(t)),
    decreases t.len(),
{
    if t.len() > 0 {
        let rest = t.skip(1);
        assert(framed(rest)) by {
            assert forall|p: int| 0 <= p < rest.len() implies (#[trigger] rest[p]).len() == 256 by {
                assert(rest[p] == t[p + 1]);
            }
        }
        assert(distinct(rest)) by {
            assert forall|p: int, b: int, q: int, c: int|
                0 <= p < rest.len() && 0 <= b < 256 && 0 <= q < rest.len() && 0 <= c
                    < 256 implies ((#[trigger] rest[p][b]) matches Some(one) ==> ((
            #[trigger] rest[q][c]) matches Some(other) ==> (one.0@ == other.0@ ==> p == q && b
                == c))) by {
                assert(rest[p][b] == t[p + 1][b]);
                assert(rest[q][c] == t[q + 1][c]);
            }
        }
        lemma_all_entries_keys_differ(rest);
        assert(t[0].len() == 256);
        assert forall|b: int, c: int| 0 <= b < c < t[0].len() implies ((
        #[trigger] t[0][b]) matches Some(one) ==> ((#[trigger] t[0][c]) matches Some(other)
            ==> one.0@ != other.0@)) by {}
        lemma_entries_keys_differ(t[0]);
        let here = entries(t[0]);
        let behind = all_entries(rest);
        let list = all_entries(t);
        assert forall|i: int, j: int| 0 <= i < j < list.len() implies (#[trigger] list[i]).0@ != (
        #[trigger] list[j]).0@ by {
            if j < here.len() {
                assert(here[i] == list[i] && here[j] == list[j]);
            } else if i >= here.len() {
                assert(behind[i - here.len()] == list[i]);
                assert(behind[j - here.len()] == list[j]);
            } else {
                assert(here[i] == list[i]);
                assert(here.contains(list[i]));
                lemma_entries_contains(t[0], list[i]);
                let b = choose|b: int| 0 <= b < t[0].len() && #[trigger] t[0][b] == Some(list[i]);
                assert(behind[j - here.len()] == list[j]);
                assert(behind.contains(list[j]));
                lemma_all_entries_stores(rest, list[j]);
                let (q, c) = choose|q: int, c: int|
                    0 <= q < rest.len() && 0 <= c < rest[q].len() && #[trigger] rest[q][c] == Some(
                        list[j],
                    );
                assert(rest[q].len() == 256);
                assert(t[q + 1][c] == Some(list[j]));
                assert(t[0][b] == Some(list[i]));
            }
        }
    }
}

/// A sound table maps as many keys as it has entries.
pub proof fn lemma_sound_len<K: Collapse, V>(t: Table<K, V>)
    requires
        sound(t),
    ensures
        contents(t).dom().finite(),
        contents(t).dom().len() == all_entries(t).len(),
{
    let list = all_entries(t);
    let keys = list.map_values(|entry: (K, V)| entry.0@);
    lemma_all_entries_keys_differ(t);
    assert(keys.no_duplicates()) by {
        assert forall|i: int, j: int|
            0 <= i < keys.len() && 0 <= j < keys.len() && i != j implies keys[i] != keys[j] by {
            if i < j {
                assert(list[i].0@ != list[j].0@);
            } else {
                assert(list[j].0@ != list[i].0@);
            }
        }
    }
    keys.unique_seq_to_set();
    vstd::seq_lib::seq_to_set_is_finite(keys);
    assert forall|id: K::V| contents(t).dom().contains(id) <==> keys.to_set().contains(id) by {
        if contents(t).dom().contains(id) {
            lemma_first_holding_from(t, id, 0);
            let p = first_holding(t, id);
            let b = K::reduce(id) as int;
            let entry = t[p][b].unwrap();
            assert(t[p].len() == 256);
            assert(t[p][b] == Some(entry));
            assert(stores(t, entry));
            lemma_all_entries_stores(t, entry);
            let i = choose|i: int| 0 <= i < list.len() && list[i] == entry;
            assert(keys[i] == id);
            assert(keys.contains(id));
        }
        if keys.to_set().contains(id) {
            let i = choose|i: int| 0 <= i < keys.len() && keys[i] == id;
            assert(list.contains(list[i]));
            lemma_all_entries_stores(t, list[i]);
            let (p, b) = choose|p: int, b: int|
                0 <= p < t.len() && 0 <= b < t[p].len() && #[trigger] t[p][b] == Some(list[i]);
            assert(t[p].len() == 256);
            lemma_sound_first_holding(t, p, b);
        }
    }
    assert(contents(t).dom() =~= keys.to_set());
}

} // verus!
