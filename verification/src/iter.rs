//! Iterator types for `Map`
use vstd::prelude::*;
use crate::collapse::Collapse;
use crate::lemmas::lemma_leading_blank_is;
use crate::page::{entries, leading_vacant, Page};
use crate::table::{all_entries, leading_blank, Table};

verus! {

/// The views of a run of pages.
pub open spec fn views<K, V>(pages: Seq<Page<K, V>>) -> Table<K, V> {
    pages.map_values(|page: Page<K, V>| page@)
}

/// An iterator over `Page`s
pub struct Pages<'a, K, V>(pub &'a [Page<K, V>]);

impl<'a, K, V> Pages<'a, K, V> {
    /// The pages that are still to come, in order.
    pub open spec fn remaining(self) -> Seq<Page<K, V>> {
        self.0@
    }

    /// The next page, if one is left.
    pub fn next(&mut self) -> (page: Option<&'a Page<K, V>>)
        ensures
            old(self).remaining().len() == 0 ==> page is None && *final(self) == *old(self),
            old(self).remaining().len() > 0 ==> page == Some(&old(self).remaining()[0])
                && final(self).remaining() == old(self).remaining().skip(1),
    {
        if self.0.len() == 0 {
            None
        } else {
            let (head, tail) = self.0.split_at(1);
            self.0 = tail;
            assert(tail@ =~= old(self).remaining().skip(1));
            Some(&head[0])
        }
    }

    /// The number of pages that are still to come, as lower and upper bound.
    pub fn size_hint(&self) -> (hint: (usize, Option<usize>))
        ensures
            hint.0 == self.remaining().len(),
            hint.1 == Some(hint.0),
    {
        (self.0.len(), Some(self.0.len()))
    }
}

/// A mutable iterator over `Page`s
pub struct PagesMut<'a, K, V>(pub Option<&'a mut [Page<K, V>]>);

impl<'a, K, V> PagesMut<'a, K, V> {
    /// The pages that are still to come, in order, as they are now.
    pub open spec fn remaining(self) -> Seq<Page<K, V>> {
        match self.0 {
            Some(pages) => pages@,
            None => Seq::empty(),
        }
    }

    /// The next page, if one is left. What the pages that were still to come
    /// will hold in the end is what this page will hold, followed by what the
    /// pages behind it will.
    pub fn next(&mut self) -> (page: Option<&'a mut Page<K, V>>)
        ensures
            old(self).remaining().len() == 0 ==> {
                &&& page is None
                &&& final(self).remaining().len() == 0
                &&& old(self).0 matches Some(all) ==> final(all)@ == all@
            },
            old(self).remaining().len() > 0 ==> {
                &&& page matches Some(first)
                &&& *first == old(self).remaining()[0]
                &&& final(self).remaining() == old(self).remaining().skip(1)
                &&& old(self).0 matches Some(all)
                &&& final(self).0 matches Some(rest)
                &&& final(all)@ == seq![*final(first)] + final(rest)@
            },
    {
        match self.0.take() {
            None => None,
            Some(pages) => {
                if pages.len() == 0 {
                    None
                } else {
                    let (head, tail) = pages.split_at_mut(1);
                    self.0 = Some(tail);
                    head.first_mut()
                }
            },
        }
    }

    /// The number of pages that are still to come, as lower and upper bound.
    pub fn size_hint(&self) -> (hint: (usize, Option<usize>))
        ensures
            hint.0 == self.remaining().len(),
            hint.1 == Some(hint.0),
    {
        match &self.0 {
            Some(pages) => (pages.len(), Some(pages.len())),
            None => (0, Some(0)),
        }
    }
}

/// An iterator over elements in a `Page`.
pub struct PageElements<'a, K, V>(pub &'a [Option<(K, V)>]);

impl<'a, K, V> PageElements<'a, K, V> {
    /// The entries that are still to come, in order.
    pub open spec fn remaining(self) -> Seq<(K, V)> {
        entries(self.0@)
    }

    /// The next entry, if one is left: empty slots are passed over.
    pub fn next(&mut self) -> (entry: Option<&'a (K, V)>)
        ensures
            old(self).remaining().len() == 0 ==> entry is None && final(self).0@.len() == 0,
            old(self).remaining().len() > 0 ==> entry == Some(&old(self).remaining()[0])
                && final(self).remaining() == old(self).remaining().skip(1),
            final(self).0@.len() <= old(self).0@.len(),
    {
        while self.0.len() > 0
            invariant
                self.remaining() == old(self).remaining(),
                self.0@.len() <= old(self).0@.len(),
            decreases self.0@.len(),
        {
            let (head, tail) = self.0.split_at(1);
            proof {
                assert(tail@ =~= self.0@.skip(1));
                assert(head@[0] == self.0@[0]);
            }
            self.0 = tail;
            match &head[0] {
                Some(entry) => {
                    proof {
                        let rest = entries(tail@);
                        assert((seq![*entry] + rest).skip(1) =~= rest);
                    }
                    return Some(entry);
                },
                None => {},
            }
        }
        None
    }

    /// Bounds on the number of entries that are still to come.
    pub fn size_hint(&self) -> (hint: (usize, Option<usize>))
        ensures
            hint.0 == 0,
            hint.1 == Some(self.0@.len() as usize),
    {
        (0, Some(self.0.len()))
    }
}

/// A mutable iterator over elements in a `Page`.
pub struct PageElementsMut<'a, K, V>(pub Option<&'a mut [Option<(K, V)>]>);

impl<'a, K, V> PageElementsMut<'a, K, V> {
    /// The slots that are still to come, in order, as they are now.
    pub open spec fn slots(self) -> Seq<Option<(K, V)>> {
        match self.0 {
            Some(slots) => slots@,
            None => Seq::empty(),
        }
    }

    /// The entries that are still to come, in order, as they are now.
    pub open spec fn remaining(self) -> Seq<(K, V)> {
        entries(self.slots())
    }

    /// The next entry, if one is left: empty slots are passed over. What the
    /// slots that were still to come will hold in the end is the empty slots
    /// that were passed over, then what this entry will be, then what the
    /// slots behind it will hold.
    pub fn next(&mut self) -> (entry: Option<&'a mut (K, V)>)
        ensures
            old(self).remaining().len() == 0 ==> {
                &&& entry is None
                &&& final(self).slots().len() == 0
                &&& old(self).0 matches Some(all) ==> final(all)@ == all@
            },
            old(self).remaining().len() > 0 ==> {
                &&& entry matches Some(first)
                &&& *first == old(self).remaining()[0]
                &&& final(self).remaining() == old(self).remaining().skip(1)
                &&& final(self).slots() == old(self).slots().skip(
                    leading_vacant(old(self).slots()) + 1,
                )
                &&& old(self).0 matches Some(all)
                &&& final(self).0 matches Some(rest)
                &&& final(all)@ == all@.take(leading_vacant(all@)) + seq![Some(*final(first))]
                    + final(rest)@
            },
    {
        let ghost passed: int = 0;
        loop
            invariant
                self.remaining() == old(self).remaining(),
                0 <= passed <= old(self).slots().len(),
                self.slots() == old(self).slots().skip(passed),
                passed + leading_vacant(self.slots()) == leading_vacant(old(self).slots()),
                forall|i: int| 0 <= i < passed ==> old(self).slots()[i] is None,
                old(self).0 is None ==> self.0 is None,
                old(self).0 matches Some(all) ==> match self.0 {
                    Some(rest) => final(all)@ == all@.take(passed) + final(rest)@,
                    None => final(all)@ == all@,
                },
            decreases self.slots().len(),
        {
            match self.0.take() {
                None => {
                    return None;
                },
                Some(slots) => {
                    if slots.len() == 0 {
                        return None;
                    }
                    let ghost now = slots@;
                    let (head, tail) = slots.split_at_mut(1);
                    proof {
                        assert(tail@ =~= now.skip(1));
                        assert(old(self).slots().skip(passed).skip(1) =~= old(self).slots().skip(
                            passed + 1,
                        ));
                    }
                    self.0 = Some(tail);
                    match head.first_mut() {
                        Some(slot) => match slot.as_mut() {
                            Some(entry) => {
                                proof {
                                    let rest = entries(now.skip(1));
                                    assert((seq![*entry] + rest).skip(1) =~= rest);
                                }
                                return Some(entry);
                            },
                            None => {},
                        },
                        None => {},
                    }
                    proof {
                        passed = passed + 1;
                    }
                },
            }
        }
    }

    /// Bounds on the number of entries that are still to come.
    pub fn size_hint(&self) -> (hint: (usize, Option<usize>))
        ensures
            hint.0 == 0,
            hint.1 == Some(self.slots().len() as usize),
    {
        match &self.0 {
            Some(slots) => (0, Some(slots.len())),
            None => (0, Some(0)),
        }
    }
}

/// A consuming iterator over elements in a `Page`.
pub struct IntoPageElements<K, V>(pub [Option<(K, V)>; 256], pub usize);

impl<K, V> IntoPageElements<K, V> {
    /// The entries that are still to come, in order.
    pub open spec fn remaining(self) -> Seq<(K, V)> {
        if self.1 < 256 {
            entries(self.0@.skip(self.1 as int))
        } else {
            Seq::empty()
        }
    }

    /// The next entry, if one is left: empty slots are passed over.
    pub fn next(&mut self) -> (entry: Option<(K, V)>)
        ensures
            old(self).remaining().len() == 0 ==> entry is None && final(self).remaining().len()
                == 0,
            old(self).remaining().len() > 0 ==> entry == Some(old(self).remaining()[0])
                && final(self).remaining() == old(self).remaining().skip(1),
    {
        loop
            invariant
                self.remaining() == old(self).remaining(),
            decreases 256 - self.1,
        {
            if self.1 >= 256 {
                return None;
            } else {
                let ghost slots = self.0@;
                let ghost before = slots.skip(self.1 as int);
                proof {
                    assert(before.skip(1) =~= slots.skip(self.1 + 1));
                }
                match self.0[self.1].take() {
                    Some(value) => {
                        proof {
                            let after = self.0@.skip(self.1 as int);
                            assert(after.skip(1) =~= before.skip(1));
                            let rest = entries(before.skip(1));
                            assert((seq![value] + rest).skip(1) =~= rest);
                        }
                        return Some(value);
                    },
                    None => {
                        assert(self.0@ =~= slots);
                        self.1 += 1;
                    },
                }
            }
        }
    }

    /// Bounds on the number of entries that are still to come.
    pub fn size_hint(&self) -> (hint: (usize, Option<usize>))
        ensures
            hint == (0usize, Some(256usize)),
    {
        (0, Some(self.0.len()))
    }
}

/// An iterator over entries in a `Map`.
pub struct Iter<'a, K, V>(pub Option<PageElements<'a, K, V>>, pub Pages<'a, K, V>);

impl<'a, K: Collapse, V> Iter<'a, K, V> {
    /// The entries that are still to come, in order: those left in the page
    /// at hand, then those of the pages behind it.
    pub open spec fn remaining(self) -> Seq<(K, V)> {
        match self.0 {
            Some(elements) => elements.remaining() + all_entries(views(self.1.remaining())),
            None => all_entries(views(self.1.remaining())),
        }
    }

    /// The next entry, if one is left.
    pub fn next(&mut self) -> (entry: Option<&'a (K, V)>)
        ensures
            old(self).remaining().len() == 0 ==> entry is None && final(self).remaining().len()
                == 0,
            old(self).remaining().len() > 0 ==> entry == Some(&old(self).remaining()[0])
                && final(self).remaining() == old(self).remaining().skip(1),
    {
        loop
            invariant
                self.remaining() == old(self).remaining(),
            decreases self.1.remaining().len(),
        {
            let ghost behind = all_entries(views(self.1.remaining()));
            if let Some(page) = &mut self.0 {
                let ghost here = page.remaining();
                if let Some(elem) = page.next() {
                    proof {
                        assert((here + behind).skip(1) =~= here.skip(1) + behind);
                    }
                    return Some(elem);
                }
                proof {
                    assert(here + behind =~= behind);
                    assert(page.remaining() + behind =~= behind);
                }
            }
            let ghost pages = self.1.remaining();
            if let Some(next_page) = self.1.next() {
                proof {
                    assert(views(pages).skip(1) =~= views(self.1.remaining()));
                }
                self.0 = Some(next_page.iter());
            } else {
                return None;
            }
        }
    }

    /// Bounds on the number of entries that are still to come.
    pub fn size_hint(&self) -> (hint: (usize, Option<usize>))
        ensures
            hint.0 == 0,
            hint.1 == (if self.1.remaining().len() * 256 <= usize::MAX {
                Some((self.1.remaining().len() * 256) as usize)
            } else {
                None
            }),
    {
        match self.1.size_hint().1 {
            Some(pages) => (0, pages.checked_mul(256)),
            None => (0, None),
        }
    }
}

/// A mutable iterator over entries in a `Map`.
pub struct IterMut<'a, K, V>(pub Option<PageElementsMut<'a, K, V>>, pub PagesMut<'a, K, V>);

impl<'a, K: Collapse, V> IterMut<'a, K, V> {
    /// The entries that are still to come, in order, as they are now: those
    /// left in the page at hand, then those of the pages behind it.
    pub open spec fn remaining(self) -> Seq<(K, V)> {
        match self.0 {
            Some(elements) => elements.remaining() + all_entries(views(self.1.remaining())),
            None => all_entries(views(self.1.remaining())),
        }
    }

    /// The next entry, if one is left.
    ///
    /// Where the page at hand has an entry left, the pages behind it are left
    /// alone, and the slots at hand will hold in the end what
    /// `PageElementsMut::next` says. Where it has none, it is left as it is,
    /// and so are the pages without an entry that are passed over; the first
    /// page with an entry will hold in the end the empty slots that were
    /// passed over, then what this entry will be, then what the slots behind
    /// it will hold.
    pub fn next(&mut self) -> (entry: Option<&'a mut (K, V)>)
        ensures
            old(self).remaining().len() == 0 ==> entry is None && final(self).remaining().len()
                == 0,
            old(self).remaining().len() > 0 ==> {
                &&& entry matches Some(first)
                &&& *first == old(self).remaining()[0]
                &&& final(self).remaining() == old(self).remaining().skip(1)
            },
            old(self).0 matches Some(elements) ==> (elements.remaining().len() > 0 ==> {
                &&& final(self).1 == old(self).1
                &&& elements.0 matches Some(all)
                &&& final(self).0 matches Some(now)
                &&& now.0 matches Some(rest)
                &&& entry matches Some(first)
                &&& final(all)@ == all@.take(leading_vacant(all@)) + seq![Some(*final(first))]
                    + final(rest)@
            }),
            old(self).0 matches Some(elements) ==> (elements.remaining().len() == 0 ==> (
            elements.0 matches Some(all) ==> final(all)@ == all@)),
            (old(self).0 matches Some(elements) ==> elements.remaining().len() == 0) ==> (old(self).1.0
                matches Some(pages) ==> {
                let n = leading_blank(views(pages@));
                if n == pages@.len() {
                    views(final(pages)@) == views(pages@)
                } else {
                    &&& entry matches Some(first)
                    &&& final(self).0 matches Some(now)
                    &&& now.0 matches Some(rest)
                    &&& final(self).1.0 matches Some(behind)
                    &&& behind@ == pages@.skip(n + 1)
                    &&& views(final(pages)@) == views(pages@.take(n)) + seq![
                        pages@[n]@.take(leading_vacant(pages@[n]@)) + seq![Some(*final(first))]
                            + final(rest)@,
                    ] + views(final(behind)@)
                }
            }),
    {
        let ghost taken: int = 0;
        loop
            invariant
                self.remaining() == old(self).remaining(),
                taken >= 0,
                taken == 0 ==> *self == *old(self),
                taken > 0 ==> {
                    &&& old(self).0 matches Some(elements) ==> elements.remaining().len() == 0 && (
                    elements.0 matches Some(all) ==> final(all)@ == all@)
                    &&& old(self).1.0 matches Some(pages)
                    &&& taken <= pages@.len()
                    &&& forall|j: int|
                        0 <= j < taken - 1 ==> entries(#[trigger] views(pages@)[j]).len() == 0
                    &&& self.0 matches Some(now)
                    &&& now.0 matches Some(slots)
                    &&& slots@ == pages@[taken - 1]@
                    &&& self.1.0 matches Some(behind)
                    &&& behind@ == pages@.skip(taken)
                    &&& views(final(pages)@) == views(pages@.take(taken - 1)) + seq![final(slots)@]
                        + views(final(behind)@)
                },
            decreases self.1.remaining().len(),
        {
            let ghost behind = all_entries(views(self.1.remaining()));
            if let Some(page) = &mut self.0 {
                let ghost here = page.remaining();
                if let Some(elem) = page.next() {
                    proof {
                        assert((here + behind).skip(1) =~= here.skip(1) + behind);
                        if taken > 0 {
                            let pages = old(self).1.0->0@;
                            lemma_leading_blank_is(views(pages), taken - 1);
                        }
                    }
                    return Some(elem);
                }
                proof {
                    assert(here + behind =~= behind);
                    assert(page.remaining() + behind =~= behind);
                }
            }
            let ghost pages = self.1.remaining();
            if let Some(next_page) = self.1.next() {
                proof {
                    assert(views(pages).skip(1) =~= views(self.1.remaining()));
                }
                self.0 = Some(next_page.iter_mut());
                proof {
                    taken = taken + 1;
                }
            } else {
                proof {
                    if old(self).1.0 is Some {
                        let all = old(self).1.0->0@;
                        lemma_leading_blank_is(views(all), all.len() as int);
                    }
                }
                return None;
            }
        }
    }

    /// Bounds on the number of entries that are still to come.
    pub fn size_hint(&self) -> (hint: (usize, Option<usize>))
        ensures
            hint.0 == 0,
            hint.1 == (if self.1.remaining().len() * 256 <= usize::MAX {
                Some((self.1.remaining().len() * 256) as usize)
            } else {
                None
            }),
    {
        match self.1.size_hint().1 {
            Some(pages) => (0, pages.checked_mul(256)),
            None => (0, None),
        }
    }
}

/// A consuming iterator over entries in a `Map`.
///
/// The pages that are still to come are kept last page first, so that the
/// next one is taken off the end.
pub struct IntoIter<K, V>(pub Option<IntoPageElements<K, V>>, pub Vec<Page<K, V>>);

impl<K: Collapse, V> IntoIter<K, V> {
    /// The entries that are still to come, in order: those left in the page
    /// at hand, then those of the pages behind it.
    pub open spec fn remaining(self) -> Seq<(K, V)> {
        match self.0 {
            Some(elements) => elements.remaining() + all_entries(views(self.1@.reverse())),
            None => all_entries(views(self.1@.reverse())),
        }
    }

    /// The next entry, if one is left.
    pub fn next(&mut self) -> (entry: Option<(K, V)>)
        ensures
            old(self).remaining().len() == 0 ==> entry is None && final(self).remaining().len()
                == 0,
            old(self).remaining().len() > 0 ==> entry == Some(old(self).remaining()[0])
                && final(self).remaining() == old(self).remaining().skip(1),
    {
        loop
            invariant
                self.remaining() == old(self).remaining(),
            decreases self.1@.len(),
        {
            let ghost behind = all_entries(views(self.1@.reverse()));
            if let Some(page) = &mut self.0 {
                let ghost here = page.remaining();
                if let Some(elem) = page.next() {
                    proof {
                        assert((here + behind).skip(1) =~= here.skip(1) + behind);
                    }
                    return Some(elem);
                }
                proof {
                    assert(here + behind =~= behind);
                    assert(page.remaining() + behind =~= behind);
                }
            }
            let ghost pages = self.1@;
            if let Some(next) = self.1.pop() {
                proof {
                    assert(views(pages.reverse()).skip(1) =~= views(self.1@.reverse()));
                    assert(views(pages.reverse())[0] == next@);
                }
                self.0 = Some(next.into_iter());
            } else {
                return None;
            }
        }
    }

    /// Bounds on the number of entries that are still to come.
    pub fn size_hint(&self) -> (hint: (usize, Option<usize>))
        ensures
            hint.0 == 0,
            hint.1 == (if self.1@.len() * 256 <= usize::MAX {
                Some((self.1@.len() * 256) as usize)
            } else {
                None
            }),
    {
        (0, self.1.len().checked_mul(256))
    }
}

} // verus!
