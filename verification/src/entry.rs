//! Map entries.
//!
//! The API is similar to that of `BTreeMap` and `HashMap`'s `Entry` types.
use vstd::prelude::*;
use crate::collapse::Collapse;

verus! {

/// Varient of [`Entry`](Entry) that already contains a value.
#[derive(Debug)]
pub struct OccupiedEntry<'a, K, V>(pub &'a mut Option<(K, V)>);

impl<'a, K, V> OccupiedEntry<'a, K, V> {
    /// What the slot of this entry holds now.
    pub open spec fn slot(self) -> Option<(K, V)> {
        *self.0
    }
}

impl<'a, K, V> OccupiedEntry<'a, K, V> where K: Collapse {
    /// Get a reference to the value
    pub fn get(&self) -> (value: &V)
        requires
            self.slot() is Some,
        ensures
            *value == self.slot().unwrap().1,
    {
        &self.0.as_ref().unwrap().1
    }

    /// Get a mutable reference to the value
    pub fn get_mut(&mut self) -> (value: &mut V)
        requires
            old(self).slot() is Some,
        ensures
            *value == old(self).slot().unwrap().1,
            final(self).slot() == Some((old(self).slot().unwrap().0, *final(value))),
            *final(final(self).0) == *final(old(self).0),
    {
        &mut self.0.as_mut().unwrap().1
    }

    /// Consume this instance, returning the held mutable reference to the value
    pub fn into_mut(self) -> (value: &'a mut V)
        requires
            self.slot() is Some,
        ensures
            *value == self.slot().unwrap().1,
            *final(self.0) == Some((self.slot().unwrap().0, *final(value))),
    {
        &mut self.0.as_mut().unwrap().1
    }

    /// A reference to the key
    pub fn key(&self) -> (key: &K)
        requires
            self.slot() is Some,
        ensures
            *key == self.slot().unwrap().0,
    {
        &self.0.as_ref().unwrap().0
    }

    /// Replace the held value with another, yielding the old one
    pub fn insert(&mut self, value: V) -> (previous: V)
        requires
            old(self).slot() is Some,
        ensures
            previous == old(self).slot().unwrap().1,
            final(self).slot() == Some((old(self).slot().unwrap().0, value)),
            *final(final(self).0) == *final(old(self).0),
    {
        let mut value = value;
        core::mem::swap(&mut self.0.as_mut().unwrap().1, &mut value);
        value
    }

    /// Remove this entry from the `Map`, yielding the removed value
    pub fn remove(self) -> (value: V)
        requires
            self.slot() is Some,
        ensures
            value == self.slot().unwrap().1,
            *final(self.0) is None,
    {
        self.remove_entry().1
    }

    /// Remove this entry from the `Map`, yielding the removed key-value pair.
    pub fn remove_entry(self) -> (entry: (K, V))
        requires
            self.slot() is Some,
        ensures
            entry == self.slot().unwrap(),
            *final(self.0) is None,
    {
        self.0.take().unwrap()
    }
}

/// Varient of [`Entry`](Entry) that does not contain a value.
#[derive(Debug)]
pub struct VacantEntry<'a, K, V>(pub &'a mut Option<(K, V)>, pub K);

impl<'a, K, V> VacantEntry<'a, K, V> {
    /// What the slot of this entry holds now.
    pub open spec fn slot(self) -> Option<(K, V)> {
        *self.0
    }
}

impl<'a, K, V> VacantEntry<'a, K, V> where K: Collapse {
    /// Insert a value into this empty slot, retuning a mutable reference to the new value.
    pub fn insert(self, value: V) -> (stored: &'a mut V)
        ensures
            *stored == value,
            *final(self.0) == Some((self.1, *final(stored))),
    {
        *self.0 = Some((self.1, value));
        &mut self.0.as_mut().unwrap().1
    }

    /// Consume this instance, returning the held key.
    pub fn into_key(self) -> (key: K)
        ensures
            key == self.1,
            *final(self.0) == self.slot(),
    {
        self.1
    }

    /// A reference to the held key
    pub fn key(&self) -> (key: &K)
        ensures
            *key == self.1,
    {
        &self.1
    }
}

/// Represents a space in a `Map` that may or may not contains a value.
#[derive(Debug)]
pub enum Entry<'a, K, V> {
    /// This entry slot does not yet contain a value
    Vacant(VacantEntry<'a, K, V>),
    /// This entry slot does contain a value
    Occupied(OccupiedEntry<'a, K, V>),
}

impl<'a, K, V> Entry<'a, K, V> {
    /// What the slot of this entry holds now.
    pub open spec fn slot(self) -> Option<(K, V)> {
        match self {
            Entry::Vacant(vacant) => vacant.slot(),
            Entry::Occupied(occupied) => occupied.slot(),
        }
    }

    /// The entry is what a map hands out: an occupied one over a slot that
    /// holds an entry, a vacant one over an empty slot.
    pub open spec fn wf(self) -> bool {
        match self {
            Entry::Vacant(vacant) => vacant.slot() is None,
            Entry::Occupied(occupied) => occupied.slot() is Some,
        }
    }

    /// The key of this entry: the one in the slot, or the one that waits to
    /// be written into it.
    pub open spec fn spec_key(self) -> K {
        match self {
            Entry::Vacant(vacant) => vacant.1,
            Entry::Occupied(occupied) => occupied.slot().unwrap().0,
        }
    }
}

impl<'a, K, V> Entry<'a, K, V> where K: Collapse {
    /// Run this closure on a mutable reference to the internal value if it is present, otherwise do nothing.
    pub fn and_modify<F: FnOnce(&mut V)>(self, f: F) -> (entry: Entry<'a, K, V>)
        requires
            self.wf(),
            self is Occupied ==> forall|value: &mut V|
                *value == self.slot().unwrap().1 ==> call_requires(f, (value,)),
        ensures
            self is Vacant ==> entry == self,
            self matches Entry::Occupied(before) ==> {
                &&& entry matches Entry::Occupied(after)
                &&& after.slot() matches Some(written)
                &&& written.0 == before.slot().unwrap().0
                &&& *final(after.0) == *final(before.0)
                &&& exists|value: &mut V|
                    {
                        &&& *value == before.slot().unwrap().1
                        &&& *final(value) == written.1
                        &&& call_ensures(f, (value,), ())
                    }
            },
    {
        match self {
            Entry::Occupied(occupied) => {
                let mut occupied = occupied;
                f(occupied.get_mut());
                Entry::Occupied(occupied)
            },
            Entry::Vacant(vacant) => Entry::Vacant(vacant),
        }
    }

    /// A reference to the key
    pub fn key(&self) -> (key: &K)
        requires
            self.wf(),
        ensures
            *key == self.spec_key(),
    {
        match self {
            Entry::Vacant(v) => v.key(),
            Entry::Occupied(o) => o.key(),
        }
    }

    /// Insert into the entry if it is empty the value returned by the closure and return a mutable reference to the new value, otherwise return a mutable reference to the already present value.
    pub fn or_insert_with<F: FnOnce() -> V>(self, with: F) -> (value: &'a mut V)
        requires
            self.wf(),
            self is Vacant ==> call_requires(with, ()),
        ensures
            match self {
                Entry::Occupied(occupied) => {
                    &&& *value == occupied.slot().unwrap().1
                    &&& *final(occupied.0) == Some((occupied.slot().unwrap().0, *final(value)))
                },
                Entry::Vacant(vacant) => {
                    &&& call_ensures(with, (), *value)
                    &&& *final(vacant.0) == Some((vacant.1, *final(value)))
                },
            },
    {
        match self {
            Entry::Occupied(o) => o.into_mut(),
            Entry::Vacant(v) => v.insert(with()),
        }
    }

    /// Insert into the entry this value if it is empty and return a mutable reference to the new value, otherwise return a mutable reference to the already present value.
    pub fn or_insert(self, value: V) -> (stored: &'a mut V)
        requires
            self.wf(),
        ensures
            match self {
                Entry::Occupied(occupied) => {
                    &&& *stored == occupied.slot().unwrap().1
                    &&& *final(occupied.0) == Some((occupied.slot().unwrap().0, *final(stored)))
                },
                Entry::Vacant(vacant) => {
                    &&& *stored == value
                    &&& *final(vacant.0) == Some((vacant.1, *final(stored)))
                },
            },
    {
        let with = || -> (made: V)
            ensures
                made == value,
            {
                value
            };
        self.or_insert_with(with)
    }
}

impl<'a, K, V> Entry<'a, K, V> where K: Collapse, V: Default {
    /// Insert into the entry the default value if it is empty and return a mutable reference to the new value, otherwise return a mutable reference to the already present value.
    pub fn or_default(self) -> (value: &'a mut V)
        requires
            self.wf(),
        ensures
            match self {
                Entry::Occupied(occupied) => {
                    &&& *value == occupied.slot().unwrap().1
                    &&& *final(occupied.0) == Some((occupied.slot().unwrap().0, *final(value)))
                },
                Entry::Vacant(vacant) => {
                    &&& call_ensures(V::default, (), *value)
                    &&& *final(vacant.0) == Some((vacant.1, *final(value)))
                },
            },
    {
        self.or_insert_with(V::default)
    }
}

} // verus!
