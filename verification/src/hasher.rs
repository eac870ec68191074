//! The fold that reduces what a key is hashed from to one byte.
use vstd::prelude::*;
use crate::collapse::{collapse, xor_fold, Collapse};

verus! {

/// The state of a reduction by hashing: the exclusive-or of the bytes that
/// everything written so far reduces to.
pub struct CollapseHasher(pub u8);

impl CollapseHasher {
    /// A hasher into which nothing was written.
    pub fn new() -> (hasher: Self)
        ensures
            hasher.0 == 0,
    {
        CollapseHasher(0)
    }

    /// The byte that what was written reduces to.
    pub fn finish(&self) -> (hash: u64)
        ensures
            hash == self.0,
    {
        self.0 as u64
    }

    /// Fold the bytes of `buffer` into the state.
    pub fn write(&mut self, buffer: &[u8])
        ensures
            final(self).0 == old(self).0 ^ xor_fold(buffer@),
    {
        self.0 = self.0 ^ collapse(buffer);
    }

    /// Fold the byte that `i` reduces to into the state.
    pub fn write_u8(&mut self, i: u8)
        ensures
            final(self).0 == old(self).0 ^ <u8 as Collapse>::reduce(i),
    {
        self.0 = self.0 ^ Collapse::collapse(&i);
    }

    /// Fold the byte that `i` reduces to into the state.
    pub fn write_i8(&mut self, i: i8)
        ensures
            final(self).0 == old(self).0 ^ <i8 as Collapse>::reduce(i),
    {
        self.0 = self.0 ^ Collapse::collapse(&i);
    }

    /// Fold the byte that `i` reduces to into the state.
    pub fn write_i16(&mut self, i: i16)
        ensures
            final(self).0 == old(self).0 ^ <i16 as Collapse>::reduce(i),
    {
        self.0 = self.0 ^ Collapse::collapse(&i);
    }

    /// Fold the byte that `i` reduces to into the state.
    pub fn write_u16(&mut self, i: u16)
        ensures
            final(self).0 == old(self).0 ^ <u16 as Collapse>::reduce(i),
    {
        self.0 = self.0 ^ Collapse::collapse(&i);
    }

    /// Fold the byte that `i` reduces to into the state.
    pub fn write_i32(&mut self, i: i32)
        ensures
            final(self).0 == old(self).0 ^ <i32 as Collapse>::reduce(i),
    {
        self.0 = self.0 ^ Collapse::collapse(&i);
    }

    /// Fold the byte that `i` reduces to into the state.
    pub fn write_u32(&mut self, i: u32)
        ensures
            final(self).0 == old(self).0 ^ <u32 as Collapse>::reduce(i),
    {
        self.0 = self.0 ^ Collapse::collapse(&i);
    }

    /// Fold the byte that `i` reduces to into the state.
    pub fn write_i64(&mut self, i: i64)
        ensures
            final(self).0 == old(self).0 ^ <i64 as Collapse>::reduce(i),
    {
        self.0 = self.0 ^ Collapse::collapse(&i);
    }

    /// Fold the byte that `i` reduces to into the state.
    pub fn write_u64(&mut self, i: u64)
        ensures
            final(self).0 == old(self).0 ^ <u64 as Collapse>::reduce(i),
    {
        self.0 = self.0 ^ Collapse::collapse(&i);
    }

    /// Fold the byte that `i` reduces to into the state.
    pub fn write_i128(&mut self, i: i128)
        ensures
            final(self).0 == old(self).0 ^ <i128 as Collapse>::reduce(i),
    {
        self.0 = self.0 ^ Collapse::collapse(&i);
    }

    /// Fold the byte that `i` reduces to into the state.
    pub fn write_u128(&mut self, i: u128)
        ensures
            final(self).0 == old(self).0 ^ <u128 as Collapse>::reduce(i),
    {
        self.0 = self.0 ^ Collapse::collapse(&i);
    }

    /// Fold the byte that `i` reduces to into the state.
    pub fn write_isize(&mut self, i: isize)
        ensures
            final(self).0 == old(self).0 ^ <isize as Collapse>::reduce(i),
    {
        self.0 = self.0 ^ Collapse::collapse(&i);
    }

    /// Fold the byte that `i` reduces to into the state.
    pub fn write_usize(&mut self, i: usize)
        ensures
            final(self).0 == old(self).0 ^ <usize as Collapse>::reduce(i),
    {
        self.0 = self.0 ^ Collapse::collapse(&i);
    }
}

} // verus!
