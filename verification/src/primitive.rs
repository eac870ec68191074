//! Contains `Collapse` impls for primitive types through a newtime shim.
//!
//! # Why
//! A primitive type reduces to its byte without any arithmetic on it where it
//! is one byte wide, and by an XOR fold over its bytes where it is wider.
use vstd::prelude::*;
use crate::collapse::{collapse, xor_fold, Collapse};
use crate::sealed::Sealed;

verus! {

/// Sealed trait allowing for wrapping primitive types with a more efficient implemntation for the `Collapse` trait.
/// This should not be used for much directly, instead use the newtype shim `Primitive<T>`.
pub trait PrimitiveCollapse: Sealed + Sized {
    /// The byte that the value reduces to.
    spec fn fold(self) -> u8;

    fn collapse(&self) -> (b: u8)
        ensures
            b == self.fold(),
    ;

    fn same(&self, other: &Self) -> (r: bool)
        ensures
            r == (*self == *other),
    ;
}

/// Shim for primitive types to efficiently implement `Collapse`.
///
/// # Notes
/// The `collapse()` output from this structure is not guaranteed to be the same as the `collapse()` output from the inner value.
#[derive(Debug, Clone, PartialEq, Eq, Copy, Ord, PartialOrd)]
pub struct Primitive<T>(pub T);

impl<T> View for Primitive<T> {
    type V = T;

    open spec fn view(&self) -> T {
        self.0
    }
}

impl<T: PrimitiveCollapse> Collapse for Primitive<T> {
    open spec fn reduce(id: T) -> u8 {
        id.fold()
    }

    fn collapse(&self) -> (b: u8) {
        self.0.collapse()
    }

    fn same(&self, other: &Self) -> (r: bool) {
        self.0.same(&other.0)
    }
}

impl<T: PrimitiveCollapse> Primitive<T> {
    /// Wrap this primitive
    pub fn new(value: T) -> (wrapped: Self)
        ensures
            wrapped@ == value,
    {
        Self(value)
    }

    /// Consume into the inner primitive
    pub fn into_inner(self) -> (value: T)
        ensures
            value == self@,
    {
        self.0
    }

    /// Get the inner primitive
    ///
    /// # Notes
    /// Only useful if the inner type does not implement `Copy`, which is extremely unlickely.
    /// You should almost always use `into_inner` instead.
    pub fn inner(&self) -> (value: &T)
        ensures
            *value == self@,
    {
        &self.0
    }

    /// Get a mutable reference to the inner ptimitive.
    pub fn inner_mut(&mut self) -> (value: &mut T)
        ensures
            *value == old(self)@,
            final(self)@ == *final(value),
    {
        &mut self.0
    }

    /// Same as `into_inner`, except only for `Copy` types.
    pub fn into_inner_copy(self) -> (value: T) where T: Copy
        ensures
            value == self@,
    {
        self.0
    }
}

impl<T: Default> Default for Primitive<T> {
    fn default() -> (wrapped: Self)
        ensures
            call_ensures(T::default, (), wrapped@),
    {
        Primitive(T::default())
    }
}

impl Sealed for u8 {

}

impl PrimitiveCollapse for u8 {
    open spec fn fold(self) -> u8 {
        self
    }

    fn collapse(&self) -> (b: u8) {
        *self
    }

    fn same(&self, other: &Self) -> (r: bool) {
        *self == *other
    }
}

impl Sealed for i8 {

}

impl PrimitiveCollapse for i8 {
    open spec fn fold(self) -> u8 {
        self as u8
    }

    fn collapse(&self) -> (b: u8) {
        #[verifier::truncate]
        (*self as u8)
    }

    fn same(&self, other: &Self) -> (r: bool) {
        *self == *other
    }
}

impl Sealed for () {

}

impl PrimitiveCollapse for () {
    open spec fn fold(self) -> u8 {
        0
    }

    fn collapse(&self) -> (b: u8) {
        0
    }

    fn same(&self, other: &Self) -> (r: bool) {
        true
    }
}

impl Sealed for u16 {

}

impl PrimitiveCollapse for u16 {
    /// The XOR fold of the value's 2 bytes.
    open spec fn fold(self) -> u8 {
        xor_fold(seq![
            self as u8,
            (self >> 8) as u8,
        ])
    }

    fn collapse(&self) -> (b: u8) {
        let bits: u16 = *self;
        let bytes: [u8; 2] = [
            #[verifier::truncate] (bits as u8),
            #[verifier::truncate] ((bits >> 8) as u8),
        ];
        assert(bytes@ =~= seq![
            self as u8,
            (self >> 8) as u8,
        ]);
        collapse(&bytes)
    }

    fn same(&self, other: &Self) -> (r: bool) {
        *self == *other
    }
}

impl Sealed for u32 {

}

impl PrimitiveCollapse for u32 {
    /// The XOR fold of the value's 4 bytes.
    open spec fn fold(self) -> u8 {
        xor_fold(seq![
            self as u8,
            (self >> 8) as u8,
            (self >> 16) as u8,
            (self >> 24) as u8,
        ])
    }

    fn collapse(&self) -> (b: u8) {
        let bits: u32 = *self;
        let bytes: [u8; 4] = [
            #[verifier::truncate] (bits as u8),
            #[verifier::truncate] ((bits >> 8) as u8),
            #[verifier::truncate] ((bits >> 16) as u8),
            #[verifier::truncate] ((bits >> 24) as u8),
        ];
        assert(bytes@ =~= seq![
            self as u8,
            (self >> 8) as u8,
            (self >> 16) as u8,
            (self >> 24) as u8,
        ]);
        collapse(&bytes)
    }

    fn same(&self, other: &Self) -> (r: bool) {
        *self == *other
    }
}

impl Sealed for u64 {

}

impl PrimitiveCollapse for u64 {
    /// The XOR fold of the value's 8 bytes.
    open spec fn fold(self) -> u8 {
        xor_fold(seq![
            self as u8,
            (self >> 8) as u8,
            (self >> 16) as u8,
            (self >> 24) as u8,
            (self >> 32) as u8,
            (self >> 40) as u8,
            (self >> 48) as u8,
            (self >> 56) as u8,
        ])
    }

    fn collapse(&self) -> (b: u8) {
        let bits: u64 = *self;
        let bytes: [u8; 8] = [
            #[verifier::truncate] (bits as u8),
            #[verifier::truncate] ((bits >> 8) as u8),
            #[verifier::truncate] ((bits >> 16) as u8),
            #[verifier::truncate] ((bits >> 24) as u8),
            #[verifier::truncate] ((bits >> 32) as u8),
            #[verifier::truncate] ((bits >> 40) as u8),
            #[verifier::truncate] ((bits >> 48) as u8),
            #[verifier::truncate] ((bits >> 56) as u8),
        ];
        assert(bytes@ =~= seq![
            self as u8,
            (self >> 8) as u8,
            (self >> 16) as u8,
            (self >> 24) as u8,
            (self >> 32) as u8,
            (self >> 40) as u8,
            (self >> 48) as u8,
            (self >> 56) as u8,
        ]);
        collapse(&bytes)
    }

    fn same(&self, other: &Self) -> (r: bool) {
        *self == *other
    }
}

impl Sealed for u128 {

}

impl PrimitiveCollapse for u128 {
    /// The XOR fold of the value's 16 bytes.
    open spec fn fold(self) -> u8 {
        xor_fold(seq![
            self as u8,
            (self >> 8) as u8,
            (self >> 16) as u8,
            (self >> 24) as u8,
            (self >> 32) as u8,
            (self >> 40) as u8,
            (self >> 48) as u8,
            (self >> 56) as u8,
            (self >> 64) as u8,
            (self >> 72) as u8,
            (self >> 80) as u8,
            (self >> 88) as u8,
            (self >> 96) as u8,
            (self >> 104) as u8,
            (self >> 112) as u8,
            (self >> 120) as u8,
        ])
    }

    fn collapse(&self) -> (b: u8) {
        let bits: u128 = *self;
        let bytes: [u8; 16] = [
            #[verifier::truncate] (bits as u8),
            #[verifier::truncate] ((bits >> 8) as u8),
            #[verifier::truncate] ((bits >> 16) as u8),
            #[verifier::truncate] ((bits >> 24) as u8),
            #[verifier::truncate] ((bits >> 32) as u8),
            #[verifier::truncate] ((bits >> 40) as u8),
            #[verifier::truncate] ((bits >> 48) as u8),
            #[verifier::truncate] ((bits >> 56) as u8),
            #[verifier::truncate] ((bits >> 64) as u8),
            #[verifier::truncate] ((bits >> 72) as u8),
            #[verifier::truncate] ((bits >> 80) as u8),
            #[verifier::truncate] ((bits >> 88) as u8),
            #[verifier::truncate] ((bits >> 96) as u8),
            #[verifier::truncate] ((bits >> 104) as u8),
            #[verifier::truncate] ((bits >> 112) as u8),
            #[verifier::truncate] ((bits >> 120) as u8),
        ];
        assert(bytes@ =~= seq![
            self as u8,
            (self >> 8) as u8,
            (self >> 16) as u8,
            (self >> 24) as u8,
            (self >> 32) as u8,
            (self >> 40) as u8,
            (self >> 48) as u8,
            (self >> 56) as u8,
            (self >> 64) as u8,
            (self >> 72) as u8,
            (self >> 80) as u8,
            (self >> 88) as u8,
            (self >> 96) as u8,
            (self >> 104) as u8,
            (self >> 112) as u8,
            (self >> 120) as u8,
        ]);
        collapse(&bytes)
    }

    fn same(&self, other: &Self) -> (r: bool) {
        *self == *other
    }
}

impl Sealed for i16 {

}

impl PrimitiveCollapse for i16 {
    /// The XOR fold of the value's 2 bytes.
    open spec fn fold(self) -> u8 {
        xor_fold(seq![
            (self as u16) as u8,
            ((self as u16) >> 8) as u8,
        ])
    }

    fn collapse(&self) -> (b: u8) {
        let bits: u16 = #[verifier::truncate] (*self as u16);
        let bytes: [u8; 2] = [
            #[verifier::truncate] (bits as u8),
            #[verifier::truncate] ((bits >> 8) as u8),
        ];
        assert(bytes@ =~= seq![
            (self as u16) as u8,
            ((self as u16) >> 8) as u8,
        ]);
        collapse(&bytes)
    }

    fn same(&self, other: &Self) -> (r: bool) {
        *self == *other
    }
}

impl Sealed for i32 {

}

impl PrimitiveCollapse for i32 {
    /// The XOR fold of the value's 4 bytes.
    open spec fn fold(self) -> u8 {
        xor_fold(seq![
            (self as u32) as u8,
            ((self as u32) >> 8) as u8,
            ((self as u32) >> 16) as u8,
            ((self as u32) >> 24) as u8,
        ])
    }

    fn collapse(&self) -> (b: u8) {
        let bits: u32 = #[verifier::truncate] (*self as u32);
        let bytes: [u8; 4] = [
            #[verifier::truncate] (bits as u8),
            #[verifier::truncate] ((bits >> 8) as u8),
            #[verifier::truncate] ((bits >> 16) as u8),
            #[verifier::truncate] ((bits >> 24) as u8),
        ];
        assert(bytes@ =~= seq![
            (self as u32) as u8,
            ((self as u32) >> 8) as u8,
            ((self as u32) >> 16) as u8,
            ((self as u32) >> 24) as u8,
        ]);
        collapse(&bytes)
    }

    fn same(&self, other: &Self) -> (r: bool) {
        *self == *other
    }
}

impl Sealed for i64 {

}

impl PrimitiveCollapse for i64 {
    /// The XOR fold of the value's 8 bytes.
    open spec fn fold(self) -> u8 {
        xor_fold(seq![
            (self as u64) as u8,
            ((self as u64) >> 8) as u8,
            ((self as u64) >> 16) as u8,
            ((self as u64) >> 24) as u8,
            ((self as u64) >> 32) as u8,
            ((self as u64) >> 40) as u8,
            ((self as u64) >> 48) as u8,
            ((self as u64) >> 56) as u8,
        ])
    }

    fn collapse(&self) -> (b: u8) {
        let bits: u64 = #[verifier::truncate] (*self as u64);
        let bytes: [u8; 8] = [
            #[verifier::truncate] (bits as u8),
            #[verifier::truncate] ((bits >> 8) as u8),
            #[verifier::truncate] ((bits >> 16) as u8),
            #[verifier::truncate] ((bits >> 24) as u8),
            #[verifier::truncate] ((bits >> 32) as u8),
            #[verifier::truncate] ((bits >> 40) as u8),
            #[verifier::truncate] ((bits >> 48) as u8),
            #[verifier::truncate] ((bits >> 56) as u8),
        ];
        assert(bytes@ =~= seq![
            (self as u64) as u8,
            ((self as u64) >> 8) as u8,
            ((self as u64) >> 16) as u8,
            ((self as u64) >> 24) as u8,
            ((self as u64) >> 32) as u8,
            ((self as u64) >> 40) as u8,
            ((self as u64) >> 48) as u8,
            ((self as u64) >> 56) as u8,
        ]);
        collapse(&bytes)
    }

    fn same(&self, other: &Self) -> (r: bool) {
        *self == *other
    }
}

impl Sealed for i128 {

}

impl PrimitiveCollapse for i128 {
    /// The XOR fold of the value's 16 bytes.
    open spec fn fold(self) -> u8 {
        xor_fold(seq![
            (self as u128) as u8,
            ((self as u128) >> 8) as u8,
            ((self as u128) >> 16) as u8,
            ((self as u128) >> 24) as u8,
            ((self as u128) >> 32) as u8,
            ((self as u128) >> 40) as u8,
            ((self as u128) >> 48) as u8,
            ((self as u128) >> 56) as u8,
            ((self as u128) >> 64) as u8,
            ((self as u128) >> 72) as u8,
            ((self as u128) >> 80) as u8,
            ((self as u128) >> 88) as u8,
            ((self as u128) >> 96) as u8,
            ((self as u128) >> 104) as u8,
            ((self as u128) >> 112) as u8,
            ((self as u128) >> 120) as u8,
        ])
    }

    fn collapse(&self) -> (b: u8) {
        let bits: u128 = #[verifier::truncate] (*self as u128);
        let bytes: [u8; 16] = [
            #[verifier::truncate] (bits as u8),
            #[verifier::truncate] ((bits >> 8) as u8),
            #[verifier::truncate] ((bits >> 16) as u8),
            #[verifier::truncate] ((bits >> 24) as u8),
            #[verifier::truncate] ((bits >> 32) as u8),
            #[verifier::truncate] ((bits >> 40) as u8),
            #[verifier::truncate] ((bits >> 48) as u8),
            #[verifier::truncate] ((bits >> 56) as u8),
            #[verifier::truncate] ((bits >> 64) as u8),
            #[verifier::truncate] ((bits >> 72) as u8),
            #[verifier::truncate] ((bits >> 80) as u8),
            #[verifier::truncate] ((bits >> 88) as u8),
            #[verifier::truncate] ((bits >> 96) as u8),
            #[verifier::truncate] ((bits >> 104) as u8),
            #[verifier::truncate] ((bits >> 112) as u8),
            #[verifier::truncate] ((bits >> 120) as u8),
        ];
        assert(bytes@ =~= seq![
            (self as u128) as u8,
            ((self as u128) >> 8) as u8,
            ((self as u128) >> 16) as u8,
            ((self as u128) >> 24) as u8,
            ((self as u128) >> 32) as u8,
            ((self as u128) >> 40) as u8,
            ((self as u128) >> 48) as u8,
            ((self as u128) >> 56) as u8,
            ((self as u128) >> 64) as u8,
            ((self as u128) >> 72) as u8,
            ((self as u128) >> 80) as u8,
            ((self as u128) >> 88) as u8,
            ((self as u128) >> 96) as u8,
            ((self as u128) >> 104) as u8,
            ((self as u128) >> 112) as u8,
            ((self as u128) >> 120) as u8,
        ]);
        collapse(&bytes)
    }

    fn same(&self, other: &Self) -> (r: bool) {
        *self == *other
    }
}

impl Sealed for usize {

}

impl PrimitiveCollapse for usize {
    /// The XOR fold of the value's bytes, which is that of its 8 bytes as a
    /// `u64`: bytes that are 0 leave the fold as it is.
    open spec fn fold(self) -> u8 {
        (self as u64).fold()
    }

    fn collapse(&self) -> (b: u8) {
        let wide: u64 = *self as u64;
        PrimitiveCollapse::collapse(&wide)
    }

    fn same(&self, other: &Self) -> (r: bool) {
        *self == *other
    }
}

impl Sealed for isize {

}

impl PrimitiveCollapse for isize {
    /// The XOR fold of the value's bytes, which is that of its 8 bytes as an
    /// `i64`: the bytes that the sign fills are equal and even in number, and
    /// leave the fold as it is.
    open spec fn fold(self) -> u8 {
        (self as i64).fold()
    }

    fn collapse(&self) -> (b: u8) {
        let wide: i64 = *self as i64;
        PrimitiveCollapse::collapse(&wide)
    }

    fn same(&self, other: &Self) -> (r: bool) {
        *self == *other
    }
}

impl<T: PrimitiveCollapse> From<T> for Primitive<T> {
    fn from(from: T) -> (wrapped: Self) {
        Self::new(from)
    }
}

impl<T: PrimitiveCollapse> vstd::std_specs::convert::FromSpecImpl<T> for Primitive<T> {
    open spec fn obeys_from_spec() -> bool {
        true
    }

    open spec fn from_spec(from: T) -> Self {
        Primitive(from)
    }
}

} // verus!
