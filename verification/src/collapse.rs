//! Reduction of keys to a byte.
use vstd::prelude::*;

verus! {

/// The exclusive-or of all bytes of `bytes`, `0` for the empty sequence.
pub open spec fn xor_fold(bytes: Seq<u8>) -> u8 {
    bytes.fold_left(0u8, |acc: u8, byte: u8| acc ^ byte)
}

/// Trait for types that can be used as `Map` keys.
///
/// A key is told from another by its view: two keys are the same key exactly
/// when their views are equal. The byte that a key reduces to is a function
/// of its view, so that equal keys reduce to equal bytes.
///
/// Implementors should try to minimise collisions by making `collapse` return a relatively unique value if possible.
/// But it is not required.
/// A simple folding implementation is provided for byte slices here [`collapse_iter()`](collapse_iter).
///
/// Integer types implement this through the modulo of itself over 256, whereas string types implement it through an XOR fold over their bytes.
pub trait Collapse: View + Sized {
    /// The byte that a key with the view `id` reduces to.
    spec fn reduce(id: Self::V) -> u8;

    /// Create the index key for this instance. This is similar in use to `Hash::hash()`.
    fn collapse(&self) -> (b: u8)
        ensures
            b == Self::reduce(self@),
    ;

    /// Whether `other` is the same key as this one.
    fn same(&self, other: &Self) -> (r: bool)
        ensures
            r == (self@ == other@),
    ;
}

/// Collapse a slice of bytes with an XOR fold.
pub fn collapse(bytes: &[u8]) -> (b: u8)
    ensures
        b == xor_fold(bytes@),
{
    let mut acc: u8 = 0;
    let mut i: usize = 0;
    while i < bytes.len()
        invariant
            i <= bytes.len(),
            acc == xor_fold(bytes@.take(i as int)),
        decreases bytes.len() - i,
    {
        proof {
            assert(bytes@.take(i + 1).drop_last() =~= bytes@.take(i as int));
        }
        acc = acc ^ bytes[i];
        i += 1;
    }
    proof {
        assert(bytes@.take(i as int) =~= bytes@);
    }
    acc
}

/// Collapse an iterator of bytes with an XOR fold
pub fn collapse_iter(bytes: Vec<u8>) -> (b: u8)
    ensures
        b == xor_fold(bytes@),
{
    let mut acc: u8 = 0;
    for byte in it: bytes.into_iter()
        invariant
            it.seq() == bytes@,
            acc == xor_fold(bytes@.take(it.index() as int)),
    {
        proof {
            assert(bytes@.take(it.index() + 1).drop_last() =~= bytes@.take(it.index() as int));
        }
        acc = acc ^ byte;
    }
    proof {
        assert(bytes@.take(bytes@.len() as int) =~= bytes@);
    }
    acc
}

impl Collapse for bool {
    open spec fn reduce(id: bool) -> u8 {
        if id {
            1
        } else {
            0
        }
    }

    fn collapse(&self) -> (b: u8) {
        if *self {
            1
        } else {
            0
        }
    }

    fn same(&self, other: &Self) -> (r: bool) {
        *self == *other
    }
}

impl Collapse for () {
    open spec fn reduce(id: ()) -> u8 {
        0
    }

    fn collapse(&self) -> (b: u8) {
        0
    }

    fn same(&self, other: &Self) -> (r: bool) {
        true
    }
}

impl Collapse for u8 {
    open spec fn reduce(id: u8) -> u8 {
        id
    }

    fn collapse(&self) -> (b: u8) {
        *self
    }

    fn same(&self, other: &Self) -> (r: bool) {
        *self == *other
    }
}

impl Collapse for i8 {
    open spec fn reduce(id: i8) -> u8 {
        (id as int % 256) as u8
    }

    fn collapse(&self) -> (b: u8) {
        let wide: i16 = *self as i16;
        if wide < 0 {
            (wide + 256) as u8
        } else {
            wide as u8
        }
    }

    fn same(&self, other: &Self) -> (r: bool) {
        *self == *other
    }
}

impl Collapse for char {
    open spec fn reduce(id: char) -> u8 {
        (id as u32 % 256) as u8
    }

    fn collapse(&self) -> (b: u8) {
        (*self as u32 % 256) as u8
    }

    fn same(&self, other: &Self) -> (r: bool) {
        *self == *other
    }
}

impl Collapse for u16 {
    open spec fn reduce(id: u16) -> u8 {
        (id % 256) as u8
    }

    fn collapse(&self) -> (b: u8) {
        (*self % 256) as u8
    }

    fn same(&self, other: &Self) -> (r: bool) {
        *self == *other
    }
}

impl Collapse for u32 {
    open spec fn reduce(id: u32) -> u8 {
        (id % 256) as u8
    }

    fn collapse(&self) -> (b: u8) {
        (*self % 256) as u8
    }

    fn same(&self, other: &Self) -> (r: bool) {
        *self == *other
    }
}

impl Collapse for u64 {
    open spec fn reduce(id: u64) -> u8 {
        (id % 256) as u8
    }

    fn collapse(&self) -> (b: u8) {
        (*self % 256) as u8
    }

    fn same(&self, other: &Self) -> (r: bool) {
        *self == *other
    }
}

impl Collapse for u128 {
    open spec fn reduce(id: u128) -> u8 {
        (id % 256) as u8
    }

    fn collapse(&self) -> (b: u8) {
        (*self % 256) as u8
    }

    fn same(&self, other: &Self) -> (r: bool) {
        *self == *other
    }
}

impl Collapse for usize {
    open spec fn reduce(id: usize) -> u8 {
        (id % 256) as u8
    }

    fn collapse(&self) -> (b: u8) {
        (*self % 256) as u8
    }

    fn same(&self, other: &Self) -> (r: bool) {
        *self == *other
    }
}

impl Collapse for i16 {
    open spec fn reduce(id: i16) -> u8 {
        (id as int % 256) as u8
    }

    fn collapse(&self) -> (b: u8) {
        let r: i16 = *self % 256;
        if r < 0 {
            (r + 256) as u8
        } else {
            r as u8
        }
    }

    fn same(&self, other: &Self) -> (r: bool) {
        *self == *other
    }
}

impl Collapse for i32 {
    open spec fn reduce(id: i32) -> u8 {
        (id as int % 256) as u8
    }

    fn collapse(&self) -> (b: u8) {
        let r: i32 = *self % 256;
        if r < 0 {
            (r + 256) as u8
        } else {
            r as u8
        }
    }

    fn same(&self, other: &Self) -> (r: bool) {
        *self == *other
    }
}

impl Collapse for i64 {
    open spec fn reduce(id: i64) -> u8 {
        (id as int % 256) as u8
    }

    fn collapse(&self) -> (b: u8) {
        let r: i64 = *self % 256;
        if r < 0 {
            (r + 256) as u8
        } else {
            r as u8
        }
    }

    fn same(&self, other: &Self) -> (r: bool) {
        *self == *other
    }
}

impl Collapse for i128 {
    open spec fn reduce(id: i128) -> u8 {
        (id as int % 256) as u8
    }

    fn collapse(&self) -> (b: u8) {
        let r: i128 = *self % 256;
        if r < 0 {
            (r + 256) as u8
        } else {
            r as u8
        }
    }

    fn same(&self, other: &Self) -> (r: bool) {
        *self == *other
    }
}

impl Collapse for isize {
    open spec fn reduce(id: isize) -> u8 {
        (id as int % 256) as u8
    }

    fn collapse(&self) -> (b: u8) {
        let r: isize = *self % 256;
        if r < 0 {
            (r + 256) as u8
        } else {
            r as u8
        }
    }

    fn same(&self, other: &Self) -> (r: bool) {
        *self == *other
    }
}

impl<'a> Collapse for &'a str {
    open spec fn reduce(id: Seq<char>) -> u8 {
        xor_fold(vstd::utf8::encode_utf8(id))
    }

    fn collapse(&self) -> (b: u8) {
        self::collapse(self.as_bytes())
    }

    fn same(&self, other: &Self) -> (r: bool) {
        same_str(self, other)
    }
}

impl Collapse for String {
    open spec fn reduce(id: Seq<char>) -> u8 {
        xor_fold(vstd::utf8::encode_utf8(id))
    }

    fn collapse(&self) -> (b: u8) {
        self::collapse(self.as_str().as_bytes())
    }

    fn same(&self, other: &Self) -> (r: bool) {
        same_str(self.as_str(), other.as_str())
    }
}

/// Whether two slices hold the same bytes.
fn same_bytes(a: &[u8], b: &[u8]) -> (r: bool)
    ensures
        r == (a@ == b@),
{
    if a.len() != b.len() {
        return false;
    }
    let mut i: usize = 0;
    while i < a.len()
        invariant
            a@.len() == b@.len(),
            i <= a@.len(),
            a@.take(i as int) == b@.take(i as int),
        decreases a@.len() - i,
    {
        if a[i] != b[i] {
            return false;
        }
        proof {
            assert(a@.take(i + 1) =~= a@.take(i as int).push(a@[i as int]));
            assert(b@.take(i + 1) =~= b@.take(i as int).push(b@[i as int]));
        }
        i += 1;
    }
    proof {
        assert(a@.take(i as int) =~= a@);
        assert(b@.take(i as int) =~= b@);
    }
    true
}

/// Whether two string slices hold the same characters: they do exactly when
/// their UTF-8 encodings are the same bytes.
fn same_str(a: &str, b: &str) -> (r: bool)
    ensures
        r == (a@ == b@),
{
    proof {
        vstd::utf8::encode_utf8_decode_utf8(a@);
        vstd::utf8::encode_utf8_decode_utf8(b@);
    }
    same_bytes(a.as_bytes(), b.as_bytes())
}

} // verus!
