//! # smallmap
//! A small table map with a byte sized key index.
//!
//! With a key type which all invariants can be represented as unique bytes, searching this map is a single index dereference.
//! With only a few bytes it is still very efficient.
//!
//! Every key reduces to a byte ([`Collapse`]), and that byte is the index of
//! the key's slot in a [`Page`] of 256 slots. A [`SmallMap`] is a sequence of
//! pages: a key whose slot is taken by another key in every page goes into a
//! new page.
//!
//! ## Usage
//! The API is a similar subset to `HashMap`, containing the same `insert`, `get`, and `entry` functions.
//!
//! ## What is proved
//! Each function has a contract, stated over the slots of the pages
//! ([`table`]) and over the mathematical map that a lookup sees
//! (`SmallMap::view`); [`lemmas`] holds the proofs about the slots, and
//! [`laws`] what follows for the operations taken together.
pub mod collapse;
pub mod entry;
pub mod hasher;
pub mod iter;
pub mod laws;
pub mod lemmas;
pub mod map;
pub mod page;
pub mod primitive;
mod sealed;
pub mod table;

pub use collapse::{collapse, collapse_iter, Collapse};
pub use entry::Entry;
pub use map::{SmallMap, SmallSet};
pub use page::Page;
pub use primitive::Primitive;
pub use vstd::view::View;
