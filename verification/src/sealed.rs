//! The seal on the primitive key types.
use vstd::prelude::*;

verus! {

/// Marks the types that may implement `PrimitiveCollapse`: no type outside
/// this crate can.
pub trait Sealed {

}

} // verus!
