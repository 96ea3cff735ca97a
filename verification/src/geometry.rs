//! The ray that the scene scan and the bounce recursion pass along, and what
//! the library asks of the vectors in it.

use vstd::prelude::*;

verus! {

/// The one operation on vectors that the library calls itself: it asks the
/// sky for a colour along a direction of unit length.
pub trait Vector: Sized {
    /// The vector of unit length that points the way `self` does.
    fn normalize(self) -> Self;
}

/// A half-line in space. `V` is the caller's vector type.
#[derive(Copy, Clone, Debug, PartialEq)]
pub struct Ray<V> {
    pub origin: V,
    pub direction: V,
}

} // verus!
