//! Depth values for compositing: when two draws target the same canvas slot,
//! the one whose layer is higher or equal wins.

use vstd::prelude::*;

verus! {

/// A totally ordered depth value. `depth` is the mathematical order the
/// executable comparison must agree with.
pub trait Layer: Sized + Copy {
    /// The position of this value in the total order of depths.
    spec fn depth(&self) -> int;

    /// Whether `self` lies at or above `other` in the depth order.
    fn is_at_or_above(&self, other: &Self) -> (r: bool)
        ensures
            r == (self.depth() >= other.depth()),
    ;
}

impl Layer for i32 {
    open spec fn depth(&self) -> int {
        *self as int
    }

    fn is_at_or_above(&self, other: &Self) -> (r: bool) {
        *self >= *other
    }
}

impl Layer for u32 {
    open spec fn depth(&self) -> int {
        *self as int
    }

    fn is_at_or_above(&self, other: &Self) -> (r: bool) {
        *self >= *other
    }
}

impl Layer for usize {
    open spec fn depth(&self) -> int {
        *self as int
    }

    fn is_at_or_above(&self, other: &Self) -> (r: bool) {
        *self >= *other
    }
}

} // verus!
