//! Plain two-dimensional value types: a component pair and an axis-aligned
//! rectangle given by its inclusive corners.

use vstd::prelude::*;

verus! {

/// A pair of like-typed components, used for positions and sizes.
#[derive(Clone, Copy, Debug, PartialEq, Eq, Structural)]
pub struct Pair<T> {
    pub x: T,
    pub y: T,
}

impl<T> Pair<T> {
    pub fn new(x: T, y: T) -> (r: Self)
        ensures
            r == (Pair { x, y }),
    {
        Pair { x, y }
    }
}

impl Pair<isize> {
    /// Component-wise sum.
    pub fn add(self, other: Self) -> (r: Self)
        requires
            isize::MIN <= self.x + other.x <= isize::MAX,
            isize::MIN <= self.y + other.y <= isize::MAX,
        ensures
            r.x == self.x + other.x,
            r.y == self.y + other.y,
    {
        Pair { x: self.x + other.x, y: self.y + other.y }
    }

    /// Component-wise difference.
    pub fn sub(self, other: Self) -> (r: Self)
        requires
            isize::MIN <= self.x - other.x <= isize::MAX,
            isize::MIN <= self.y - other.y <= isize::MAX,
        ensures
            r.x == self.x - other.x,
            r.y == self.y - other.y,
    {
        Pair { x: self.x - other.x, y: self.y - other.y }
    }

    /// Narrows both components into the unsigned domain; `None` when either
    /// component is negative.
    pub fn try_cast_unsigned(self) -> (r: Option<Pair<usize>>)
        ensures
            r matches Some(p) ==> self.x >= 0 && self.y >= 0 && p.x == self.x && p.y == self.y,
            r is None ==> self.x < 0 || self.y < 0,
    {
        if self.x >= 0 && self.y >= 0 {
            Some(Pair { x: self.x as usize, y: self.y as usize })
        } else {
            None
        }
    }
}

impl Pair<usize> {
    /// Component-wise sum.
    pub fn add(self, other: Self) -> (r: Self)
        requires
            self.x + other.x <= usize::MAX,
            self.y + other.y <= usize::MAX,
        ensures
            r.x == self.x + other.x,
            r.y == self.y + other.y,
    {
        Pair { x: self.x + other.x, y: self.y + other.y }
    }

    /// Widens both components into the signed domain; `None` when either
    /// component exceeds the signed maximum.
    pub fn try_cast_signed(self) -> (r: Option<Pair<isize>>)
        ensures
            r matches Some(p) ==> self.x <= isize::MAX && self.y <= isize::MAX && p.x == self.x
                && p.y == self.y,
            r is None ==> self.x > isize::MAX || self.y > isize::MAX,
    {
        if self.x <= isize::MAX as usize && self.y <= isize::MAX as usize {
            Some(Pair { x: self.x as isize, y: self.y as isize })
        } else {
            None
        }
    }
}

/// An axis-aligned rectangle, stored by its inclusive edges.
#[derive(Clone, Copy, Debug, PartialEq, Eq, Structural)]
pub struct Rectangle<T> {
    pub left_edge: T,
    pub top_edge: T,
    pub right_edge: T,
    pub bottom_edge: T,
}

impl Rectangle<usize> {
    /// The rectangle whose opposite corners are `top_left` and `bottom_right`,
    /// both inclusive.
    pub fn from_corners(top_left: Pair<usize>, bottom_right: Pair<usize>) -> (r: Self)
        requires
            top_left.x <= bottom_right.x,
            top_left.y <= bottom_right.y,
        ensures
            r.left_edge == top_left.x,
            r.top_edge == top_left.y,
            r.right_edge == bottom_right.x,
            r.bottom_edge == bottom_right.y,
    {
        Rectangle {
            left_edge: top_left.x,
            top_edge: top_left.y,
            right_edge: bottom_right.x,
            bottom_edge: bottom_right.y,
        }
    }

    pub fn left(self) -> (r: usize)
        ensures
            r == self.left_edge,
    {
        self.left_edge
    }

    pub fn top(self) -> (r: usize)
        ensures
            r == self.top_edge,
    {
        self.top_edge
    }

    pub fn right(self) -> (r: usize)
        ensures
            r == self.right_edge,
    {
        self.right_edge
    }

    pub fn bottom(self) -> (r: usize)
        ensures
            r == self.bottom_edge,
    {
        self.bottom_edge
    }

    /// The number of columns the rectangle spans (its edges are inclusive).
    pub fn width(self) -> (r: usize)
        requires
            self.left_edge <= self.right_edge,
            self.right_edge - self.left_edge < usize::MAX,
        ensures
            r == self.right_edge - self.left_edge + 1,
    {
        self.right_edge - self.left_edge + 1
    }
}

} // verus!
