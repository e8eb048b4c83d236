//! Plane shapes with integer sides.

use vstd::prelude::*;

verus! {

/// An axis-aligned rectangle with integer side lengths `x` and `y`.
pub struct Rectangle {
    pub x: u32,
    pub y: u32,
}

impl Rectangle {
    /// The area of the rectangle; the product must fit in a `u32`.
    pub fn area(&self) -> (a: u32)
        requires
            self.x * self.y <= u32::MAX,
        ensures
            a == self.x * self.y,
    {
        self.x * self.y
    }
}

} // verus!
