//! Two-dimensional unsigned vectors and pixel rectangles.

use vstd::prelude::*;

verus! {

/// A two-dimensional vector of unsigned pixel coordinates or extents.
#[derive(Clone, Copy, PartialEq, Eq, Structural, Debug, Hash)]
pub struct UVec2 {
    /// Horizontal component.
    pub x: u32,
    /// Vertical component.
    pub y: u32,
}

impl UVec2 {
    /// Builds the vector `(x, y)`.
    pub fn new(x: u32, y: u32) -> (r: UVec2)
        ensures
            r.x == x,
            r.y == y,
    {
        UVec2 { x, y }
    }

}

/// An axis-aligned pixel rectangle, `min` inclusive and `max` exclusive.
#[derive(Clone, Copy, PartialEq, Eq, Structural, Debug, Hash)]
pub struct URect {
    /// Top-left corner.
    pub min: UVec2,
    /// Bottom-right corner, one past the covered pixels.
    pub max: UVec2,
}

impl URect {
    /// A rectangle is well formed when `min` does not exceed `max` on either axis.
    pub open spec fn wf(self) -> bool {
        self.min.x <= self.max.x && self.min.y <= self.max.y
    }

    /// Width of the rectangle, in pixels.
    pub open spec fn spec_width(self) -> int {
        self.max.x - self.min.x
    }

    /// Height of the rectangle, in pixels.
    pub open spec fn spec_height(self) -> int {
        self.max.y - self.min.y
    }

    /// Builds the rectangle spanned by the two corners.
    pub fn from_corners(min: UVec2, max: UVec2) -> (r: URect)
        ensures
            r.min == min,
            r.max == max,
    {
        URect { min, max }
    }
}

} // verus!
