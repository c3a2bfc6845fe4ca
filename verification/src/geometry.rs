//! Planar geometry in milli-unit coordinates.
//!
//! The viewport follows a y-up convention: `bottom` is the smallest y, `top`
//! the largest, and grid rows are laid out downward from `top`.

use vstd::prelude::*;

verus! {

/// Coordinates are kept within ten thousand display units of the origin,
/// enough for any screen while leaving products far from overflow.
pub const COORD_LIMIT: i64 = 10_000_000;

/// A point or extent in the plane, in milli-units.
#[derive(Clone, Copy, Debug, PartialEq, Eq, Structural)]
pub struct Vec2i {
    pub x: i64,
    pub y: i64,
}

impl Vec2i {
    /// Both coordinates are within the supported range.
    pub open spec fn wf(self) -> bool {
        &&& -COORD_LIMIT <= self.x <= COORD_LIMIT
        &&& -COORD_LIMIT <= self.y <= COORD_LIMIT
    }
}

/// A point in noise-field space, in milli-units.
#[derive(Clone, Copy, Debug, PartialEq, Eq, Structural)]
pub struct Vec3i {
    pub x: i64,
    pub y: i64,
    pub z: i64,
}

/// An axis-aligned rectangle in milli-units, given by its lower-left corner
/// and its extents.
#[derive(Clone, Copy, Debug, PartialEq, Eq, Structural)]
pub struct Rect {
    pub left: i64,
    pub bottom: i64,
    pub width: i64,
    pub height: i64,
}

impl Rect {
    /// Extents are non-negative and every corner is within the supported
    /// coordinate range.
    pub open spec fn wf(self) -> bool {
        &&& 0 <= self.width
        &&& 0 <= self.height
        &&& -COORD_LIMIT <= self.left <= self.left + self.width <= COORD_LIMIT
        &&& -COORD_LIMIT <= self.bottom <= self.bottom + self.height <= COORD_LIMIT
    }

    /// The largest x still inside the rectangle.
    pub open spec fn spec_right(self) -> int {
        self.left + self.width
    }

    /// The largest y still inside the rectangle.
    pub open spec fn spec_top(self) -> int {
        self.bottom + self.height
    }

    /// The rectangle's right edge.
    pub fn right(&self) -> (r: i64)
        requires
            self.wf(),
        ensures
            r == self.spec_right(),
    {
        self.left + self.width
    }

    /// The rectangle's top edge.
    pub fn top(&self) -> (t: i64)
        requires
            self.wf(),
        ensures
            t == self.spec_top(),
    {
        self.bottom + self.height
    }

    /// Whether `p` lies in the rectangle, edges included.
    pub open spec fn spec_contains(self, p: Vec2i) -> bool {
        &&& self.left <= p.x <= self.spec_right()
        &&& self.bottom <= p.y <= self.spec_top()
    }

    /// Point-in-rectangle test, edges included.
    pub fn contains(&self, p: &Vec2i) -> (r: bool)
        requires
            i64::MIN <= self.left + self.width <= i64::MAX,
            i64::MIN <= self.bottom + self.height <= i64::MAX,
        ensures
            r == self.spec_contains(*p),
    {
        self.left <= p.x && p.x <= self.left + self.width && self.bottom <= p.y && p.y
            <= self.bottom + self.height
    }

    /// The rectangle of extents `size` whose centre coincides with the centre
    /// of `self`, then shifted by `offset`. Centring uses the same truncating
    /// halving for both rectangles, so an odd extent skews both alike.
    pub open spec fn spec_centred(self, size: Vec2i, offset: Vec2i) -> Rect {
        Rect {
            left: (self.left + self.width / 2 - size.x / 2 + offset.x) as i64,
            bottom: (self.bottom + self.height / 2 - size.y / 2 + offset.y) as i64,
            width: size.x,
            height: size.y,
        }
    }

    /// Build the rectangle of extents `size` centred on `self` and shifted by
    /// `offset`.
    pub fn centred(&self, size: Vec2i, offset: Vec2i) -> (r: Rect)
        requires
            self.wf(),
            0 <= size.x <= COORD_LIMIT,
            0 <= size.y <= COORD_LIMIT,
            offset.wf(),
        ensures
            r == self.spec_centred(size, offset),
    {
        Rect {
            left: self.left + self.width / 2 - size.x / 2 + offset.x,
            bottom: self.bottom + self.height / 2 - size.y / 2 + offset.y,
            width: size.x,
            height: size.y,
        }
    }
}

} // verus!
