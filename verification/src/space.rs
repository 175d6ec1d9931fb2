//! Items to pack, and rectangles on the grid.

use vstd::prelude::*;
use vstd::std_specs::convert::FromSpecImpl;

verus! {

/// The name of an item, or `Absent` for a region that belongs to no item.
#[derive(Copy, Clone, Debug, PartialEq, Eq, Structural)]
pub enum Id {
    Absent,
    Item(u32),
}

impl From<u32> for Id {
    fn from(id: u32) -> (r: Self) {
        Self::Item(id)
    }
}

impl FromSpecImpl<u32> for Id {
    open spec fn obeys_from_spec() -> bool {
        true
    }

    open spec fn from_spec(id: u32) -> Self {
        Self::Item(id)
    }
}

/// A rectangle to pack. Width and height are in grid steps.
#[derive(Copy, Clone, Debug, PartialEq, Eq, Structural)]
pub struct SizedItem {
    pub id: Id,
    pub w: u32,
    pub h: u32,
}

/// A rectangle on the grid: its top-left corner and its size, in grid steps.
///
/// It is the place of an item, with the item's name, or a region that is
/// still free.
#[derive(Copy, Clone, Debug, PartialEq, Eq, Structural)]
pub struct Space {
    pub id: Id,
    pub x: u64,
    pub y: u64,
    pub w: u64,
    pub h: u64,
}

impl<'a> From<&'a SizedItem> for Space {
    /// The item as a box at the origin.
    fn from(v: &'a SizedItem) -> (r: Self) {
        Self { id: v.id, x: 0, y: 0, w: v.w as u64, h: v.h as u64 }
    }
}

impl<'a> FromSpecImpl<&'a SizedItem> for Space {
    open spec fn obeys_from_spec() -> bool {
        true
    }

    open spec fn from_spec(v: &'a SizedItem) -> Self {
        Space { id: v.id, x: 0, y: 0, w: v.w as u64, h: v.h as u64 }
    }
}

impl Space {
    /// The first column to the right of the rectangle.
    pub open spec fn right(self) -> int {
        self.x + self.w
    }

    /// The first row below the rectangle.
    pub open spec fn bottom(self) -> int {
        self.y + self.h
    }

    /// The area of the rectangle, in squares of the grid.
    pub open spec fn area_spec(self) -> int {
        self.w * self.h
    }

    /// Whether the two rectangles intersect: each begins before the other
    /// ends, across and down.
    pub open spec fn overlaps(self, other: Space) -> bool {
        &&& self.x < other.right()
        &&& other.x < self.right()
        &&& self.y < other.bottom()
        &&& other.y < self.bottom()
    }

    /// Whether the rectangle lies inside `outer`, borders included.
    pub open spec fn within(self, outer: Space) -> bool {
        &&& outer.x <= self.x
        &&& outer.y <= self.y
        &&& self.right() <= outer.right()
        &&& self.bottom() <= outer.bottom()
    }

    /// Whether a rectangle of `w` by `h` can be put into this one.
    pub open spec fn fits(self, w: int, h: int) -> bool {
        w <= self.w && h <= self.h
    }

    /// The rectangle with its name and size, moved to the origin.
    pub open spec fn at_origin(self) -> Space {
        Space { id: self.id, x: 0, y: 0, w: self.w, h: self.h }
    }

    /// The area of the rectangle, in squares of the grid.
    pub fn area(&self) -> (r: u128)
        ensures
            r == self.area_spec(),
    {
        assert(self.w * self.h <= u64::MAX * u64::MAX) by (nonlinear_arith)
            requires
                self.w <= u64::MAX,
                self.h <= u64::MAX,
        ;
        (self.w as u128) * (self.h as u128)
    }
}

} // verus!
