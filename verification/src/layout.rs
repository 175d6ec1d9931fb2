//! A packing under way: the items put down so far, the free list, and the
//! rectangle that bounds the items.

use vstd::prelude::*;
use crate::boxes::{apart, bounds, clear_of};
use crate::place::{find_space, lemma_last_fit, last_fit, take, take_space};
use crate::space::{Id, Space};
use crate::units::TOLERANCE;

verus! {

/// The rectangle `b` moved to the corner of `s`.
pub open spec fn moved_to(b: Space, s: Space) -> Space {
    Space { id: b.id, x: s.x, y: s.y, w: b.w, h: b.h }
}

/// The larger of two lengths.
pub open spec fn larger(a: int, b: int) -> int {
    if a >= b {
        a
    } else {
        b
    }
}

/// A packing under way, as a value.
pub ghost struct LayoutView {
    /// The items put down, in the order in which they were.
    pub spaces: Seq<Space>,
    /// The free list. Its first entry is the open space below the items.
    pub free: Seq<Space>,
    /// The width of the rectangle that bounds the items.
    pub width: int,
    /// The height of the rectangle that bounds the items.
    pub height: int,
}

impl LayoutView {
    /// The packing before any item: one free space as wide as `start_width`
    /// and as high as a length can be.
    pub open spec fn start(start_width: u64) -> LayoutView {
        LayoutView {
            spaces: Seq::empty(),
            free: seq![Space { id: Id::Absent, x: 0, y: 0, w: start_width, h: u64::MAX }],
            width: 0,
            height: 0,
        }
    }

    /// The width that the packing started with.
    pub open spec fn start_width(self) -> int {
        self.free[0].w as int
    }

    /// The packing after `b` went into the last free space of the list in
    /// which it fits. Where it fits in none, nothing changes.
    pub open spec fn place(self, b: Space) -> LayoutView {
        match last_fit(self.free, b.w as int, b.h as int) {
            Some(i) => {
                let put = moved_to(b, self.free[i]);
                LayoutView {
                    spaces: self.spaces.push(put),
                    free: take(self.free, i, b.w, b.h),
                    width: larger(self.width, put.right()),
                    height: larger(self.height, put.bottom()),
                }
            },
            None => self,
        }
    }

    /// The packing after each of `boxes` went in, in their order.
    pub open spec fn place_all(self, boxes: Seq<Space>) -> LayoutView
        decreases boxes.len(),
    {
        if boxes.len() == 0 {
            self
        } else {
            self.place_all(boxes.drop_last()).place(boxes.last())
        }
    }

    /// What holds of a packing from its start on.
    ///
    /// The first free space spans the start width, begins where the bounding
    /// rectangle ends and is open downwards; every other free space lies
    /// inside the start width and above it. Free spaces have no name, and
    /// there is at most one more of them than there are items. The bounding
    /// rectangle is the smallest that holds the items. No two of the items
    /// and free spaces overlap.
    pub open spec fn well_formed(self) -> bool {
        &&& 0 < self.free.len() <= self.spaces.len() + 1
        &&& forall|i: int| 0 <= i < self.free.len() ==> (#[trigger] self.free[i]).id == Id::Absent
        &&& self.free[0].x == 0
        &&& self.free[0].y == self.height
        &&& self.free[0].bottom() == u64::MAX
        &&& self.width <= self.start_width()
        &&& forall|i: int|
            0 < i < self.free.len() ==> (#[trigger] self.free[i]).right() <= self.start_width()
                && self.free[i].bottom() <= self.height
        &&& bounds(self.spaces, self.width, self.height)
        &&& apart(self.free)
        &&& apart(self.spaces)
        &&& clear_of(self.free, self.spaces)
    }
}

/// The packing at its start is well formed.
pub proof fn lemma_start_well_formed(start_width: u64)
    ensures
        LayoutView::start(start_width).well_formed(),
        LayoutView::start(start_width).start_width() == start_width,
{
}

/// A box no wider than the start width, and short enough to leave the open
/// space open, finds room in a well-formed packing, and the packing stays
/// well formed. The bounding rectangle grows by no more than the height of the
/// box.
pub proof fn lemma_place_well_formed(l: LayoutView, b: Space)
    requires
        l.well_formed(),
        b.w <= l.start_width(),
        l.height + b.h + TOLERANCE <= u64::MAX,
    ensures
        last_fit(l.free, b.w as int, b.h as int) is Some,
        l.place(b).well_formed(),
        l.place(b).start_width() == l.start_width(),
        l.place(b).spaces.len() == l.spaces.len() + 1,
        l.place(b).spaces.last().at_origin() == b.at_origin(),
        l.place(b).spaces.last().within(l.free[last_fit(l.free, b.w as int, b.h as int).unwrap()]),
        l.width <= l.place(b).width,
        l.height <= l.place(b).height <= l.height + b.h,
{
    // The open space takes the box, so some space does.
    lemma_last_fit(l.free, b.w as int, b.h as int);
    assert(l.free[0].fits(b.w as int, b.h as int));
    let i = last_fit(l.free, b.w as int, b.h as int).unwrap();
    let s = l.free[i];
    let put = moved_to(b, s);
    let n = l.place(b);
    assert(put.within(s));
    // The open space is higher than the box by more than the tolerance: it
    // neither leaves the list nor gets narrower.
    assert(i == 0 ==> s.h - b.h >= TOLERANCE);
    assert(n.free.len() > 0);
    assert(n.free[0].x == 0 && n.free[0].w == l.free[0].w);
    assert(n.free[0].bottom() == u64::MAX);
    assert(n.free[0].y == n.height);
    // A free space of the new list lies inside the space that took the box,
    // or was in the list before.
    assert forall|k: int| 0 <= k < n.free.len() implies (#[trigger] n.free[k]).within(s) || (exists|m: int|
        0 <= m < l.free.len() && m != i && l.free[m] == n.free[k]) by {
        if k == i {
            if b.w == s.w && b.h == s.h {
                assert(n.free[k] == l.free[l.free.len() - 1]);
            }
        } else if k < l.free.len() {
            assert(n.free[k] == l.free[k]);
        }
    }
    assert(n.spaces.len() == l.spaces.len() + 1);
    assert forall|j: int| 0 <= j < n.spaces.len() implies (#[trigger] n.spaces[j]) == (if j < l.spaces.len() {
        l.spaces[j]
    } else {
        put
    }) by {}
    assert(bounds(n.spaces, n.width, n.height)) by {
        assert(n.spaces[l.spaces.len() as int] == put);
        if n.width != 0 && n.width != put.right() {
            let j = choose|j: int| 0 <= j < l.spaces.len() && (#[trigger] l.spaces[j]).right() == l.width;
            assert(n.spaces[j].right() == n.width);
        }
        if n.height != 0 && n.height != put.bottom() {
            let j = choose|j: int| 0 <= j < l.spaces.len() && (#[trigger] l.spaces[j]).bottom() == l.height;
            assert(n.spaces[j].bottom() == n.height);
        }
    }
    assert(apart(n.spaces));
    assert(apart(n.free));
    assert(clear_of(n.free, n.spaces));
}

/// A packing under way.
pub struct Layout {
    /// The items put down, in the order in which they were.
    pub spaces: Vec<Space>,
    /// The free list. Its first entry is the open space below the items.
    pub free: Vec<Space>,
    /// The width of the rectangle that bounds the items.
    pub width: u64,
    /// The height of the rectangle that bounds the items.
    pub height: u64,
}

impl View for Layout {
    type V = LayoutView;

    open spec fn view(&self) -> LayoutView {
        LayoutView {
            spaces: self.spaces@,
            free: self.free@,
            width: self.width as int,
            height: self.height as int,
        }
    }
}

impl Layout {
    /// An empty packing with one free space: `start_width` wide, and as high
    /// as a length can be.
    pub fn new(start_width: u64) -> (r: Layout)
        ensures
            r@ == LayoutView::start(start_width),
            r@.well_formed(),
    {
        let mut free: Vec<Space> = Vec::new();
        free.push(Space { id: Id::Absent, x: 0, y: 0, w: start_width, h: u64::MAX });
        let r = Layout { spaces: Vec::new(), free, width: 0, height: 0 };
        proof {
            assert(r@.free =~= LayoutView::start(start_width).free);
            assert(r@.spaces =~= LayoutView::start(start_width).spaces);
            lemma_start_well_formed(start_width);
        }
        r
    }

    /// Puts `b` into the top-left corner of the last free space of the list
    /// in which it fits, and widens the bounding rectangle to hold it.
    pub fn place(&mut self, b: Space)
        requires
            old(self)@.well_formed(),
            b.w <= old(self)@.start_width(),
            old(self).height + b.h + TOLERANCE <= u64::MAX,
        ensures
            final(self)@ == old(self)@.place(b),
            final(self)@.well_formed(),
            final(self)@.start_width() == old(self)@.start_width(),
            last_fit(old(self)@.free, b.w as int, b.h as int) is Some,
            final(self).spaces@.len() == old(self).spaces@.len() + 1,
            final(self).spaces@.last().at_origin() == b.at_origin(),
            final(self).spaces@.last().within(
                old(self).free@[last_fit(old(self)@.free, b.w as int, b.h as int).unwrap()],
            ),
            old(self).width <= final(self).width,
            old(self).height <= final(self).height <= old(self).height + b.h,
    {
        proof {
            lemma_place_well_formed(self@, b);
        }
        match find_space(&self.free, b.w, b.h) {
            Some(i) => {
                let space = self.free[i];
                let put = Space { id: b.id, x: space.x, y: space.y, w: b.w, h: b.h };
                let right: u64 = put.x + put.w;
                let bottom: u64 = put.y + put.h;
                if right > self.width {
                    self.width = right;
                }
                if bottom > self.height {
                    self.height = bottom;
                }
                take_space(&mut self.free, i, b.w, b.h);
                self.spaces.push(put);
            },
            None => {},
        }
    }
}

} // verus!
