//! Lists of rectangles: what it is for them to lie apart and inside a
//! bounding rectangle, their total area and their greatest width.

use vstd::prelude::*;
use vstd::std_specs::convert::FromSpec;
use crate::space::{Id, SizedItem, Space};

verus! {

/// Whether no two entries of the list overlap.
pub open spec fn apart(s: Seq<Space>) -> bool {
    forall|i: int, j: int|
        0 <= i < s.len() && 0 <= j < s.len() && i != j ==> !(#[trigger] s[i]).overlaps(#[trigger] s[j])
}

/// Whether no entry of the one list overlaps an entry of the other.
pub open spec fn clear_of(a: Seq<Space>, b: Seq<Space>) -> bool {
    forall|i: int, j: int|
        0 <= i < a.len() && 0 <= j < b.len() ==> !(#[trigger] a[i]).overlaps(#[trigger] b[j])
}

/// Whether `w` by `h` is the smallest rectangle at the origin that holds
/// every entry of the list: no entry reaches beyond it, and as far as it is
/// not empty some entry reaches its right border and some entry its lower
/// border. For the empty list it is 0 by 0.
pub open spec fn bounds(s: Seq<Space>, w: int, h: int) -> bool {
    &&& forall|j: int| 0 <= j < s.len() ==> (#[trigger] s[j]).right() <= w && s[j].bottom() <= h
    &&& w == 0 || exists|j: int| 0 <= j < s.len() && (#[trigger] s[j]).right() == w
    &&& h == 0 || exists|j: int| 0 <= j < s.len() && (#[trigger] s[j]).bottom() == h
}

/// The items as boxes at the origin, in their order.
pub open spec fn boxes_of(items: Seq<SizedItem>) -> Seq<Space> {
    Seq::new(items.len(), |k: int| Space::from_spec(&items[k]))
}

/// The rectangles with their names and sizes, each moved to the origin.
pub open spec fn unplaced(spaces: Seq<Space>) -> Seq<Space> {
    Seq::new(spaces.len(), |k: int| spaces[k].at_origin())
}

/// The names of the rectangles, in their order.
pub open spec fn ids_of(spaces: Seq<Space>) -> Seq<Id> {
    Seq::new(spaces.len(), |k: int| spaces[k].id)
}

/// Whether each box is of a size that an item can have: neither side is over
/// `u32::MAX`.
pub open spec fn item_sized(boxes: Seq<Space>) -> bool {
    forall|k: int| 0 <= k < boxes.len() ==> (#[trigger] boxes[k]).w <= u32::MAX && boxes[k].h <= u32::MAX
}

/// The sum of the areas of the boxes.
pub open spec fn total_area(boxes: Seq<Space>) -> int
    decreases boxes.len(),
{
    if boxes.len() == 0 {
        0
    } else {
        total_area(boxes.drop_last()) + boxes.last().area_spec()
    }
}

/// The width of the widest box; 0 where there is none.
pub open spec fn widest(boxes: Seq<Space>) -> int
    decreases boxes.len(),
{
    if boxes.len() == 0 {
        0
    } else if boxes.last().w >= widest(boxes.drop_last()) {
        boxes.last().w as int
    } else {
        widest(boxes.drop_last())
    }
}

/// Boxes made of items are of a size that an item can have, lie at the
/// origin, and are as many as the items.
pub proof fn lemma_boxes_of(items: Seq<SizedItem>)
    ensures
        boxes_of(items).len() == items.len(),
        item_sized(boxes_of(items)),
        unplaced(boxes_of(items)) == boxes_of(items),
{
    assert(unplaced(boxes_of(items)) =~= boxes_of(items));
}

/// No box is wider than the widest, and the widest is one of the boxes.
pub proof fn lemma_widest(boxes: Seq<Space>)
    ensures
        forall|k: int| 0 <= k < boxes.len() ==> (#[trigger] boxes[k]).w <= widest(boxes),
        boxes.len() > 0 ==> exists|k: int| 0 <= k < boxes.len() && (#[trigger] boxes[k]).w == widest(boxes),
        widest(boxes) >= 0,
    decreases boxes.len(),
{
    if boxes.len() > 0 {
        let rest = boxes.drop_last();
        lemma_widest(rest);
        assert forall|k: int| 0 <= k < boxes.len() implies (#[trigger] boxes[k]).w <= widest(boxes) by {
            if k < rest.len() {
                assert(boxes[k] == rest[k]);
            }
        }
        if boxes.last().w >= widest(rest) {
            assert(boxes[boxes.len() - 1].w == widest(boxes));
        } else {
            let k = choose|k: int| 0 <= k < rest.len() && (#[trigger] rest[k]).w == widest(rest);
            assert(boxes[k].w == widest(boxes));
        }
    }
}

/// Boxes of the size of items cover no more than `u32::MAX` squared each,
/// and are no wider than `u32::MAX`.
pub proof fn lemma_totals_bounded(boxes: Seq<Space>)
    requires
        item_sized(boxes),
    ensures
        0 <= total_area(boxes) <= boxes.len() * (u32::MAX * u32::MAX),
        0 <= widest(boxes) <= u32::MAX,
    decreases boxes.len(),
{
    if boxes.len() > 0 {
        let rest = boxes.drop_last();
        let b = boxes.last();
        assert forall|k: int| 0 <= k < rest.len() implies (#[trigger] rest[k]).w <= u32::MAX && rest[k].h
            <= u32::MAX by {
            assert(rest[k] == boxes[k]);
        }
        lemma_totals_bounded(rest);
        assert(boxes[boxes.len() - 1] == b);
        assert(0 <= b.w * b.h <= u32::MAX * u32::MAX) by (nonlinear_arith)
            requires
                0 <= b.w <= u32::MAX,
                0 <= b.h <= u32::MAX,
        ;
    }
}

/// The first boxes of a list have no more area than all of them.
pub proof fn lemma_total_area_grows(boxes: Seq<Space>, k: int)
    requires
        0 <= k <= boxes.len(),
    ensures
        0 <= total_area(boxes.take(k)) <= total_area(boxes),
    decreases boxes.len(),
{
    if k == boxes.len() {
        assert(boxes.take(k) =~= boxes);
        if k > 0 {
            lemma_total_area_grows(boxes.drop_last(), k - 1);
        }
    } else {
        lemma_total_area_grows(boxes.drop_last(), k);
        assert(boxes.drop_last().take(k) =~= boxes.take(k));
    }
    if boxes.len() > 0 {
        let b = boxes.last();
        assert(b.w * b.h >= 0) by (nonlinear_arith)
            requires
                b.w >= 0,
                b.h >= 0,
        ;
    }
}

/// Lists of boxes of the same sizes, one by one, have the same total area.
pub proof fn lemma_total_area_by_size(a: Seq<Space>, b: Seq<Space>)
    requires
        a.len() == b.len(),
        forall|k: int| 0 <= k < a.len() ==> (#[trigger] a[k]).w == b[k].w && a[k].h == b[k].h,
    ensures
        total_area(a) == total_area(b),
    decreases a.len(),
{
    if a.len() > 0 {
        let ra = a.drop_last();
        let rb = b.drop_last();
        assert forall|k: int| 0 <= k < ra.len() implies (#[trigger] ra[k]).w == rb[k].w && ra[k].h == rb[k].h by {
            assert(ra[k] == a[k] && rb[k] == b[k]);
        }
        lemma_total_area_by_size(ra, rb);
        assert(a.last() == a[a.len() - 1] && b.last() == b[a.len() - 1]);
    }
}

/// A box that joins a list, wherever, adds its area to the total.
pub proof fn lemma_total_area_insert(s: Seq<Space>, p: int, b: Space)
    requires
        0 <= p <= s.len(),
    ensures
        total_area(s.insert(p, b)) == total_area(s) + b.area_spec(),
    decreases s.len(),
{
    let t = s.insert(p, b);
    if p == s.len() {
        assert(t.drop_last() =~= s);
    } else {
        assert(t.drop_last() =~= s.drop_last().insert(p, b));
        assert(t.last() == s.last());
        lemma_total_area_insert(s.drop_last(), p, b);
    }
}

/// Makes a box at the origin of each item.
pub fn make_boxes(items: &[SizedItem]) -> (boxes: Vec<Space>)
    ensures
        boxes@ == boxes_of(items@),
{
    let mut boxes: Vec<Space> = Vec::with_capacity(items.len());
    let mut k: usize = 0;
    while k < items.len()
        invariant
            k <= items.len(),
            boxes@ == boxes_of(items@.take(k as int)),
        decreases items.len() - k,
    {
        boxes.push(Space::from(&items[k]));
        proof {
            assert(boxes@ =~= boxes_of(items@.take(k + 1)));
        }
        k += 1;
    }
    proof {
        assert(items@.take(k as int) =~= items@);
    }
    boxes
}

/// Adds up the areas of the boxes and finds the width of the widest.
pub fn measure(boxes: &Vec<Space>) -> (r: (u128, u64))
    requires
        total_area(boxes@) <= u128::MAX,
    ensures
        r.0 == total_area(boxes@),
        r.1 == widest(boxes@),
{
    let mut area: u128 = 0;
    let mut max_width: u64 = 0;
    let mut k: usize = 0;
    while k < boxes.len()
        invariant
            k <= boxes.len(),
            total_area(boxes@) <= u128::MAX,
            area == total_area(boxes@.take(k as int)),
            max_width == widest(boxes@.take(k as int)),
        decreases boxes.len() - k,
    {
        proof {
            lemma_total_area_grows(boxes@, k + 1);
            assert(boxes@.take(k + 1).drop_last() =~= boxes@.take(k as int));
        }
        let b = &boxes[k];
        area += b.area();
        if b.w > max_width {
            max_width = b.w;
        }
        k += 1;
    }
    proof {
        assert(boxes@.take(k as int) =~= boxes@);
    }
    (area, max_width)
}

} // verus!
