//! The packer: from a list of items to their places, the rectangle that
//! bounds them, and how much of it they fill.

use vstd::prelude::*;
use crate::area::lemma_area_bound;
use crate::boxes::{
    apart, bounds, boxes_of, clear_of, ids_of, item_sized, lemma_boxes_of, lemma_total_area_by_size,
    lemma_totals_bounded, lemma_widest, make_boxes, measure, total_area, unplaced, widest,
};
use crate::layout::{Layout, LayoutView};
use crate::sort::{
    lemma_sorted_by_height, lemma_sorted_ids, lemma_sorted_total_area, sort_by_height, sorted_by_height,
};
use crate::space::{SizedItem, Space};
use crate::start::{compute_start_width, start_width, AREA_LIMIT};

verus! {

/// A fraction: `num` parts of `den`.
#[derive(Copy, Clone, Debug, PartialEq, Eq, Structural)]
pub struct Ratio {
    pub num: u128,
    pub den: u128,
}

/// The rectangle that bounds a packing, and the part of it that the items
/// fill.
#[derive(Copy, Clone, Debug, PartialEq, Eq, Structural)]
pub struct Packing {
    pub w: u64,
    pub h: u64,
    pub fill: Ratio,
}

/// A packing: its bounding rectangle, the place of each item, and the
/// regions inside the start width that stayed free.
pub struct PotPack {
    pub packing: Packing,
    pub spaces: Vec<Space>,
    pub free: Vec<Space>,
}

/// A packing, as a value.
pub ghost struct PotPackView {
    pub packing: Packing,
    pub spaces: Seq<Space>,
    pub free: Seq<Space>,
}

impl View for PotPack {
    type V = PotPackView;

    open spec fn view(&self) -> PotPackView {
        PotPackView { packing: self.packing, spaces: self.spaces@, free: self.free@ }
    }
}

/// The part that `area` is of a rectangle of `w` by `h`; nothing of an empty
/// rectangle.
pub open spec fn fill_of(area: int, w: int, h: int) -> Ratio {
    if w * h == 0 {
        Ratio { num: 0, den: 1 }
    } else {
        Ratio { num: area as u128, den: (w * h) as u128 }
    }
}

/// The layout that packing `items` ends in: the boxes go, tallest first,
/// into a layout that starts as wide as their area and their widest ask for.
pub open spec fn layout_of(items: Seq<SizedItem>) -> LayoutView {
    let boxes = boxes_of(items);
    let width = start_width(total_area(boxes), widest(boxes));
    LayoutView::start(width as u64).place_all(sorted_by_height(boxes))
}

/// The packing of `items`.
pub open spec fn pack(items: Seq<SizedItem>) -> PotPackView {
    let end = layout_of(items);
    PotPackView {
        packing: Packing {
            w: end.width as u64,
            h: end.height as u64,
            fill: fill_of(total_area(boxes_of(items)), end.width, end.height),
        },
        spaces: end.spaces,
        free: end.free,
    }
}

/// Putting more boxes into a layout is putting the first of them, then the
/// next, and so on.
pub proof fn lemma_place_all_step(start: LayoutView, boxes: Seq<Space>, k: int)
    requires
        0 <= k < boxes.len(),
    ensures
        start.place_all(boxes.take(k + 1)) == start.place_all(boxes.take(k)).place(boxes[k]),
{
    assert(boxes.take(k + 1).drop_last() =~= boxes.take(k));
}

/// Packing is a function of the items: two packings of the same items are
/// the same, place by place.
pub proof fn lemma_pack_deterministic(items: Seq<SizedItem>, a: PotPack, b: PotPack)
    requires
        a@ == pack(items),
        b@ == pack(items),
    ensures
        a@ == b@,
        a.packing == b.packing,
        a.spaces@ == b.spaces@,
        a.free@ == b.free@,
{
}

impl PotPack {
    /// Packs the items.
    ///
    /// The items go, tallest first and items of one height in their given
    /// order, each into the top-left corner of the last free space of the
    /// list in which it fits. `spaces` holds their places in that order,
    /// `free` what stayed free inside the start width, and `packing` the
    /// smallest rectangle at the origin that holds the items, with the part
    /// of it that they fill.
    ///
    /// Every item has its place: the places, taken back to the origin, are
    /// the items as boxes in the order of their heights, so they carry the
    /// same names, each as often. No place reaches beyond the bounding
    /// rectangle. No two places overlap, and no place overlaps a region that
    /// stayed free. The items fill no more than the whole of the bounding
    /// rectangle, and more than nothing of it where one of them has an area.
    /// Of no items the bounding rectangle is empty and the fill is 0 of 1.
    pub fn new(boxes: &[SizedItem]) -> (r: PotPack)
        requires
            boxes@.len() <= u32::MAX,
        ensures
            r@ == pack(boxes@),
            layout_of(boxes@).well_formed(),
            layout_of(boxes@).start_width() == start_width(
                total_area(boxes_of(boxes@)),
                widest(boxes_of(boxes@)),
            ),
            r.spaces@.len() == boxes@.len(),
            0 < r.free@.len() <= boxes@.len() + 1,
            unplaced(r.spaces@) == sorted_by_height(boxes_of(boxes@)),
            unplaced(r.spaces@).to_multiset() == boxes_of(boxes@).to_multiset(),
            ids_of(r.spaces@).to_multiset() == ids_of(boxes_of(boxes@)).to_multiset(),
            bounds(r.spaces@, r.packing.w as int, r.packing.h as int),
            apart(r.spaces@),
            apart(r.free@),
            clear_of(r.free@, r.spaces@),
            total_area(r.spaces@) == total_area(boxes_of(boxes@)),
            r.packing.fill == fill_of(total_area(r.spaces@), r.packing.w as int, r.packing.h as int),
            0 <= r.packing.fill.num <= r.packing.fill.den,
            0 < r.packing.fill.den,
            0 < r.packing.fill.num <==> 0 < total_area(boxes_of(boxes@)),
            boxes@.len() == 0 ==> r.packing == (Packing { w: 0, h: 0, fill: Ratio { num: 0, den: 1 } }),
    {
        let mut list = make_boxes(boxes);
        proof {
            lemma_boxes_of(boxes@);
            lemma_totals_bounded(list@);
            lemma_widest(list@);
            lemma_sorted_by_height(list@);
            assert(list@.len() * (u32::MAX * u32::MAX) <= AREA_LIMIT) by (nonlinear_arith)
                requires
                    list@.len() <= u32::MAX,
            ;
        }
        let ghost given = list@;
        let (area, max_width) = measure(&list);
        sort_by_height(&mut list);
        let width = compute_start_width(area, max_width);
        let mut layout = Layout::new(width);
        let ghost start = layout@;
        let mut k: usize = 0;
        while k < list.len()
            invariant
                k <= list.len() <= u32::MAX,
                list@ == sorted_by_height(given),
                list@.to_multiset() == given.to_multiset(),
                item_sized(given),
                unplaced(given) == given,
                forall|j: int| 0 <= j < given.len() ==> (#[trigger] given[j]).w <= width,
                layout@ == start.place_all(list@.take(k as int)),
                layout@.well_formed(),
                layout@.start_width() == width,
                layout.height <= k * u32::MAX,
                unplaced(layout.spaces@) == list@.take(k as int),
            decreases list.len() - k,
        {
            let b = list[k];
            proof {
                list@.to_multiset_ensures();
                given.to_multiset_ensures();
                assert(list@.contains(b));
                assert(given.to_multiset().count(b) > 0);
                assert(given.contains(b));
                let j = choose|j: int| 0 <= j < given.len() && given[j] == b;
                assert(unplaced(given)[j] == b);
                lemma_place_all_step(start, list@, k as int);
                assert((k + 1) * u32::MAX <= u32::MAX * u32::MAX) by (nonlinear_arith)
                    requires
                        k + 1 <= u32::MAX,
                ;
            }
            layout.place(b);
            proof {
                assert(unplaced(layout.spaces@) =~= list@.take(k + 1));
            }
            k += 1;
        }
        proof {
            assert(list@.take(k as int) =~= list@);
            assert(layout.spaces@.len() == unplaced(layout.spaces@).len());
            if boxes@.len() == 0 {
                assert(layout.spaces@.len() == 0);
                assert(layout.width == 0 && layout.height == 0);
            }
            assert(ids_of(layout.spaces@) =~= ids_of(unplaced(layout.spaces@)));
            lemma_sorted_ids(given);
            lemma_sorted_total_area(given);
            lemma_total_area_by_size(layout.spaces@, list@);
            lemma_area_bound(layout.spaces@, layout.width as int, layout.height as int);
        }
        assert(layout.width * layout.height <= u64::MAX * u64::MAX) by (nonlinear_arith)
            requires
                layout.width <= u64::MAX,
                layout.height <= u64::MAX,
        ;
        let bound: u128 = (layout.width as u128) * (layout.height as u128);
        let fill = if bound == 0 {
            Ratio { num: 0, den: 1 }
        } else {
            Ratio { num: area, den: bound }
        };
        PotPack {
            packing: Packing { w: layout.width, h: layout.height, fill },
            spaces: layout.spaces,
            free: layout.free,
        }
    }
}

} // verus!
