//! The width at which a packing starts: the side of a square of which the
//! items would fill ninety-five parts in a hundred, rounded up to whole
//! units, or the width of the widest item where that is more.

use vstd::prelude::*;
use vstd::arithmetic::div_mod::lemma_fundamental_div_mod;
use crate::units::SCALE;

verus! {

/// The part of the starting square that the items are meant to fill is
/// `FILL_PARTS` in `FILL_WHOLE`.
pub const FILL_PARTS: u128 = 19;

/// See [`FILL_PARTS`].
pub const FILL_WHOLE: u128 = 20;

/// The largest total area for which a start width is computed: 2 to the
/// power of 96 squares.
pub const AREA_LIMIT: u128 = 0x1_0000_0000_0000_0000_0000_0000;

/// Whether `area` fills no more than `FILL_PARTS` in `FILL_WHOLE` of a
/// square of side `side`.
pub open spec fn roomy(area: int, side: int) -> bool {
    FILL_PARTS * (side * side) >= FILL_WHOLE * area
}

/// Whether `side` is the least whole number of units that is roomy for
/// `area`.
pub open spec fn is_start_side(area: int, side: int) -> bool {
    &&& side >= 0
    &&& side % (SCALE as int) == 0
    &&& roomy(area, side)
    &&& side >= SCALE ==> !roomy(area, side - SCALE)
}

/// The least whole number of units that is roomy for `area`.
pub open spec fn start_side(area: int) -> int {
    choose|side: int| is_start_side(area, side)
}

/// The width at which the packing of boxes of total area `area`, the widest
/// of them `max_width` wide, starts.
pub open spec fn start_width(area: int, max_width: int) -> int {
    if start_side(area) >= max_width {
        start_side(area)
    } else {
        max_width
    }
}

/// A larger square is roomy where a smaller one is.
pub proof fn lemma_roomy_grows(area: int, a: int, b: int)
    requires
        0 <= a <= b,
        roomy(area, a),
    ensures
        roomy(area, b),
{
    assert(a * a <= b * b) by (nonlinear_arith)
        requires
            0 <= a <= b,
    ;
    assert(FILL_PARTS * (a * a) <= FILL_PARTS * (b * b)) by (nonlinear_arith)
        requires
            a * a <= b * b,
    ;
}

/// Of two different whole numbers of units, the smaller is at least a unit
/// less.
proof fn lemma_unit_apart(a: int, b: int)
    requires
        a % (SCALE as int) == 0,
        b % (SCALE as int) == 0,
        a < b,
    ensures
        a <= b - SCALE,
{
    let s = SCALE as int;
    lemma_fundamental_div_mod(a, s);
    lemma_fundamental_div_mod(b, s);
    assert(a == s * (a / s) && b == s * (b / s));
}

/// There is one start side for an area, not two.
pub proof fn lemma_start_side_unique(area: int, a: int, b: int)
    requires
        is_start_side(area, a),
        is_start_side(area, b),
    ensures
        a == b,
{
    if a < b {
        lemma_unit_apart(a, b);
        lemma_roomy_grows(area, a, b - SCALE);
    } else if b < a {
        lemma_unit_apart(b, a);
        lemma_roomy_grows(area, b, a - SCALE);
    }
}

/// Whatever is a start side for `area` is `start_side(area)`.
pub proof fn lemma_start_side(area: int, side: int)
    requires
        is_start_side(area, side),
    ensures
        start_side(area) == side,
{
    lemma_start_side_unique(area, side, start_side(area));
}

/// Below a roomy whole number of units lies a start side, or it is one
/// itself.
proof fn lemma_start_side_below(area: int, units: int)
    requires
        0 <= units,
        roomy(area, units * SCALE),
    ensures
        exists|side: int| is_start_side(area, side) && side <= units * SCALE,
    decreases units,
{
    let s = SCALE as int;
    assert((units * s) % s == 0) by (nonlinear_arith)
        requires
            s > 0,
    ;
    if units > 0 && roomy(area, (units - 1) * SCALE) {
        lemma_start_side_below(area, units - 1);
    } else {
        assert(units * s - s == (units - 1) * s) by (nonlinear_arith);
        assert(is_start_side(area, units * s));
    }
}

/// Every area up to the limit has its start side, of no more than 2 to the
/// power of 32 units.
pub proof fn lemma_start_side_exists(area: int)
    requires
        0 <= area <= AREA_LIMIT,
    ensures
        is_start_side(area, start_side(area)),
        0 <= start_side(area) <= 0x1_0000_0000 * SCALE,
{
    assert(roomy(area, 0x1_0000_0000 * SCALE)) by (nonlinear_arith)
        requires
            area <= AREA_LIMIT,
    ;
    lemma_start_side_below(area, 0x1_0000_0000);
    let side = choose|side: int| is_start_side(area, side) && side <= 0x1_0000_0000 * SCALE;
    lemma_start_side(area, side);
}

/// Computes the least whole number of units whose square is roomy for
/// `area`.
pub fn compute_start_side(area: u128) -> (side: u64)
    requires
        area <= AREA_LIMIT,
    ensures
        is_start_side(area as int, side as int),
        side == start_side(area as int),
{
    let scale: u128 = SCALE as u128;
    let target: u128 = FILL_WHOLE * area;
    let mut lo: u64 = 0;
    let mut hi: u64 = 0x1_0000_0000;
    proof {
        assert(roomy(area as int, hi * SCALE)) by (nonlinear_arith)
            requires
                hi == 0x1_0000_0000,
                area <= AREA_LIMIT,
        ;
    }
    while lo < hi
        invariant
            0 <= lo <= hi <= 0x1_0000_0000,
            scale == SCALE,
            target == FILL_WHOLE * area,
            area <= AREA_LIMIT,
            roomy(area as int, hi * SCALE),
            lo > 0 ==> !roomy(area as int, (lo - 1) * SCALE),
        decreases hi - lo,
    {
        let mid: u64 = lo + (hi - lo) / 2;
        let side: u128 = (mid as u128) * scale;
        assert(side <= 429_496_729_600_000);
        assert(side * side <= 429_496_729_600_000 * 429_496_729_600_000) by (nonlinear_arith)
            requires
                0 <= side <= 429_496_729_600_000,
        ;
        if FILL_PARTS * (side * side) >= target {
            hi = mid;
        } else {
            lo = mid + 1;
        }
    }
    let side: u64 = lo * SCALE;
    proof {
        lemma_start_side(area as int, side as int);
    }
    side
}

/// Computes the width at which the packing of boxes of total area `area`,
/// the widest of them `max_width` wide, starts.
pub fn compute_start_width(area: u128, max_width: u64) -> (width: u64)
    requires
        area <= AREA_LIMIT,
    ensures
        width == start_width(area as int, max_width as int),
{
    let side = compute_start_side(area);
    if side >= max_width {
        side
    } else {
        max_width
    }
}

} // verus!
