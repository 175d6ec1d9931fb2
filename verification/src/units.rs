//! Fixed-point lengths and the tolerance under which two lengths count as equal.
//!
//! Every length in this crate is a whole number of grid steps. A unit of
//! length has [`SCALE`] steps, so a length carries five decimal places.

use vstd::prelude::*;

verus! {

/// Grid steps in one unit of length.
pub const SCALE: u64 = 100_000;

/// Two lengths that differ by less than this many grid steps, a
/// ten-thousandth of a unit, count as equal.
pub const TOLERANCE: u64 = 10;

/// The distance between two lengths.
pub open spec fn distance(a: int, b: int) -> int {
    if a <= b {
        b - a
    } else {
        a - b
    }
}

/// Whether two lengths are equal within the tolerance: they are less than
/// [`TOLERANCE`] apart.
pub open spec fn approx_eq_spec(a: int, b: int) -> bool {
    distance(a, b) < TOLERANCE
}

/// Tells whether `a` and `b` are less than [`TOLERANCE`] apart.
pub fn approx_eq(a: u64, b: u64) -> (r: bool)
    ensures
        r == approx_eq_spec(a as int, b as int),
{
    if a <= b {
        b - a < TOLERANCE
    } else {
        a - b < TOLERANCE
    }
}

/// Every length is equal to itself within the tolerance.
pub proof fn lemma_approx_eq_reflexive(x: int)
    ensures
        approx_eq_spec(x, x),
{
}

} // verus!
