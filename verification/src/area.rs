//! Rectangles that do not overlap cover no more squares of the grid than the
//! rectangle that holds them has.
//!
//! The proof counts squares. A square of the grid is named by its column and
//! its row. No square lies in two of the rectangles, so a column holds no more
//! covered squares above a row than it has rows there, and the columns left of
//! a given one hold no more than that many times the height.

use vstd::prelude::*;
use crate::boxes::{apart, total_area};
use crate::space::Space;

verus! {

/// Whether the square in column `c` and row `t` lies in `r`.
pub open spec fn covers(r: Space, c: int, t: int) -> bool {
    r.x <= c < r.right() && r.y <= t < r.bottom()
}

/// How much of the stretch that begins at `from` and is `len` long lies
/// before `end`.
pub open spec fn before(from: int, len: int, end: int) -> int {
    if end <= from {
        0
    } else if end >= from + len {
        len
    } else {
        end - from
    }
}

/// The number of squares of `r` in column `c` above row `t`.
pub open spec fn column_part(r: Space, c: int, t: int) -> int {
    if r.x <= c < r.right() {
        before(r.y as int, r.h as int, t)
    } else {
        0
    }
}

/// The number of squares of `r` left of column `c`.
pub open spec fn left_part(r: Space, c: int) -> int {
    before(r.x as int, r.w as int, c) * r.h
}

/// The number of rectangles in which the square in column `c` and row `t`
/// lies.
pub open spec fn cover_count(s: Seq<Space>, c: int, t: int) -> int
    decreases s.len(),
{
    if s.len() == 0 {
        0
    } else {
        cover_count(s.drop_last(), c, t) + if covers(s.last(), c, t) {
            1int
        } else {
            0int
        }
    }
}

/// The squares of the rectangles in column `c` above row `t`, added up.
pub open spec fn column_total(s: Seq<Space>, c: int, t: int) -> int
    decreases s.len(),
{
    if s.len() == 0 {
        0
    } else {
        column_total(s.drop_last(), c, t) + column_part(s.last(), c, t)
    }
}

/// The squares of the rectangles left of column `c`, added up.
pub open spec fn left_total(s: Seq<Space>, c: int) -> int
    decreases s.len(),
{
    if s.len() == 0 {
        0
    } else {
        left_total(s.drop_last(), c) + left_part(s.last(), c)
    }
}

/// A shorter list of rectangles that do not overlap.
proof fn lemma_apart_rest(s: Seq<Space>)
    requires
        apart(s),
        s.len() > 0,
    ensures
        apart(s.drop_last()),
{
    let rest = s.drop_last();
    assert forall|i: int, j: int| 0 <= i < rest.len() && 0 <= j < rest.len() && i != j implies !(
    #[trigger] rest[i]).overlaps(#[trigger] rest[j]) by {
        assert(rest[i] == s[i] && rest[j] == s[j]);
    }
}

/// A square that lies in none of the rectangles is counted in none.
proof fn lemma_uncovered(s: Seq<Space>, c: int, t: int)
    requires
        forall|j: int| 0 <= j < s.len() ==> !covers(#[trigger] s[j], c, t),
    ensures
        cover_count(s, c, t) == 0,
    decreases s.len(),
{
    if s.len() > 0 {
        let rest = s.drop_last();
        assert forall|j: int| 0 <= j < rest.len() implies !covers(#[trigger] rest[j], c, t) by {
            assert(rest[j] == s[j]);
        }
        lemma_uncovered(rest, c, t);
        assert(s.last() == s[s.len() - 1]);
    }
}

/// No square lies in two rectangles that do not overlap.
proof fn lemma_covered_once(s: Seq<Space>, c: int, t: int)
    requires
        apart(s),
    ensures
        0 <= cover_count(s, c, t) <= 1,
    decreases s.len(),
{
    if s.len() > 0 {
        let rest = s.drop_last();
        let last = s[s.len() - 1];
        lemma_apart_rest(s);
        lemma_covered_once(rest, c, t);
        if covers(last, c, t) {
            assert forall|j: int| 0 <= j < rest.len() implies !covers(#[trigger] rest[j], c, t) by {
                assert(rest[j] == s[j]);
                assert(!s[j].overlaps(s[s.len() - 1]));
            }
            lemma_uncovered(rest, c, t);
        }
    }
}

/// One row further down, a column holds as many more covered squares as the
/// square in that row is counted.
proof fn lemma_column_step(s: Seq<Space>, c: int, t: int)
    ensures
        column_total(s, c, t + 1) == column_total(s, c, t) + cover_count(s, c, t),
    decreases s.len(),
{
    if s.len() > 0 {
        lemma_column_step(s.drop_last(), c, t);
    }
}

/// Above row `t`, a column holds at most `t` squares of rectangles that do
/// not overlap.
proof fn lemma_column_bound(s: Seq<Space>, c: int, t: int)
    requires
        apart(s),
        0 <= t,
    ensures
        0 <= column_total(s, c, t) <= t,
    decreases t, s.len(),
{
    if t == 0 {
        if s.len() > 0 {
            lemma_apart_rest(s);
            lemma_column_bound(s.drop_last(), c, t);
        }
    } else {
        lemma_column_bound(s, c, t - 1);
        lemma_column_step(s, c, t - 1);
        lemma_covered_once(s, c, t - 1);
    }
}

/// One column further right, the rectangles hold as many more squares as
/// they have in that column, where none of them reaches below row `h`.
proof fn lemma_left_step(s: Seq<Space>, c: int, h: int)
    requires
        forall|j: int| 0 <= j < s.len() ==> (#[trigger] s[j]).bottom() <= h,
    ensures
        left_total(s, c + 1) == left_total(s, c) + column_total(s, c, h),
    decreases s.len(),
{
    if s.len() > 0 {
        let rest = s.drop_last();
        let r = s[s.len() - 1];
        assert forall|j: int| 0 <= j < rest.len() implies (#[trigger] rest[j]).bottom() <= h by {
            assert(rest[j] == s[j]);
        }
        lemma_left_step(rest, c, h);
        let a = before(r.x as int, r.w as int, c);
        let b = before(r.x as int, r.w as int, c + 1);
        assert(b * r.h == a * r.h + column_part(r, c, h)) by (nonlinear_arith)
            requires
                b == a + 1 && column_part(r, c, h) == r.h || b == a && column_part(r, c, h) == 0,
        ;
    }
}

/// Left of column `c`, rectangles that do not overlap and do not reach below
/// row `h` hold at most `c` times `h` squares.
proof fn lemma_left_bound(s: Seq<Space>, c: int, h: int)
    requires
        apart(s),
        0 <= c,
        0 <= h,
        forall|j: int| 0 <= j < s.len() ==> (#[trigger] s[j]).bottom() <= h,
    ensures
        0 <= left_total(s, c) <= c * h,
    decreases c, s.len(),
{
    if c == 0 {
        if s.len() > 0 {
            let rest = s.drop_last();
            lemma_apart_rest(s);
            assert forall|j: int| 0 <= j < rest.len() implies (#[trigger] rest[j]).bottom() <= h by {
                assert(rest[j] == s[j]);
            }
            lemma_left_bound(rest, c, h);
        }
    } else {
        lemma_left_bound(s, c - 1, h);
        lemma_left_step(s, c - 1, h);
        lemma_column_bound(s, c - 1, h);
        assert(c * h == (c - 1) * h + h) by (nonlinear_arith);
    }
}

/// Left of a column that none of the rectangles reaches, they hold all their
/// squares.
proof fn lemma_left_all(s: Seq<Space>, w: int)
    requires
        forall|j: int| 0 <= j < s.len() ==> (#[trigger] s[j]).right() <= w,
    ensures
        left_total(s, w) == total_area(s),
    decreases s.len(),
{
    if s.len() > 0 {
        let rest = s.drop_last();
        assert forall|j: int| 0 <= j < rest.len() implies (#[trigger] rest[j]).right() <= w by {
            assert(rest[j] == s[j]);
        }
        lemma_left_all(rest, w);
        assert(s.last() == s[s.len() - 1]);
    }
}

/// Rectangles that do not overlap, inside a rectangle of `w` by `h` at the
/// origin, have no more area together than `w` times `h`.
pub proof fn lemma_area_bound(s: Seq<Space>, w: int, h: int)
    requires
        apart(s),
        0 <= w,
        0 <= h,
        forall|j: int| 0 <= j < s.len() ==> (#[trigger] s[j]).right() <= w && s[j].bottom() <= h,
    ensures
        0 <= total_area(s) <= w * h,
{
    lemma_left_all(s, w);
    lemma_left_bound(s, w, h);
}

} // verus!
