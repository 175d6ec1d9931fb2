//! The free list: the regions of the plane that no item occupies yet, and what
//! becomes of one of them when an item takes its top-left corner.

use vstd::prelude::*;
use crate::space::Space;
use crate::units::{approx_eq, approx_eq_spec};

verus! {

/// The index of the last free space of the list in which a rectangle of `w`
/// by `h` fits; `None` where it fits in none. Spaces join the list at its
/// end, so the search begins with the newest.
pub open spec fn last_fit(free: Seq<Space>, w: int, h: int) -> Option<int>
    decreases free.len(),
{
    if free.len() == 0 {
        None
    } else if free.last().fits(w, h) {
        Some(free.len() - 1)
    } else {
        last_fit(free.drop_last(), w, h)
    }
}

/// `last_fit` names a space in which the rectangle fits and behind which it
/// fits in none; it is `None` only where the rectangle fits nowhere.
pub proof fn lemma_last_fit(free: Seq<Space>, w: int, h: int)
    ensures
        match last_fit(free, w, h) {
            Some(i) => {
                &&& 0 <= i < free.len()
                &&& free[i].fits(w, h)
                &&& forall|j: int| i < j < free.len() ==> !(#[trigger] free[j]).fits(w, h)
            },
            None => forall|j: int| 0 <= j < free.len() ==> !(#[trigger] free[j]).fits(w, h),
        },
    decreases free.len(),
{
    if free.len() > 0 && !free.last().fits(w, h) {
        let rest = free.drop_last();
        lemma_last_fit(rest, w, h);
        assert forall|j: int| 0 <= j < rest.len() implies rest[j] == free[j] by {}
    }
}

/// The only index with the two properties of `lemma_last_fit` is the one
/// that `last_fit` names.
pub proof fn lemma_last_fit_unique(free: Seq<Space>, w: int, h: int, i: int)
    requires
        0 <= i < free.len(),
        free[i].fits(w, h),
        forall|j: int| i < j < free.len() ==> !(#[trigger] free[j]).fits(w, h),
    ensures
        last_fit(free, w, h) == Some(i),
{
    lemma_last_fit(free, w, h);
}

/// The space `s` without a strip of width `w` at its left.
pub open spec fn right_of(s: Space, w: u64) -> Space {
    Space { id: s.id, x: (s.x + w) as u64, y: s.y, w: (s.w - w) as u64, h: s.h }
}

/// The space `s` without a strip of height `h` at its top.
pub open spec fn below(s: Space, h: u64) -> Space {
    Space { id: s.id, x: s.x, y: (s.y + h) as u64, w: s.w, h: (s.h - h) as u64 }
}

/// The part of `s` beside a rectangle of `w` by `h` in its top-left corner:
/// to the right of the rectangle, and as high as the rectangle.
pub open spec fn beside(s: Space, w: u64, h: u64) -> Space {
    Space { id: s.id, x: (s.x + w) as u64, y: s.y, w: (s.w - w) as u64, h: h }
}

/// The list without its entry `i`: the last entry takes its place.
pub open spec fn swap_out(free: Seq<Space>, i: int) -> Seq<Space> {
    free.update(i, free.last()).drop_last()
}

/// The free list after a rectangle of `w` by `h` took the top-left corner of
/// the space at `i`.
///
/// A space of exactly the rectangle's size leaves the list. One as high as the
/// rectangle, within the tolerance, keeps what is right of it; one as wide,
/// within the tolerance, keeps what is below it. Any other space keeps what is
/// below the rectangle at its full width, and the part beside the rectangle
/// joins the list as its newest entry.
pub open spec fn take(free: Seq<Space>, i: int, w: u64, h: u64) -> Seq<Space> {
    let s = free[i];
    if w == s.w && h == s.h {
        swap_out(free, i)
    } else if approx_eq_spec(h as int, s.h as int) {
        free.update(i, right_of(s, w))
    } else if approx_eq_spec(w as int, s.w as int) {
        free.update(i, below(s, h))
    } else {
        free.push(beside(s, w, h)).update(i, below(s, h))
    }
}

/// Looks through the free list from its end to its beginning for a space in
/// which a rectangle of `w` by `h` fits, and returns the index of the first
/// one found.
pub fn find_space(free: &Vec<Space>, w: u64, h: u64) -> (r: Option<usize>)
    ensures
        match r {
            Some(i) => last_fit(free@, w as int, h as int) == Some(i as int),
            None => last_fit(free@, w as int, h as int) is None,
        },
        match r {
            Some(i) => {
                &&& i < free.len()
                &&& free[i as int].fits(w as int, h as int)
                &&& forall|j: int| i < j < free.len() ==> !(#[trigger] free[j]).fits(w as int, h as int)
            },
            None => forall|j: int| 0 <= j < free.len() ==> !(#[trigger] free[j]).fits(w as int, h as int),
        },
{
    let mut i: usize = free.len();
    while i > 0
        invariant
            i <= free.len(),
            forall|j: int| i <= j < free.len() ==> !(#[trigger] free[j]).fits(w as int, h as int),
        decreases i,
    {
        i -= 1;
        let space = free[i];
        if w <= space.w && h <= space.h {
            proof {
                lemma_last_fit_unique(free@, w as int, h as int, i as int);
            }
            return Some(i);
        }
    }
    proof {
        lemma_last_fit(free@, w as int, h as int);
    }
    None
}

/// Puts a rectangle of `w` by `h` into the top-left corner of the free space
/// at `i`, and leaves in the list what remains free of that space.
pub fn take_space(free: &mut Vec<Space>, i: usize, w: u64, h: u64)
    requires
        i < old(free).len(),
        old(free)[i as int].fits(w as int, h as int),
        old(free)[i as int].right() <= u64::MAX,
        old(free)[i as int].bottom() <= u64::MAX,
    ensures
        final(free)@ == take(old(free)@, i as int, w, h),
{
    let space = free[i];
    if w == space.w && h == space.h {
        free.swap_remove(i);
    } else if approx_eq(h, space.h) {
        free[i].x += w;
        free[i].w -= w;
    } else if approx_eq(w, space.w) {
        free[i].y += h;
        free[i].h -= h;
    } else {
        free.push(Space { id: space.id, x: space.x + w, y: space.y, w: space.w - w, h });
        free[i].y += h;
        free[i].h -= h;
    }
}

} // verus!
