//! The order in which items are put down: tallest first, and items of one
//! height in the order in which they came.

use vstd::prelude::*;
use vstd::seq_lib::to_multiset_insert;
use crate::boxes::{ids_of, lemma_total_area_insert, total_area};
use crate::space::Space;

verus! {

/// Whether no entry is higher than an entry before it.
pub open spec fn descending(s: Seq<Space>) -> bool {
    forall|i: int, j: int| 0 <= i <= j < s.len() ==> (#[trigger] s[i]).h >= (#[trigger] s[j]).h
}

/// The entries of the list that are `h` high, in their order.
pub open spec fn of_height(s: Seq<Space>, h: u64) -> Seq<Space> {
    s.filter(|b: Space| b.h == h)
}

/// The place of a new entry of height `h` in a list ordered by height:
/// behind every entry that is at least as high.
pub open spec fn slot(sorted: Seq<Space>, h: u64) -> int
    decreases sorted.len(),
{
    if sorted.len() == 0 || sorted.last().h >= h {
        sorted.len() as int
    } else {
        slot(sorted.drop_last(), h)
    }
}

/// The list ordered by height, tallest first. Entries of one height keep
/// their order.
pub open spec fn sorted_by_height(s: Seq<Space>) -> Seq<Space>
    decreases s.len(),
{
    if s.len() == 0 {
        Seq::empty()
    } else {
        let t = sorted_by_height(s.drop_last());
        t.insert(slot(t, s.last().h), s.last())
    }
}

/// `slot` is the one place that has only lower entries from it on and an
/// entry at least as high just before it.
pub proof fn lemma_slot(sorted: Seq<Space>, h: u64, p: int)
    requires
        0 <= p <= sorted.len(),
        forall|j: int| p <= j < sorted.len() ==> (#[trigger] sorted[j]).h < h,
        p > 0 ==> sorted[p - 1].h >= h,
    ensures
        slot(sorted, h) == p,
    decreases sorted.len(),
{
    if p < sorted.len() {
        assert(sorted.last() == sorted[sorted.len() - 1]);
        lemma_slot(sorted.drop_last(), h, p);
    }
}

/// What `slot` returns lies in the list or at its end, with only lower
/// entries from it on and, in an ordered list, none lower before it.
pub proof fn lemma_slot_splits(sorted: Seq<Space>, h: u64)
    ensures
        0 <= slot(sorted, h) <= sorted.len(),
        forall|j: int| slot(sorted, h) <= j < sorted.len() ==> (#[trigger] sorted[j]).h < h,
        descending(sorted) ==> forall|j: int| 0 <= j < slot(sorted, h) ==> (#[trigger] sorted[j]).h >= h,
    decreases sorted.len(),
{
    if sorted.len() > 0 && sorted.last().h < h {
        let rest = sorted.drop_last();
        lemma_slot_splits(rest, h);
        assert forall|j: int| 0 <= j < rest.len() implies rest[j] == sorted[j] by {}
        if descending(sorted) {
            assert(descending(rest));
        }
    } else if sorted.len() > 0 && descending(sorted) {
        assert forall|j: int| 0 <= j < sorted.len() implies (#[trigger] sorted[j]).h >= h by {
            assert(sorted[j].h >= sorted[sorted.len() - 1].h);
        }
    }
}

/// The ordered list has the entries of the list it was made from, each as
/// often, and no entry of it is higher than one before it.
pub proof fn lemma_sorted_by_height(s: Seq<Space>)
    ensures
        sorted_by_height(s).len() == s.len(),
        sorted_by_height(s).to_multiset() == s.to_multiset(),
        descending(sorted_by_height(s)),
    decreases s.len(),
{
    if s.len() == 0 {
        assert(sorted_by_height(s) =~= s);
    } else {
        let rest = s.drop_last();
        let b = s.last();
        let t = sorted_by_height(rest);
        let p = slot(t, b.h);
        let out = t.insert(p, b);
        lemma_sorted_by_height(rest);
        lemma_slot_splits(t, b.h);
        to_multiset_insert(t, p, b);
        assert(s =~= rest.push(b));
        rest.to_multiset_ensures();
        assert forall|i: int, j: int| 0 <= i <= j < out.len() implies (#[trigger] out[i]).h >= (
        #[trigger] out[j]).h by {
            if i < p && j > p {
                assert(out[i] == t[i] && out[j] == t[j - 1]);
            } else if i > p {
                assert(out[i] == t[i - 1] && out[j] == t[j - 1]);
            }
        }
    }
}

/// A box that joins a list before only lower boxes comes last among the
/// boxes of its height, and leaves the boxes of every other height as they
/// were.
proof fn lemma_of_height_insert(t: Seq<Space>, p: int, b: Space, h: u64)
    requires
        0 <= p <= t.len(),
        forall|j: int| p <= j < t.len() ==> (#[trigger] t[j]).h < b.h,
    ensures
        of_height(t.insert(p, b), h) == if b.h == h {
            of_height(t, h).push(b)
        } else {
            of_height(t, h)
        },
{
    let pred = |x: Space| x.h == h;
    let front = t.subrange(0, p);
    let back = t.subrange(p, t.len() as int);
    assert(t =~= front + back);
    assert(t.insert(p, b) =~= front.push(b) + back);
    Seq::filter_distributes_over_add(front, back, pred);
    Seq::filter_distributes_over_add(front.push(b), back, pred);
    front.lemma_filter_push(b, pred);
    if b.h == h {
        assert(back.all(|x: Space| !pred(x))) by {
            assert forall|j: int| 0 <= j < back.len() implies !pred(#[trigger] back[j]) by {
                assert(back[j] == t[p + j]);
            }
        }
        back.lemma_all_neg_filter_empty(pred);
        assert(front.filter(pred) + back.filter(pred) =~= front.filter(pred));
        assert(front.filter(pred).push(b) + back.filter(pred) =~= front.filter(pred).push(b));
    }
}

/// Ordering is stable: the boxes of any one height come in the order in
/// which they came before.
pub proof fn lemma_sorted_stable(s: Seq<Space>, h: u64)
    ensures
        of_height(sorted_by_height(s), h) == of_height(s, h),
    decreases s.len(),
{
    let pred = |x: Space| x.h == h;
    if s.len() == 0 {
        assert(sorted_by_height(s) =~= s);
    } else {
        let rest = s.drop_last();
        let b = s.last();
        let t = sorted_by_height(rest);
        lemma_sorted_stable(rest, h);
        lemma_slot_splits(t, b.h);
        lemma_of_height_insert(t, slot(t, b.h), b, h);
        assert(s =~= rest.push(b));
        rest.lemma_filter_push(b, pred);
    }
}

/// The boxes of one height in a list are those in the list without its last
/// box, and that box behind them where it is of the height.
proof fn lemma_of_height_last(s: Seq<Space>, h: u64)
    requires
        s.len() > 0,
    ensures
        of_height(s, h) == if s.last().h == h {
            of_height(s.drop_last(), h).push(s.last())
        } else {
            of_height(s.drop_last(), h)
        },
{
    assert(s =~= s.drop_last().push(s.last()));
    s.drop_last().lemma_filter_push(s.last(), |b: Space| b.h == h);
}

/// Where a list has boxes of a height, one of its entries is of that height.
proof fn lemma_of_height_found(s: Seq<Space>, h: u64)
    requires
        of_height(s, h).len() > 0,
    ensures
        exists|i: int| 0 <= i < s.len() && (#[trigger] s[i]).h == h,
    decreases s.len(),
{
    s.lemma_filter_len(|b: Space| b.h == h);
    lemma_of_height_last(s, h);
    if s.last().h == h {
        assert(s[s.len() - 1].h == h);
    } else {
        lemma_of_height_found(s.drop_last(), h);
        let i = choose|i: int| 0 <= i < s.drop_last().len() && (#[trigger] s.drop_last()[i]).h == h;
        assert(s[i].h == h);
    }
}

/// Two lists, each ordered by height, that hold the same boxes of every
/// height in the same order are one list.
pub proof fn lemma_descending_unique(a: Seq<Space>, b: Seq<Space>)
    requires
        descending(a),
        descending(b),
        forall|h: u64| #[trigger] of_height(a, h) == of_height(b, h),
    ensures
        a == b,
    decreases a.len(),
{
    if a.len() == 0 {
        if b.len() > 0 {
            let n = b.last().h;
            lemma_of_height_last(b, n);
            a.lemma_filter_len(|x: Space| x.h == n);
            assert(of_height(a, n).len() == 0);
            assert(of_height(b, n).len() > 0);
        }
        assert(a =~= b);
    } else {
        let m = a.last().h;
        lemma_of_height_last(a, m);
        a.lemma_filter_len(|x: Space| x.h == m);
        b.lemma_filter_len(|x: Space| x.h == m);
        assert(of_height(b, m).len() > 0);
        assert(b.len() > 0);
        let n = b.last().h;
        lemma_of_height_last(b, n);
        assert(of_height(a, n).len() > 0);
        lemma_of_height_found(a, n);
        lemma_of_height_found(b, m);
        assert(m == n) by {
            let i = choose|i: int| 0 <= i < a.len() && (#[trigger] a[i]).h == n;
            assert(a[i].h >= a[a.len() - 1].h);
            let j = choose|j: int| 0 <= j < b.len() && (#[trigger] b[j]).h == m;
            assert(b[j].h >= b[b.len() - 1].h);
        }
        let ra = a.drop_last();
        let rb = b.drop_last();
        lemma_of_height_last(b, m);
        assert(of_height(ra, m).push(a.last()) == of_height(rb, m).push(b.last()));
        assert(a.last() == b.last()) by {
            assert(of_height(ra, m).push(a.last()).last() == a.last());
            assert(of_height(rb, m).push(b.last()).last() == b.last());
        }
        assert forall|h: u64| #[trigger] of_height(ra, h) == of_height(rb, h) by {
            lemma_of_height_last(a, h);
            lemma_of_height_last(b, h);
            if h == m {
                assert(of_height(ra, m).push(a.last()).drop_last() =~= of_height(ra, m));
                assert(of_height(rb, m).push(b.last()).drop_last() =~= of_height(rb, m));
            }
        }
        assert(descending(ra)) by {
            assert forall|i: int, j: int| 0 <= i <= j < ra.len() implies (#[trigger] ra[i]).h >= (
            #[trigger] ra[j]).h by {
                assert(ra[i] == a[i] && ra[j] == a[j]);
            }
        }
        assert(descending(rb)) by {
            assert forall|i: int, j: int| 0 <= i <= j < rb.len() implies (#[trigger] rb[i]).h >= (
            #[trigger] rb[j]).h by {
                assert(rb[i] == b[i] && rb[j] == b[j]);
            }
        }
        lemma_descending_unique(ra, rb);
        assert(a =~= ra.push(a.last()));
        assert(b =~= rb.push(b.last()));
    }
}

/// A list that is ordered by height, and holds the boxes of every height as
/// `s` has them, is `s` ordered by height.
pub proof fn lemma_sorted_unique(s: Seq<Space>, out: Seq<Space>)
    requires
        descending(out),
        forall|h: u64| #[trigger] of_height(out, h) == of_height(s, h),
    ensures
        out == sorted_by_height(s),
{
    lemma_sorted_by_height(s);
    assert forall|h: u64| #[trigger] of_height(out, h) == of_height(sorted_by_height(s), h) by {
        lemma_sorted_stable(s, h);
    }
    lemma_descending_unique(out, sorted_by_height(s));
}

/// The ordered list has the names of the list it was made from, each as
/// often.
pub proof fn lemma_sorted_ids(s: Seq<Space>)
    ensures
        ids_of(sorted_by_height(s)).to_multiset() == ids_of(s).to_multiset(),
    decreases s.len(),
{
    if s.len() == 0 {
        assert(sorted_by_height(s) =~= s);
    } else {
        let rest = s.drop_last();
        let b = s.last();
        let t = sorted_by_height(rest);
        let p = slot(t, b.h);
        lemma_sorted_ids(rest);
        lemma_slot_splits(t, b.h);
        assert(ids_of(t.insert(p, b)) =~= ids_of(t).insert(p, b.id));
        to_multiset_insert(ids_of(t), p, b.id);
        assert(ids_of(s) =~= ids_of(rest).push(b.id));
        ids_of(rest).to_multiset_ensures();
    }
}

/// Ordering the boxes leaves their total area as it is.
pub proof fn lemma_sorted_total_area(s: Seq<Space>)
    ensures
        total_area(sorted_by_height(s)) == total_area(s),
    decreases s.len(),
{
    if s.len() > 0 {
        let t = sorted_by_height(s.drop_last());
        lemma_sorted_total_area(s.drop_last());
        lemma_slot_splits(t, s.last().h);
        lemma_total_area_insert(t, slot(t, s.last().h), s.last());
    }
}

/// Orders the boxes by height, tallest first; boxes of one height keep
/// their order.
pub fn sort_by_height(boxes: &mut Vec<Space>)
    ensures
        final(boxes)@ == sorted_by_height(old(boxes)@),
        final(boxes)@.len() == old(boxes)@.len(),
        final(boxes)@.to_multiset() == old(boxes)@.to_multiset(),
        descending(final(boxes)@),
        forall|h: u64| #[trigger] of_height(final(boxes)@, h) == of_height(old(boxes)@, h),
{
    let mut out: Vec<Space> = Vec::with_capacity(boxes.len());
    let mut k: usize = 0;
    while k < boxes.len()
        invariant
            k <= boxes.len(),
            boxes@ == old(boxes)@,
            out@ == sorted_by_height(boxes@.take(k as int)),
            out@.len() == k,
        decreases boxes.len() - k,
    {
        let b = boxes[k];
        let mut p: usize = out.len();
        while p > 0 && out[p - 1].h < b.h
            invariant
                p <= out.len(),
                forall|j: int| p <= j < out.len() ==> (#[trigger] out[j]).h < b.h,
            decreases p,
        {
            p -= 1;
        }
        proof {
            lemma_slot(out@, b.h, p as int);
            assert(boxes@.take(k + 1).drop_last() =~= boxes@.take(k as int));
            assert(boxes@.take(k + 1).last() == b);
        }
        out.insert(p, b);
        k += 1;
    }
    proof {
        assert(boxes@.take(k as int) =~= boxes@);
        lemma_sorted_by_height(boxes@);
        assert forall|h: u64| of_height(out@, h) == of_height(boxes@, h) by {
            lemma_sorted_stable(boxes@, h);
        }
    }
    *boxes = out;
}

} // verus!
