use potpack::prelude::{Id, Packing, PotPack, Ratio, SizedItem, Space};
use potpack::units::SCALE;

fn overlap(a: &Space, b: &Space) -> bool {
    a.x < b.x + b.w && b.x < a.x + a.w && a.y < b.y + b.h && b.y < a.y + a.h
}

fn squares(n: u32) -> Vec<SizedItem> {
    let mut boxes = vec![];
    for i in 0..n {
        boxes.push(SizedItem { id: i.into(), w: i * SCALE as u32, h: i * SCALE as u32 });
    }
    boxes
}

fn mixed(n: u32) -> Vec<SizedItem> {
    let mut boxes = vec![];
    for i in 0..n {
        let h = (i % 10) * 10;
        boxes.push(SizedItem { id: i.into(), w: i * SCALE as u32, h: h * SCALE as u32 });
    }
    boxes
}

fn check_packing(items: &[SizedItem], pack: &PotPack) {
    // every item has one place
    assert_eq!(pack.spaces.len(), items.len());
    let mut left: Vec<(Id, u64, u64)> = items.iter().map(|i| (i.id, i.w as u64, i.h as u64)).collect();
    for s in pack.spaces.iter() {
        let at = left.iter().position(|l| *l == (s.id, s.w, s.h));
        assert!(at.is_some());
        left.swap_remove(at.unwrap());
    }
    assert!(left.is_empty());
    // tallest first
    for k in 1..pack.spaces.len() {
        assert!(pack.spaces[k - 1].h >= pack.spaces[k].h);
    }
    // no place reaches beyond the bounding rectangle, which is no larger than needed
    let mut w = 0;
    let mut h = 0;
    for s in pack.spaces.iter() {
        assert!(s.x + s.w <= pack.packing.w);
        assert!(s.y + s.h <= pack.packing.h);
        w = w.max(s.x + s.w);
        h = h.max(s.y + s.h);
    }
    assert_eq!(pack.packing.w, w);
    assert_eq!(pack.packing.h, h);
    // no two places overlap, and none overlaps what stayed free
    for i in 0..pack.spaces.len() {
        for j in 0..i {
            assert!(!overlap(&pack.spaces[i], &pack.spaces[j]));
        }
        for f in pack.free.iter() {
            assert!(!overlap(&pack.spaces[i], f));
        }
    }
    for i in 0..pack.free.len() {
        assert_eq!(pack.free[i].id, Id::Absent);
        for j in 0..i {
            assert!(!overlap(&pack.free[i], &pack.free[j]));
        }
    }
    // the fill is the items' area of the bounding rectangle's
    let area: u128 = items.iter().map(|i| i.w as u128 * i.h as u128).sum();
    let fill = pack.packing.fill;
    assert!(fill.den > 0);
    assert!(fill.num <= fill.den);
    if pack.packing.w as u128 * pack.packing.h as u128 > 0 {
        assert_eq!(fill.num, area);
        assert_eq!(fill.den, pack.packing.w as u128 * pack.packing.h as u128);
    } else {
        assert_eq!(fill, Ratio { num: 0, den: 1 });
    }
    assert_eq!(fill.num > 0, area > 0);
}

#[test]
fn test_packing() {
    let mut boxes = vec![];

    for i in 0..100u32 {
        boxes.push(SizedItem { id: i.into(), w: i * SCALE as u32, h: i * SCALE as u32 });
    }

    let pack = PotPack::new(&boxes);
    assert!(pack.packing.w == 588 * SCALE);
    assert!(pack.packing.h == 595 * SCALE);
    let fill = pack.packing.fill.num as f64 / pack.packing.fill.den as f64;
    assert!(fill > 0.93);
}

#[test]
fn squares_fill_exactly() {
    let pack = PotPack::new(&squares(100));
    // 0 + 1 + 4 + ... + 99 * 99 = 328350 square units
    assert_eq!(pack.packing.fill.num, 328_350 * (SCALE as u128) * (SCALE as u128));
    assert_eq!(pack.packing.fill.den, 588 * 595 * (SCALE as u128) * (SCALE as u128));
}

#[test]
fn squares_hold_the_laws() {
    let items = squares(100);
    let pack = PotPack::new(&items);
    check_packing(&items, &pack);
}

#[test]
fn mixed_boxes_hold_the_laws() {
    let items = mixed(300);
    let pack = PotPack::new(&items);
    check_packing(&items, &pack);
    assert!(pack.packing.fill.num > 0);
}

#[test]
fn empty_input() {
    let pack = PotPack::new(&[]);
    assert_eq!(pack.packing, Packing { w: 0, h: 0, fill: Ratio { num: 0, den: 1 } });
    assert!(pack.spaces.is_empty());
    assert_eq!(pack.free, vec![Space { id: Id::Absent, x: 0, y: 0, w: 0, h: u64::MAX }]);
}

#[test]
fn single_item() {
    let items = [SizedItem { id: Id::Item(7), w: 10 * SCALE as u32, h: 5 * SCALE as u32 }];
    let pack = PotPack::new(&items);
    assert_eq!(pack.packing.w, 10 * SCALE);
    assert_eq!(pack.packing.h, 5 * SCALE);
    assert_eq!(pack.packing.fill.num, pack.packing.fill.den);
    assert_eq!(pack.packing.fill.num as f64 / pack.packing.fill.den as f64, 1.0);
    assert_eq!(pack.spaces, vec![Space { id: Id::Item(7), x: 0, y: 0, w: 10 * SCALE, h: 5 * SCALE }]);
    // the start width is the item's width, so what is left is the strip below it
    assert_eq!(
        pack.free,
        vec![Space { id: Id::Absent, x: 0, y: 5 * SCALE, w: 10 * SCALE, h: u64::MAX - 5 * SCALE }]
    );
}

#[test]
fn same_input_same_packing() {
    let items = mixed(200);
    let a = PotPack::new(&items);
    let b = PotPack::new(&items);
    assert_eq!(a.packing, b.packing);
    assert_eq!(a.spaces, b.spaces);
    assert_eq!(a.free, b.free);
}

#[test]
fn places_come_tallest_first_and_ties_in_given_order() {
    let s = SCALE as u32;
    let items = [
        SizedItem { id: Id::Item(0), w: 2 * s, h: 3 * s },
        SizedItem { id: Id::Item(1), w: 1 * s, h: 5 * s },
        SizedItem { id: Id::Item(2), w: 4 * s, h: 3 * s },
        SizedItem { id: Id::Absent, w: 1 * s, h: 5 * s },
        SizedItem { id: Id::Item(4), w: 3 * s, h: 3 * s },
    ];
    let pack = PotPack::new(&items);
    let ids: Vec<Id> = pack.spaces.iter().map(|s| s.id).collect();
    assert_eq!(ids, vec![Id::Item(1), Id::Absent, Id::Item(0), Id::Item(2), Id::Item(4)]);
    check_packing(&items, &pack);
}

#[test]
fn two_items_side_by_side() {
    let s = SCALE;
    // area 32, so the start width is ceil(sqrt(32 / 0.95)) = 6
    let items = [
        SizedItem { id: Id::Item(0), w: 4 * s as u32, h: 4 * s as u32 },
        SizedItem { id: Id::Item(1), w: 4 * s as u32, h: 4 * s as u32 },
    ];
    let pack = PotPack::new(&items);
    assert_eq!(
        pack.spaces,
        vec![
            Space { id: Id::Item(0), x: 0, y: 0, w: 4 * s, h: 4 * s },
            Space { id: Id::Item(1), x: 0, y: 4 * s, w: 4 * s, h: 4 * s },
        ]
    );
    assert_eq!(pack.packing.w, 4 * s);
    assert_eq!(pack.packing.h, 8 * s);
    assert_eq!(pack.packing.fill, Ratio { num: 32 * (s as u128) * (s as u128), den: 32 * (s as u128) * (s as u128) });
    assert_eq!(
        pack.free,
        vec![
            Space { id: Id::Absent, x: 0, y: 8 * s, w: 6 * s, h: u64::MAX - 8 * s },
            Space { id: Id::Absent, x: 4 * s, y: 0, w: 2 * s, h: 4 * s },
            Space { id: Id::Absent, x: 4 * s, y: 4 * s, w: 2 * s, h: 4 * s },
        ]
    );
}

#[test]
fn zero_sized_items_get_places() {
    let s = SCALE as u32;
    let items = [
        SizedItem { id: Id::Item(0), w: 0, h: 0 },
        SizedItem { id: Id::Item(1), w: 3 * s, h: 0 },
        SizedItem { id: Id::Item(2), w: 0, h: 2 * s },
        SizedItem { id: Id::Item(3), w: 2 * s, h: 2 * s },
    ];
    let pack = PotPack::new(&items);
    check_packing(&items, &pack);
    assert!(pack.packing.fill.num > 0);
}

#[test]
fn items_without_area_fill_nothing() {
    let s = SCALE as u32;
    let items = [SizedItem { id: Id::Item(0), w: 5 * s, h: 0 }, SizedItem { id: Id::Item(1), w: 0, h: 5 * s }];
    let pack = PotPack::new(&items);
    check_packing(&items, &pack);
    assert_eq!(pack.packing.fill.num, 0);
    let all_zero = [SizedItem { id: Id::Item(0), w: 0, h: 0 }; 3];
    let pack = PotPack::new(&all_zero);
    assert_eq!(pack.packing, Packing { w: 0, h: 0, fill: Ratio { num: 0, den: 1 } });
    assert_eq!(pack.spaces.len(), 3);
}

#[test]
fn largest_items_are_packed() {
    let items = [SizedItem { id: Id::Item(0), w: u32::MAX, h: u32::MAX }; 4];
    let pack = PotPack::new(&items);
    check_packing(&items, &pack);
}
