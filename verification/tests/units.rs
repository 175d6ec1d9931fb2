use potpack::boxes::{make_boxes, measure};
use potpack::space::{Id, SizedItem, Space};
use potpack::start::{compute_start_side, compute_start_width, AREA_LIMIT};
use potpack::units::{approx_eq, SCALE, TOLERANCE};

#[test]
fn test_approx_eq() {
    // 1.00005 and 1.00006
    let a = 100_005;
    let b = 100_006;
    assert!(approx_eq(a, b));
}

#[test]
fn approx_eq_of_a_length_and_itself() {
    for x in [0, 1, 9, 10, SCALE, u64::MAX] {
        assert!(approx_eq(x, x));
    }
}

#[test]
fn approx_eq_rejects_a_tenth() {
    // 1.0 and 1.1
    assert!(!approx_eq(SCALE, SCALE + SCALE / 10));
    assert!(!approx_eq(SCALE + SCALE / 10, SCALE));
}

#[test]
fn approx_eq_at_the_tolerance() {
    assert!(approx_eq(500, 500 + TOLERANCE - 1));
    assert!(approx_eq(500 + TOLERANCE - 1, 500));
    assert!(!approx_eq(500, 500 + TOLERANCE));
    assert!(!approx_eq(500 + TOLERANCE, 500));
    assert!(!approx_eq(0, u64::MAX));
}

#[test]
fn id_from_number() {
    assert_eq!(Id::from(5), Id::Item(5));
    let id: Id = 0.into();
    assert_eq!(id, Id::Item(0));
    assert_ne!(id, Id::Absent);
}

#[test]
fn space_from_item() {
    let item = SizedItem { id: Id::Item(3), w: 40, h: 50 };
    assert_eq!(Space::from(&item), Space { id: Id::Item(3), x: 0, y: 0, w: 40, h: 50 });
}

#[test]
fn space_area() {
    assert_eq!(Space { id: Id::Absent, x: 7, y: 9, w: 40, h: 50 }.area(), 2000);
    assert_eq!(Space { id: Id::Absent, x: 7, y: 9, w: 40, h: 0 }.area(), 0);
    assert_eq!(
        Space { id: Id::Absent, x: 0, y: 0, w: u64::MAX, h: u64::MAX }.area(),
        u64::MAX as u128 * u64::MAX as u128
    );
}

#[test]
fn boxes_and_their_measure() {
    let items = [
        SizedItem { id: Id::Item(0), w: 3, h: 4 },
        SizedItem { id: Id::Item(1), w: 10, h: 2 },
        SizedItem { id: Id::Item(2), w: 5, h: 5 },
    ];
    let boxes = make_boxes(&items);
    assert_eq!(
        boxes,
        vec![
            Space { id: Id::Item(0), x: 0, y: 0, w: 3, h: 4 },
            Space { id: Id::Item(1), x: 0, y: 0, w: 10, h: 2 },
            Space { id: Id::Item(2), x: 0, y: 0, w: 5, h: 5 },
        ]
    );
    assert_eq!(measure(&boxes), (57, 10));
    assert_eq!(measure(&vec![]), (0, 0));
}

#[test]
fn start_side_is_the_rounded_up_root() {
    let unit = (SCALE as u128) * (SCALE as u128);
    assert_eq!(compute_start_side(0), 0);
    assert_eq!(compute_start_side(1), SCALE);
    // sqrt(50 / 0.95) = 7.25..
    assert_eq!(compute_start_side(50 * unit), 8 * SCALE);
    // sqrt(328350 / 0.95) = 587.9..
    assert_eq!(compute_start_side(328_350 * unit), 588 * SCALE);
    // 0.95 * 20 * 20 = 380
    assert_eq!(compute_start_side(380 * unit), 20 * SCALE);
    assert_eq!(compute_start_side(380 * unit + 1), 21 * SCALE);
    // sqrt(2^96 / 0.95) = 2_887_872_327.58.. units
    assert_eq!(compute_start_side(AREA_LIMIT), 2_887_872_328 * SCALE);
}

#[test]
fn start_width_is_at_least_the_widest() {
    let unit = (SCALE as u128) * (SCALE as u128);
    assert_eq!(compute_start_width(50 * unit, 10 * SCALE), 10 * SCALE);
    assert_eq!(compute_start_width(50 * unit, 3 * SCALE), 8 * SCALE);
    assert_eq!(compute_start_width(50 * unit, 8 * SCALE + 1), 8 * SCALE + 1);
    assert_eq!(compute_start_width(0, 0), 0);
}
