//! The intersection-over-union metric as an exact rational.

use ultraface::{iou, iou_exceeds_threshold, Rect, EPS_AREA, SCALE};

#[test]
fn iou_is_symmetric() {
    let a = Rect::new(0, 0, 500_000, 500_000);
    let b = Rect::new(250_000, 250_000, 500_000, 500_000);
    assert_eq!(iou(&a, &b), iou(&b, &a));
    let c = Rect::new(900_000, 0, 100_000, 100_000);
    assert_eq!(iou(&a, &c), iou(&c, &a));
}

#[test]
fn iou_of_a_box_with_itself_is_one_up_to_epsilon() {
    let a = Rect::new(100_000, 200_000, 300_000, 400_000);
    let area = 300_000i64 * 400_000;
    let (num, den) = iou(&a, &a);
    assert_eq!(num, area);
    assert_eq!(den, area + EPS_AREA);
    // The quotient differs from 1 by exactly EPS_AREA / (area + EPS_AREA).
    assert_eq!(den - num, EPS_AREA);
}

#[test]
fn iou_of_disjoint_boxes_is_zero() {
    let a = Rect::new(0, 0, 200_000, 200_000);
    let b = Rect::new(500_000, 500_000, 200_000, 200_000);
    assert_eq!(iou(&a, &b).0, 0);
    // Boxes that merely touch along an edge share no area either.
    let c = Rect::new(200_000, 0, 200_000, 200_000);
    assert_eq!(iou(&a, &c).0, 0);
}

#[test]
fn iou_of_overlapping_quadrants_has_the_exact_expected_value() {
    // [0, 0.5]^2 against [0.4, 1.0]^2: the overlap is the square
    // [0.4, 0.5]^2 with area 0.01; the union area is 0.25 + 0.36 - 0.01.
    let a = Rect::new(0, 0, 500_000, 500_000);
    let b = Rect::new(400_000, 400_000, 600_000, 600_000);
    let (num, den) = iou(&a, &b);
    assert_eq!(num, 10_000_000_000);
    assert_eq!(den, 250_000_000_000 + 360_000_000_000 - 10_000_000_000 + EPS_AREA);
}

#[test]
fn degenerate_boxes_yield_zero_over_epsilon() {
    let a = Rect::new(300_000, 300_000, 0, 0);
    let (num, den) = iou(&a, &a);
    assert_eq!(num, 0);
    assert_eq!(den, EPS_AREA);
}

#[test]
fn threshold_comparison_is_strict() {
    // Two half-frame boxes that overlap in their shared half: IoU is
    // exactly 1/3 of the union before the epsilon term.
    let a = Rect::new(0, 0, SCALE, 500_000);
    let b = Rect::new(0, 250_000, SCALE, 500_000);
    let (num, den) = iou(&a, &b);
    assert_eq!(num, 250_000_000_000);
    assert_eq!(den, 750_000_000_000 + EPS_AREA);
    // num/den is just below 1/3: a threshold of one third is not exceeded,
    // one fixed-point step less is.
    assert!(!iou_exceeds_threshold(&a, &b, 333_334));
    assert!(iou_exceeds_threshold(&a, &b, 333_332));
}
