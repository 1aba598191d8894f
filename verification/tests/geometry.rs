//! Geometry primitives: normalization and area.

use ultraface::{bbox_area, partial_max, partial_min, Point, Rect, SCALE};

#[test]
fn scale_is_one_million() {
    assert_eq!(SCALE, 1_000_000);
}

#[test]
fn partial_min_max_pick_the_right_operand() {
    assert_eq!(partial_min(3, 7), 3);
    assert_eq!(partial_min(7, 3), 3);
    assert_eq!(partial_min(5, 5), 5);
    assert_eq!(partial_max(3, 7), 7);
    assert_eq!(partial_max(7, 3), 7);
    assert_eq!(partial_max(5, 5), 5);
}

#[test]
fn new_stores_fields_verbatim() {
    let p = Point::new(12, 34);
    assert_eq!(p.x, 12);
    assert_eq!(p.y, 34);
    let r = Rect::new(1, 2, 3, 4);
    assert_eq!((r.x, r.y, r.width, r.height), (1, 2, 3, 4));
}

#[test]
fn from_points_normalizes_regardless_of_corner_order() {
    let a = Point::new(100_000, 800_000);
    let b = Point::new(600_000, 200_000);
    let expected = Rect::new(100_000, 200_000, 500_000, 600_000);
    assert_eq!(Rect::from_points(a, b), expected);
    assert_eq!(Rect::from_points(b, a), expected);
    let a_swapped = Point::new(600_000, 800_000);
    let b_swapped = Point::new(100_000, 200_000);
    assert_eq!(Rect::from_points(a_swapped, b_swapped), expected);
    assert_eq!(Rect::from_points(b_swapped, a_swapped), expected);
}

#[test]
fn from_points_never_yields_negative_extents() {
    let corners = [
        (Point::new(0, 0), Point::new(0, 0)),
        (Point::new(SCALE, SCALE), Point::new(0, 0)),
        (Point::new(250_000, 750_000), Point::new(750_000, 250_000)),
        (Point::new(SCALE, 0), Point::new(0, SCALE)),
    ];
    for (p1, p2) in corners {
        let r = Rect::from_points(p1, p2);
        assert!(r.width >= 0);
        assert!(r.height >= 0);
    }
}

#[test]
fn from_points_of_equal_corners_is_a_zero_area_box() {
    let p = Point::new(400_000, 400_000);
    let r = Rect::from_points(p, p);
    assert_eq!(r, Rect::new(400_000, 400_000, 0, 0));
    assert_eq!(r.area(), 0);
}

#[test]
fn area_is_the_verbatim_product() {
    let r = Rect::new(0, 0, 2_000, 3_000);
    assert_eq!(r.area(), 6_000_000);
}

#[test]
fn bbox_area_clamps_degenerate_boxes_to_zero() {
    // A negative extent signals a degenerate intersection box: its area is
    // zero, never the positive product of two negatives.
    assert_eq!(bbox_area(&Rect::new(0, 0, -5, 10)), 0);
    assert_eq!(bbox_area(&Rect::new(0, 0, 10, -5)), 0);
    assert_eq!(bbox_area(&Rect::new(0, 0, -5, -5)), 0);
    assert_eq!(bbox_area(&Rect::new(0, 0, 10, 5)), 50);
}
