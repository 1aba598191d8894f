//! Intersection-over-union of two axis-aligned boxes, as an exact rational.
//!
//! On the integer grid the metric needs no floating point: the overlap box of
//! two well-formed boxes has integer extents (negative exactly when the boxes
//! are disjoint on that axis), its clamped area is an integer, and the IoU is
//! the exact rational `overlap / (area_a + area_b - overlap + EPS_AREA)`. The
//! additive [`EPS_AREA`] plays the role of the classical epsilon term: it
//! keeps the denominator positive when both boxes are degenerate, and it is
//! one smallest representable area, so it never moves the quotient by more
//! than that epsilon-scale amount.

use vstd::math::{max, min};
use vstd::prelude::*;

use crate::geometry::{partial_max, partial_min, Rect, SCALE};

verus! {

/// Smallest positive area on the grid, added to the IoU denominator to guard
/// the division when both boxes have zero area.
pub const EPS_AREA: i64 = 1;

/// Right edge of a box.
pub open spec fn right(r: Rect) -> int {
    r.x + r.width
}

/// Bottom edge of a box.
pub open spec fn bottom(r: Rect) -> int {
    r.y + r.height
}

/// Extent of the overlap of `a` and `b` along the x axis; negative exactly
/// when the boxes do not meet on that axis.
pub open spec fn overlap_width(a: Rect, b: Rect) -> int {
    min(right(a), right(b)) - max(a.x as int, b.x as int)
}

/// Extent of the overlap of `a` and `b` along the y axis; negative exactly
/// when the boxes do not meet on that axis.
pub open spec fn overlap_height(a: Rect, b: Rect) -> int {
    min(bottom(a), bottom(b)) - max(a.y as int, b.y as int)
}

/// Area of a possibly-degenerate box: zero when either extent is negative
/// (never the positive product of two negatives), the plain product
/// otherwise.
pub open spec fn clamped_area(r: Rect) -> int {
    if r.width < 0 || r.height < 0 {
        0
    } else {
        r.width * r.height
    }
}

/// Area of the overlap box of `a` and `b`: zero when they are disjoint on
/// either axis.
pub open spec fn overlap_area(a: Rect, b: Rect) -> int {
    if overlap_width(a, b) < 0 || overlap_height(a, b) < 0 {
        0
    } else {
        overlap_width(a, b) * overlap_height(a, b)
    }
}

/// Numerator of the exact IoU rational.
pub open spec fn iou_num(a: Rect, b: Rect) -> int {
    overlap_area(a, b)
}

/// Denominator of the exact IoU rational: the area of the union, plus
/// [`EPS_AREA`] against division by zero.
pub open spec fn iou_den(a: Rect, b: Rect) -> int {
    a.spec_area() + b.spec_area() - overlap_area(a, b) + EPS_AREA
}

/// `IoU(a, b) > max_iou / SCALE`, stated by cross-multiplication so that it
/// is exact: no quotient is ever rounded.
pub open spec fn iou_exceeds(a: Rect, b: Rect, max_iou: i64) -> bool {
    iou_num(a, b) * SCALE > max_iou * iou_den(a, b)
}

/// The boxes share no coordinate overlap on at least one axis.
pub open spec fn disjoint(a: Rect, b: Rect) -> bool {
    right(a) <= b.x || right(b) <= a.x || bottom(a) <= b.y || bottom(b) <= a.y
}

/// The overlap area is nonnegative and no larger than either box's own area,
/// so the IoU denominator is at least [`EPS_AREA`].
pub proof fn lemma_overlap_area_bounds(a: Rect, b: Rect)
    requires
        a.wf(),
        b.wf(),
    ensures
        0 <= overlap_area(a, b),
        overlap_area(a, b) <= a.spec_area(),
        overlap_area(a, b) <= b.spec_area(),
        iou_den(a, b) >= EPS_AREA,
{
    if overlap_width(a, b) < 0 || overlap_height(a, b) < 0 {
        assert(0 <= a.spec_area() && 0 <= b.spec_area()) by (nonlinear_arith)
            requires
                0 <= a.width,
                0 <= a.height,
                0 <= b.width,
                0 <= b.height;
    } else {
        let w = overlap_width(a, b);
        let h = overlap_height(a, b);
        assert(w <= a.width && h <= a.height && w <= b.width && h <= b.height);
        assert(0 <= w * h && w * h <= a.width * a.height && w * h <= b.width * b.height)
            by (nonlinear_arith)
            requires
                0 <= w <= a.width,
                0 <= h <= a.height,
                w <= b.width,
                h <= b.height,
                0 <= b.width,
                0 <= b.height;
    }
}

/// For well-formed boxes both sides of the IoU rational stay far inside the
/// `i64` range, as do the cross-multiplied comparison terms.
pub proof fn lemma_iou_in_range(a: Rect, b: Rect)
    requires
        a.wf(),
        b.wf(),
    ensures
        0 <= iou_num(a, b) <= SCALE * SCALE,
        EPS_AREA <= iou_den(a, b) <= 2 * (SCALE * SCALE) + EPS_AREA,
        iou_num(a, b) <= iou_den(a, b),
{
    lemma_overlap_area_bounds(a, b);
    assert(a.spec_area() <= SCALE * SCALE && b.spec_area() <= SCALE * SCALE)
        by (nonlinear_arith)
        requires
            0 <= a.width <= SCALE,
            0 <= a.height <= SCALE,
            0 <= b.width <= SCALE,
            0 <= b.height <= SCALE;
}

/// IoU is symmetric: numerator, denominator and every threshold comparison
/// agree between `(a, b)` and `(b, a)`.
pub proof fn lemma_iou_symmetric(a: Rect, b: Rect)
    ensures
        iou_num(a, b) == iou_num(b, a),
        iou_den(a, b) == iou_den(b, a),
        forall|max_iou: i64| iou_exceeds(a, b, max_iou) == iou_exceeds(b, a, max_iou),
{
}

/// A well-formed box overlaps itself entirely: the IoU rational of a box
/// with itself is `area / (area + EPS_AREA)`, i.e. `1` up to epsilon scale.
pub proof fn lemma_iou_self(a: Rect)
    requires
        a.wf(),
    ensures
        iou_num(a, a) == a.spec_area(),
        iou_den(a, a) == a.spec_area() + EPS_AREA,
{
}

/// Disjoint boxes have IoU zero: the numerator vanishes.
pub proof fn lemma_iou_disjoint(a: Rect, b: Rect)
    requires
        disjoint(a, b),
    ensures
        iou_num(a, b) == 0,
{
    if overlap_width(a, b) >= 0 && overlap_height(a, b) >= 0 {
        assert(overlap_width(a, b) == 0 || overlap_height(a, b) == 0);
        assert(overlap_width(a, b) * overlap_height(a, b) == 0) by (nonlinear_arith)
            requires
                overlap_width(a, b) == 0 || overlap_height(a, b) == 0;
    }
}

/// Area of a possibly-degenerate box, clamped to zero when an extent is
/// negative (the degeneracy signal of an intersection of disjoint boxes).
pub fn bbox_area(bbox: &Rect) -> (a: i64)
    requires
        bbox.extents_bounded(),
    ensures
        a == clamped_area(*bbox),
{
    if bbox.width < 0 || bbox.height < 0 {
        return 0;
    }
    bbox.area()
}

/// The exact IoU rational of two well-formed boxes, as a
/// `(numerator, denominator)` pair: the overlap area over the union area
/// plus [`EPS_AREA`]. The quotient is `0` for disjoint or degenerate inputs
/// and within epsilon scale of `1` for identical boxes.
pub fn iou(bbox_a: &Rect, bbox_b: &Rect) -> (r: (i64, i64))
    requires
        bbox_a.wf(),
        bbox_b.wf(),
    ensures
        r.0 == iou_num(*bbox_a, *bbox_b),
        r.1 == iou_den(*bbox_a, *bbox_b),
        0 <= r.0 <= r.1,
        r.1 >= EPS_AREA,
{
    proof {
        lemma_iou_in_range(*bbox_a, *bbox_b);
    }
    // Corner points of the overlap box. If the boxes do not overlap on an
    // axis, the corresponding extent comes out negative on purpose: it is the
    // degeneracy signal that bbox_area turns into area zero.
    let overlap_box = Rect::new(
        partial_max(bbox_a.x, bbox_b.x),
        partial_max(bbox_a.y, bbox_b.y),
        partial_min(bbox_a.x + bbox_a.width, bbox_b.x + bbox_b.width)
            - partial_max(bbox_a.x, bbox_b.x),
        partial_min(bbox_a.y + bbox_a.height, bbox_b.y + bbox_b.height)
            - partial_max(bbox_a.y, bbox_b.y),
    );
    let overlap = bbox_area(&overlap_box);
    let denominator = bbox_area(bbox_a) + bbox_area(bbox_b) - overlap + EPS_AREA;
    (overlap, denominator)
}

/// Whether the IoU of two well-formed boxes exceeds the threshold
/// `max_iou / SCALE`, decided exactly by cross-multiplication.
pub fn iou_exceeds_threshold(bbox_a: &Rect, bbox_b: &Rect, max_iou: i64) -> (r: bool)
    requires
        bbox_a.wf(),
        bbox_b.wf(),
        0 <= max_iou <= SCALE,
    ensures
        r == iou_exceeds(*bbox_a, *bbox_b, max_iou),
{
    let (num, den) = iou(bbox_a, bbox_b);
    proof {
        lemma_iou_in_range(*bbox_a, *bbox_b);
        assert(num * SCALE <= SCALE * SCALE * SCALE && max_iou * den <= SCALE * (2 * (SCALE
            * SCALE) + EPS_AREA)) by (nonlinear_arith)
            requires
                0 <= num <= SCALE * SCALE,
                0 <= max_iou <= SCALE,
                EPS_AREA <= den <= 2 * (SCALE * SCALE) + EPS_AREA;
        assert(0 <= num * SCALE && 0 <= max_iou * den) by (nonlinear_arith)
            requires
                0 <= num,
                0 <= max_iou,
                0 <= den;
    }
    num * SCALE > max_iou * den
}

} // verus!
