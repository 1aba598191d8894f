//! Geometry primitives: points and axis-aligned rectangles on the
//! fixed-point coordinate grid.

use vstd::prelude::*;

verus! {

/// Number of fixed-point units in one full frame extent: a coordinate `c`
/// models the relative coordinate `c / SCALE`, so the whole frame is the
/// square `[0, SCALE] x [0, SCALE]`.
pub const SCALE: i64 = 1_000_000;

/// A point `(x, y)` on the fixed-point grid.
#[derive(Debug, Clone, Copy, PartialEq, Eq, Structural)]
pub struct Point {
    pub x: i64,
    pub y: i64,
}

/// An axis-aligned box anchored at `(x, y)`. A well-formed box has
/// nonnegative extents; a negative `width` or `height` denotes a
/// degenerate/empty box (it arises when two disjoint boxes are intersected)
/// and must be treated as area zero, never as a negative-area box.
#[derive(Debug, Clone, Copy, PartialEq, Eq, Structural)]
pub struct Rect {
    pub x: i64,
    pub y: i64,
    pub width: i64,
    pub height: i64,
}

impl Point {
    /// Both coordinates lie on the frame, i.e. model values in `[0, 1]`.
    pub open spec fn wf(self) -> bool {
        &&& 0 <= self.x <= SCALE
        &&& 0 <= self.y <= SCALE
    }

    pub fn new(x: i64, y: i64) -> (p: Point)
        ensures
            p == (Point { x, y }),
    {
        Point { x, y }
    }
}

/// The smaller of two coordinates.
pub fn partial_min(a: i64, b: i64) -> (r: i64)
    ensures
        r == vstd::math::min(a as int, b as int),
{
    if a <= b {
        a
    } else {
        b
    }
}

/// The larger of two coordinates.
pub fn partial_max(a: i64, b: i64) -> (r: i64)
    ensures
        r == vstd::math::max(a as int, b as int),
{
    if b >= a {
        b
    } else {
        a
    }
}

/// The normalized rectangle covering two arbitrary corner points:
/// the anchor is the componentwise minimum and the extents are the
/// componentwise differences, so the extents are never negative.
pub open spec fn spec_from_points(pt1: Point, pt2: Point) -> Rect {
    Rect {
        x: vstd::math::min(pt1.x as int, pt2.x as int) as i64,
        y: vstd::math::min(pt1.y as int, pt2.y as int) as i64,
        width: (vstd::math::max(pt1.x as int, pt2.x as int) - vstd::math::min(
            pt1.x as int,
            pt2.x as int,
        )) as i64,
        height: (vstd::math::max(pt1.y as int, pt2.y as int) - vstd::math::min(
            pt1.y as int,
            pt2.y as int,
        )) as i64,
    }
}

impl Rect {
    /// The box lies on the frame with nonnegative extents: it models a real
    /// (possibly empty) region of the relative coordinate square `[0, 1]^2`.
    pub open spec fn wf(self) -> bool {
        &&& 0 <= self.x
        &&& 0 <= self.y
        &&& 0 <= self.width
        &&& 0 <= self.height
        &&& self.x + self.width <= SCALE
        &&& self.y + self.height <= SCALE
    }

    /// Extents small enough that their product cannot overflow; holds of
    /// every well-formed box and of every intersection of two such boxes,
    /// degenerate or not.
    pub open spec fn extents_bounded(self) -> bool {
        &&& -SCALE <= self.width <= SCALE
        &&& -SCALE <= self.height <= SCALE
    }

    /// `width * height`, taken verbatim: meaningful as an area only for
    /// well-formed boxes.
    pub open spec fn spec_area(self) -> int {
        self.width * self.height
    }

    pub fn new(x: i64, y: i64, width: i64, height: i64) -> (r: Rect)
        ensures
            r == (Rect { x, y, width, height }),
    {
        Rect { x, y, width, height }
    }

    /// Build the normalized rectangle covering the two corner points `pt1`
    /// and `pt2`, in either order. The result never has negative extents.
    pub fn from_points(pt1: Point, pt2: Point) -> (r: Rect)
        requires
            pt1.wf(),
            pt2.wf(),
        ensures
            r == spec_from_points(pt1, pt2),
            r.width >= 0,
            r.height >= 0,
            r.wf(),
    {
        let x = partial_min(pt1.x, pt2.x);
        let y = partial_min(pt1.y, pt2.y);
        Rect::new(x, y, partial_max(pt1.x, pt2.x) - x, partial_max(pt1.y, pt2.y) - y)
    }

    /// The product of the extents, verbatim: callers must guard degenerate
    /// boxes before calling, or clamp the result to zero themselves (see
    /// [`crate::iou::bbox_area`]).
    pub fn area(&self) -> (a: i64)
        requires
            self.extents_bounded(),
        ensures
            a == self.spec_area(),
    {
        proof {
            assert(-SCALE * SCALE <= self.width * self.height <= SCALE * SCALE)
                by (nonlinear_arith)
                requires
                    -SCALE <= self.width <= SCALE,
                    -SCALE <= self.height <= SCALE;
        }
        self.width * self.height
    }
}

} // verus!
