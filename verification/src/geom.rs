//! Axis-aligned rectangle arithmetic and intersection.

use vstd::prelude::*;
use vstd::math::{max, min};

verus! {

/// An axis-aligned rectangle: signed top-left corner, unsigned extent.
/// The derived edges are `right = x + w` and `bottom = y + h`.
#[derive(PartialEq, Eq, Structural, Clone, Copy, Debug)]
pub struct Rect {
    pub x: i32,
    pub y: i32,
    pub w: u32,
    pub h: u32,
}

/// Adds a signed coordinate and an unsigned extent exactly.
pub fn add_iu(i: i32, u: usize) -> (r: i32)
    requires
        i + u <= i32::MAX,
    ensures
        r == i + u,
{
    ((i as i64) + (u as i64)) as i32
}

/// The intersection of two rectangles, or `None` when they do not
/// strictly overlap on both axes (touching edges do not count).
pub open spec fn spec_intersect(a: Rect, b: Rect) -> Option<Rect> {
    let x = max(a.x as int, b.x as int);
    let right = min(a.x + a.w, b.x + b.w);
    let y = max(a.y as int, b.y as int);
    let bottom = min(a.y + a.h, b.y + b.h);
    if x >= right || y >= bottom {
        Option::None
    } else {
        Option::Some(
            Rect {
                x: x as i32,
                y: y as i32,
                w: (right - x) as u32,
                h: (bottom - y) as u32,
            },
        )
    }
}

impl Rect {
    /// A rectangle from its top-left corner and extent.
    pub fn new(left: i32, top: i32, width: u32, height: u32) -> (r: Rect)
        ensures
            r == (Rect { x: left, y: top, w: width, h: height }),
    {
        Rect { x: left, y: top, w: width, h: height }
    }

    /// The right edge, `x + w`.
    pub fn right(&self) -> (r: i32)
        requires
            self.x + self.w <= i32::MAX,
        ensures
            r == self.x + self.w,
    {
        ((self.x as i64) + (self.w as i64)) as i32
    }

    /// The bottom edge, `y + h`.
    pub fn bottom(&self) -> (r: i32)
        requires
            self.y + self.h <= i32::MAX,
        ensures
            r == self.y + self.h,
    {
        ((self.y as i64) + (self.h as i64)) as i32
    }

    /// The overlapping rectangle, or `None` when there is none.  Overlap
    /// requires strict containment on both axes: touching edges do not
    /// count.
    pub fn intersect(&self, other: &Rect) -> (r: Option<Rect>)
        ensures
            r == spec_intersect(*self, *other),
    {
        let x: i32 = if self.x >= other.x {
            self.x
        } else {
            other.x
        };
        let r1: i64 = (self.x as i64) + (self.w as i64);
        let r2: i64 = (other.x as i64) + (other.w as i64);
        let right: i64 = if r1 <= r2 {
            r1
        } else {
            r2
        };
        if x as i64 >= right {
            return Option::None;
        }
        let y: i32 = if self.y >= other.y {
            self.y
        } else {
            other.y
        };
        let b1: i64 = (self.y as i64) + (self.h as i64);
        let b2: i64 = (other.y as i64) + (other.h as i64);
        let bottom: i64 = if b1 <= b2 {
            b1
        } else {
            b2
        };
        if y as i64 >= bottom {
            return Option::None;
        }
        Option::Some(
            Rect {
                x,
                y,
                w: (right - x as i64) as u32,
                h: (bottom - y as i64) as u32,
            },
        )
    }
}

impl Default for Rect {
    /// The empty rectangle at the origin.
    fn default() -> (r: Rect)
        ensures
            r == (Rect { x: 0, y: 0, w: 0, h: 0 }),
    {
        Rect { x: 0, y: 0, w: 0, h: 0 }
    }
}

/// Intersection is symmetric: which rectangle the question is asked of
/// never changes the answer, neither its presence nor its position or
/// size.
pub proof fn lemma_intersect_symmetric(a: Rect, b: Rect)
    ensures
        spec_intersect(a, b) == spec_intersect(b, a),
{
}

/// The intersection is exact: a point lies in the intersection exactly
/// when it lies strictly inside both rectangles.
pub proof fn lemma_intersect_exact(a: Rect, b: Rect, px: int, py: int)
    ensures
        match spec_intersect(a, b) {
            Option::Some(r) => (r.x <= px < r.x + r.w && r.y <= py < r.y + r.h) <==> ((a.x <= px
                < a.x + a.w && a.y <= py < a.y + a.h) && (b.x <= px < b.x + b.w && b.y <= py < b.y
                + b.h)),
            Option::None => !((a.x <= px < a.x + a.w && a.y <= py < a.y + a.h) && (b.x <= px < b.x
                + b.w && b.y <= py < b.y + b.h)),
        },
{
}

} // verus!
