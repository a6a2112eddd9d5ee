//! An axis-aligned rectangle over unsigned integer coordinates, used for
//! viewport culling and intersection queries.
//!
//! A rectangle is given by its top-left corner `(x, y)`, a width going to
//! the right and a height going down, so `right = x + w` and
//! `bottom = y + h` (edges are half-open for containment). Extents are
//! non-negative by construction; a rectangle is well formed when its right
//! and bottom edges still fit in the coordinate type.

use vstd::prelude::*;

use crate::vec2::UVec2;
use crate::vec2::uvec2;

verus! {

/// A 2D rectangle, defined by its top-left corner, width and height.
#[derive(Clone, Copy, Debug, Default, PartialEq, Eq, Structural)]
pub struct URect {
    pub x: u32,
    pub y: u32,
    pub w: u32,
    pub h: u32,
}

impl URect {
    /// The rectangle's edges do not leave the unsigned coordinate space.
    pub open spec fn wf(self) -> bool {
        self.x + self.w <= u32::MAX && self.y + self.h <= u32::MAX
    }

    /// The right edge, as a mathematical integer.
    pub open spec fn spec_right(self) -> int {
        self.x + self.w
    }

    /// The bottom edge, as a mathematical integer.
    pub open spec fn spec_bottom(self) -> int {
        self.y + self.h
    }

    /// A point lies inside the rectangle; the left and top edges are
    /// included, the right and bottom edges are not.
    pub open spec fn contains_spec(self, point: UVec2) -> bool {
        self.x <= point.x < self.spec_right() && self.y <= point.y < self.spec_bottom()
    }

    /// Two rectangles overlap, with touching edges counting as overlap
    /// (a closed-interval test on both axes).
    pub open spec fn overlaps_spec(self, other: URect) -> bool {
        self.x <= other.spec_right() && self.spec_right() >= other.x
            && self.y <= other.spec_bottom() && self.spec_bottom() >= other.y
    }

    /// The smallest rectangle containing both arguments.
    pub open spec fn combine_spec(self, other: URect) -> URect {
        let xl: u32 = if self.x <= other.x { self.x } else { other.x };
        let yt: u32 = if self.y <= other.y { self.y } else { other.y };
        let xr: int = if self.spec_right() >= other.spec_right() {
            self.spec_right()
        } else {
            other.spec_right()
        };
        let yb: int = if self.spec_bottom() >= other.spec_bottom() {
            self.spec_bottom()
        } else {
            other.spec_bottom()
        };
        URect { x: xl, y: yt, w: (xr - xl) as u32, h: (yb - yt) as u32 }
    }

    /// The overlap of two rectangles: the right and bottom edges are
    /// clamped to the smaller ones, the left and top edges to the larger
    /// ones; when that leaves a negative extent on either axis there is
    /// no intersection.
    pub open spec fn intersect_spec(self, other: URect) -> Option<URect> {
        let xl: u32 = if self.x >= other.x { self.x } else { other.x };
        let yt: u32 = if self.y >= other.y { self.y } else { other.y };
        let xr: int = if self.spec_right() <= other.spec_right() {
            self.spec_right()
        } else {
            other.spec_right()
        };
        let yb: int = if self.spec_bottom() <= other.spec_bottom() {
            self.spec_bottom()
        } else {
            other.spec_bottom()
        };
        if xr < xl || yb < yt {
            None
        } else {
            Some(URect { x: xl, y: yt, w: (xr - xl) as u32, h: (yb - yt) as u32 })
        }
    }

    /// The rectangle translated by `offset`.
    pub open spec fn offset_spec(self, offset: UVec2) -> URect {
        URect { x: (self.x + offset.x) as u32, y: (self.y + offset.y) as u32, w: self.w, h: self.h }
    }

    /// The rectangle translated against `offset`.
    pub open spec fn deoffset_spec(self, offset: UVec2) -> URect {
        URect { x: (self.x - offset.x) as u32, y: (self.y - offset.y) as u32, w: self.w, h: self.h }
    }

    /// Creates a new rectangle from its top-left corner, width and height.
    ///
    /// # Arguments:
    ///   * `x` - x-coordinate of the top-left corner.
    ///   * `y` - y-coordinate of the top-left corner.
    ///   * `w` - width of the `Rect`, going to the right.
    ///   * `h` - height of the `Rect`, going down.
    pub fn new(x: u32, y: u32, w: u32, h: u32) -> (r: URect)
        ensures
            r == (URect { x, y, w, h }),
    {
        URect { x, y, w, h }
    }

    /// Creates a rectangle from its four sides. Reversed bounds would give
    /// a negative extent and are a caller error, ruled out here.
    pub fn from_sides(left: u32, right: u32, top: u32, bottom: u32) -> (r: URect)
        requires
            left <= right,
            top <= bottom,
        ensures
            r == (URect { x: left, y: top, w: (right - left) as u32, h: (bottom - top) as u32 }),
            r.wf(),
    {
        URect { x: left, y: top, w: right - left, h: bottom - top }
    }

    /// Returns the top-left corner of the `Rect`.
    pub fn point(&self) -> (p: UVec2)
        ensures
            p == (UVec2 { x: self.x, y: self.y }),
    {
        uvec2(self.x, self.y)
    }

    /// Returns the size (width and height) of the `Rect`.
    pub fn size(&self) -> (s: UVec2)
        ensures
            s == (UVec2 { x: self.w, y: self.h }),
    {
        uvec2(self.w, self.h)
    }

    /// Returns the left edge of the `Rect`
    pub fn left(&self) -> (r: u32)
        ensures
            r == self.x,
    {
        self.x
    }

    /// Returns the right edge of the `Rect`
    pub fn right(&self) -> (r: u32)
        requires
            self.x + self.w <= u32::MAX,
        ensures
            r == self.spec_right(),
    {
        self.x + self.w
    }

    /// Returns the top edge of the `Rect`
    pub fn top(&self) -> (r: u32)
        ensures
            r == self.y,
    {
        self.y
    }

    /// Returns the bottom edge of the `Rect`
    pub fn bottom(&self) -> (r: u32)
        requires
            self.y + self.h <= u32::MAX,
        ensures
            r == self.spec_bottom(),
    {
        self.y + self.h
    }

    /// Scales the `Rect` by a factor of (sx, sy),
    /// growing towards the bottom-left
    pub fn scale(&mut self, sx: u32, sy: u32)
        requires
            old(self).w * sx <= u32::MAX,
            old(self).h * sy <= u32::MAX,
        ensures
            *final(self) == (URect {
                x: old(self).x,
                y: old(self).y,
                w: (old(self).w * sx) as u32,
                h: (old(self).h * sy) as u32,
            }),
    {
        self.w = self.w * sx;
        self.h = self.h * sy;
    }

    /// Checks whether the `Rect` contains a `Point`
    pub fn contains(&self, point: UVec2) -> (r: bool)
        requires
            self.wf(),
        ensures
            r == self.contains_spec(point),
    {
        point.x >= self.left() && point.x < self.right() && point.y < self.bottom()
            && point.y >= self.top()
    }

    /// Checks whether the `Rect` overlaps another `Rect`
    pub fn overlaps(&self, other: &URect) -> (r: bool)
        requires
            self.wf(),
            other.wf(),
        ensures
            r == self.overlaps_spec(*other),
    {
        self.left() <= other.right() && self.right() >= other.left()
            && self.top() <= other.bottom() && self.bottom() >= other.top()
    }

    /// Returns a new `Rect` that includes all points of these two `Rect`s.
    pub fn combine_with(self, other: URect) -> (r: URect)
        requires
            self.wf(),
            other.wf(),
        ensures
            r == self.combine_spec(other),
            r.wf(),
    {
        let x: u32 = if self.x <= other.x { self.x } else { other.x };
        let y: u32 = if self.y <= other.y { self.y } else { other.y };
        let sr: u32 = self.right();
        let or: u32 = other.right();
        let right: u32 = if sr >= or { sr } else { or };
        let sb: u32 = self.bottom();
        let ob: u32 = other.bottom();
        let bottom: u32 = if sb >= ob { sb } else { ob };
        URect { x, y, w: right - x, h: bottom - y }
    }

    /// Returns an intersection rect there is any intersection
    pub fn intersect(&self, other: URect) -> (r: Option<URect>)
        requires
            self.wf(),
            other.wf(),
        ensures
            r == self.intersect_spec(other),
            r matches Some(q) ==> q.wf(),
    {
        let left: u32 = if self.x >= other.x { self.x } else { other.x };
        let top: u32 = if self.y >= other.y { self.y } else { other.y };
        let sr: u32 = self.right();
        let or: u32 = other.right();
        let right: u32 = if sr <= or { sr } else { or };
        let sb: u32 = self.bottom();
        let ob: u32 = other.bottom();
        let bottom: u32 = if sb <= ob { sb } else { ob };

        if right < left || bottom < top {
            return None;
        }

        Some(URect { x: left, y: top, w: right - left, h: bottom - top })
    }

    /// Translate rect origin be `offset` vector
    pub fn offset(self, offset: UVec2) -> (r: URect)
        requires
            self.x + offset.x <= u32::MAX,
            self.y + offset.y <= u32::MAX,
        ensures
            r == self.offset_spec(offset),
    {
        URect::new(self.x + offset.x, self.y + offset.y, self.w, self.h)
    }

    /// Translate rect origin be `offset` vector the opposite way
    pub fn deoffset(self, offset: UVec2) -> (r: URect)
        requires
            offset.x <= self.x,
            offset.y <= self.y,
        ensures
            r == self.deoffset_spec(offset),
    {
        URect::new(self.x - offset.x, self.y - offset.y, self.w, self.h)
    }
}

/// Translating a rectangle by a vector and then back is the identity,
/// whenever the forward translation stays in the coordinate space.
pub proof fn lemma_offset_deoffset_identity(r: URect, v: UVec2)
    requires
        r.x + v.x <= u32::MAX,
        r.y + v.y <= u32::MAX,
    ensures
        r.offset_spec(v).deoffset_spec(v) == r,
{
}

/// Two rectangles have no intersection exactly when they neither touch
/// nor overlap.
pub proof fn lemma_intersect_none_iff_no_overlap(a: URect, b: URect)
    ensures
        a.intersect_spec(b) is None <==> !a.overlaps_spec(b),
{
}

/// The overlap test does not depend on the order of its arguments.
pub proof fn lemma_overlaps_symmetric(a: URect, b: URect)
    ensures
        a.overlaps_spec(b) == b.overlaps_spec(a),
{
}

} // verus!
