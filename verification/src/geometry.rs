//! Axis-aligned rectangles over fixed-point coordinates: containment,
//! overlap, and the quartering used by the spatial partition.

use vstd::prelude::*;
use crate::fixed::REGION_BOUND;

verus! {

/// A pair of fixed-point coordinates, used both as a position and as a
/// velocity.
#[derive(Clone, Copy, PartialEq, Eq, Structural, Debug)]
pub struct Vec2 {
    pub x: i64,
    pub y: i64,
}

/// An axis-aligned, non-rotated rectangle: a partition node's boundary or an
/// ad-hoc query window.
#[derive(Clone, Copy, PartialEq, Eq, Structural, Debug)]
pub struct Region {
    pub origin: Vec2,
    pub width: i64,
    pub height: i64,
}

impl Region {
    /// A region is well formed when its sides are non-negative and its
    /// corners stay within `REGION_BOUND`, so that corner arithmetic never
    /// overflows.
    pub open spec fn wf(self) -> bool {
        &&& 0 <= self.width
        &&& 0 <= self.height
        &&& -REGION_BOUND <= self.origin.x
        &&& self.origin.x + self.width <= REGION_BOUND
        &&& -REGION_BOUND <= self.origin.y
        &&& self.origin.y + self.height <= REGION_BOUND
    }

    /// A point lies in a region when it is within the rectangle, edges
    /// included.
    pub open spec fn contains(self, p: Vec2) -> bool {
        &&& self.origin.x <= p.x <= self.origin.x + self.width
        &&& self.origin.y <= p.y <= self.origin.y + self.height
    }

    /// Two regions overlap unless one lies strictly to the left, right,
    /// above or below the other (shared edges count as overlap).
    pub open spec fn overlaps(self, other: Region) -> bool {
        &&& self.origin.x + self.width >= other.origin.x
        &&& other.origin.x + other.width >= self.origin.x
        &&& self.origin.y + self.height >= other.origin.y
        &&& other.origin.y + other.height >= self.origin.y
    }

    /// Top-left quarter after a midpoint split.
    pub open spec fn quarter_tl(self) -> Region {
        Region {
            origin: self.origin,
            width: (self.width / 2) as i64,
            height: (self.height / 2) as i64,
        }
    }

    /// Top-right quarter after a midpoint split.
    pub open spec fn quarter_tr(self) -> Region {
        Region {
            origin: Vec2 { x: (self.origin.x + self.width / 2) as i64, y: self.origin.y },
            width: (self.width - self.width / 2) as i64,
            height: (self.height / 2) as i64,
        }
    }

    /// Bottom-left quarter after a midpoint split.
    pub open spec fn quarter_bl(self) -> Region {
        Region {
            origin: Vec2 { x: self.origin.x, y: (self.origin.y + self.height / 2) as i64 },
            width: (self.width / 2) as i64,
            height: (self.height - self.height / 2) as i64,
        }
    }

    /// Bottom-right quarter after a midpoint split.
    pub open spec fn quarter_br(self) -> Region {
        Region {
            origin: Vec2 {
                x: (self.origin.x + self.width / 2) as i64,
                y: (self.origin.y + self.height / 2) as i64,
            },
            width: (self.width - self.width / 2) as i64,
            height: (self.height - self.height / 2) as i64,
        }
    }

    /// Runtime validity test, with the corner sums widened so that it is
    /// safe on arbitrary input.
    pub fn check_wf(&self) -> (r: bool)
        ensures
            r == self.wf(),
    {
        self.width >= 0 && self.height >= 0 && self.origin.x >= -REGION_BOUND && (self.origin.x
            as i128) + (self.width as i128) <= REGION_BOUND as i128 && self.origin.y
            >= -REGION_BOUND && (self.origin.y as i128) + (self.height as i128) <= REGION_BOUND
            as i128
    }

    /// Inclusive point-in-rectangle test.
    pub fn contains_point(&self, p: &Vec2) -> (r: bool)
        requires
            self.wf(),
        ensures
            r == self.contains(*p),
    {
        p.x >= self.origin.x && p.x <= self.origin.x + self.width && p.y >= self.origin.y
            && p.y <= self.origin.y + self.height
    }

    /// Inclusive rectangle-overlap test.
    pub fn overlaps_region(&self, other: &Region) -> (r: bool)
        requires
            self.wf(),
            other.wf(),
        ensures
            r == self.overlaps(*other),
    {
        self.origin.x + self.width >= other.origin.x
            && other.origin.x + other.width >= self.origin.x
            && self.origin.y + self.height >= other.origin.y
            && other.origin.y + other.height >= self.origin.y
    }
}

/// The quarters of a well-formed region are themselves well formed.
pub proof fn lemma_quarters_wf(r: Region)
    requires
        r.wf(),
    ensures
        r.quarter_tl().wf(),
        r.quarter_tr().wf(),
        r.quarter_bl().wf(),
        r.quarter_br().wf(),
{
}

/// Quartering invariant: a midpoint split covers the parent exactly.  Every
/// point of the parent lies in at least one quarter; a point shared by two
/// horizontally (vertically) adjacent quarters lies on the vertical
/// (horizontal) midline; and when the parent's sides are even, every
/// quarter's sides are exactly half the parent's.
pub proof fn lemma_quartering(r: Region, p: Vec2)
    requires
        r.wf(),
    ensures
        r.contains(p) <==> (r.quarter_tl().contains(p) || r.quarter_tr().contains(p)
            || r.quarter_bl().contains(p) || r.quarter_br().contains(p)),
        r.quarter_tl().contains(p) && r.quarter_tr().contains(p) ==> p.x == r.origin.x + r.width
            / 2,
        r.quarter_bl().contains(p) && r.quarter_br().contains(p) ==> p.x == r.origin.x + r.width
            / 2,
        r.quarter_tl().contains(p) && r.quarter_bl().contains(p) ==> p.y == r.origin.y + r.height
            / 2,
        r.quarter_tr().contains(p) && r.quarter_br().contains(p) ==> p.y == r.origin.y + r.height
            / 2,
        r.width % 2 == 0 && r.height % 2 == 0 ==> {
            &&& r.quarter_tl().width == r.width / 2
            &&& r.quarter_tr().width == r.width / 2
            &&& r.quarter_bl().width == r.width / 2
            &&& r.quarter_br().width == r.width / 2
            &&& r.quarter_tl().height == r.height / 2
            &&& r.quarter_tr().height == r.height / 2
            &&& r.quarter_bl().height == r.height / 2
            &&& r.quarter_br().height == r.height / 2
        },
{
}

/// A point that lies in two regions witnesses that they overlap.
pub proof fn lemma_common_point_overlaps(a: Region, b: Region, p: Vec2)
    requires
        a.contains(p),
        b.contains(p),
    ensures
        a.overlaps(b),
{
}

} // verus!
