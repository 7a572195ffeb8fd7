//! Points, sizes, rectangles and segments, in EMU.
use crate::units::Pt;
use vstd::prelude::*;

verus! {

/// A position, or a displacement.
#[derive(Clone, Copy, PartialEq, Eq, Structural, Debug)]
pub struct PtOffset {
    pub x: Pt,
    pub y: Pt,
}

/// A width and a height.
#[derive(Clone, Copy, PartialEq, Eq, Structural, Debug)]
pub struct PtSize {
    pub width: Pt,
    pub height: Pt,
}

/// An axis-aligned box, by its top-left corner and its size.
#[derive(Clone, Copy, PartialEq, Eq, Structural, Debug)]
pub struct PtRect {
    pub origin: PtOffset,
    pub size: PtSize,
}

/// A straight line between two points.
#[derive(Clone, Copy, PartialEq, Eq, Structural, Debug)]
pub struct PtLineSegment {
    pub start: PtOffset,
    pub end: PtOffset,
}

/// An axis-aligned box, flat: the shape in which boxes leave the library.
#[derive(Clone, Copy, PartialEq, Eq, Structural, Debug)]
pub struct Rect {
    pub x: Pt,
    pub y: Pt,
    pub width: Pt,
    pub height: Pt,
}

impl PtOffset {
    /// This position moved by `(dx, dy)`, in contracts.
    pub open spec fn spec_shifted(self, dx: Pt, dy: Pt) -> PtOffset {
        PtOffset { x: self.x.spec_plus(dx), y: self.y.spec_plus(dy) }
    }

    pub fn new(x: Pt, y: Pt) -> (r: PtOffset)
        ensures
            r.x == x,
            r.y == y,
    {
        PtOffset { x, y }
    }

    /// This position moved by `(dx, dy)`.
    pub fn shifted(self, dx: Pt, dy: Pt) -> (r: PtOffset)
        ensures
            r == self.spec_shifted(dx, dy),
    {
        PtOffset { x: self.x.plus(dx), y: self.y.plus(dy) }
    }
}

impl PtSize {
    pub fn new(width: Pt, height: Pt) -> (r: PtSize)
        ensures
            r.width == width,
            r.height == height,
    {
        PtSize { width, height }
    }
}

impl PtRect {
    /// This box moved by `(dx, dy)`, its size kept, in contracts.
    pub open spec fn spec_shifted(self, dx: Pt, dy: Pt) -> PtRect {
        PtRect { origin: self.origin.spec_shifted(dx, dy), size: self.size }
    }

    /// The same box as a [`Rect`], in contracts.
    pub open spec fn spec_flat(self) -> Rect {
        Rect {
            x: self.origin.x,
            y: self.origin.y,
            width: self.size.width,
            height: self.size.height,
        }
    }

    pub fn from_xywh(x: Pt, y: Pt, width: Pt, height: Pt) -> (r: PtRect)
        ensures
            r == (PtRect { origin: PtOffset { x, y }, size: PtSize { width, height } }),
    {
        PtRect { origin: PtOffset { x, y }, size: PtSize { width, height } }
    }

    /// The same box as a [`Rect`].
    pub fn flat(&self) -> (r: Rect)
        ensures
            r == self.spec_flat(),
    {
        Rect {
            x: self.origin.x,
            y: self.origin.y,
            width: self.size.width,
            height: self.size.height,
        }
    }
}

impl PtLineSegment {
    /// This segment moved by `(dx, dy)`, both ends alike, in contracts.
    pub open spec fn spec_shifted(self, dx: Pt, dy: Pt) -> PtLineSegment {
        PtLineSegment {
            start: self.start.spec_shifted(dx, dy),
            end: self.end.spec_shifted(dx, dy),
        }
    }

    pub fn new(start: PtOffset, end: PtOffset) -> (r: PtLineSegment)
        ensures
            r.start == start,
            r.end == end,
    {
        PtLineSegment { start, end }
    }
}

impl Rect {
    /// The right edge, in contracts.
    pub open spec fn spec_right(self) -> Pt {
        self.x.spec_plus(self.width)
    }

    /// The bottom edge, in contracts.
    pub open spec fn spec_bottom(self) -> Pt {
        self.y.spec_plus(self.height)
    }

    /// The smallest box over this one and `other`, in contracts.
    pub open spec fn spec_hull(self, other: Rect) -> Rect {
        let x0 = self.x.spec_min(other.x);
        let y0 = self.y.spec_min(other.y);
        Rect {
            x: x0,
            y: y0,
            width: self.spec_right().spec_max(other.spec_right()).spec_minus(x0),
            height: self.spec_bottom().spec_max(other.spec_bottom()).spec_minus(y0),
        }
    }

    /// Whether this box covers `inner`, edge by edge.
    pub open spec fn covers(self, inner: Rect) -> bool {
        &&& self.x.emu <= inner.x.emu
        &&& self.y.emu <= inner.y.emu
        &&& inner.x.emu + inner.width.emu <= self.x.emu + self.width.emu
        &&& inner.y.emu + inner.height.emu <= self.y.emu + self.height.emu
    }

    /// A box whose width and height are not negative, and whose edges lie
    /// within a quarter of the range.
    pub open spec fn ok(self) -> bool {
        &&& 0 <= self.width.emu
        &&& 0 <= self.height.emu
        &&& -0x2000_0000_0000_0000 <= self.x.emu
        &&& -0x2000_0000_0000_0000 <= self.y.emu
        &&& self.x.emu + self.width.emu <= 0x2000_0000_0000_0000
        &&& self.y.emu + self.height.emu <= 0x2000_0000_0000_0000
    }

    /// The right edge.
    pub fn right_edge(&self) -> (r: Pt)
        ensures
            r == self.spec_right(),
    {
        self.x.plus(self.width)
    }

    /// The bottom edge.
    pub fn bottom_edge(&self) -> (r: Pt)
        ensures
            r == self.spec_bottom(),
    {
        self.y.plus(self.height)
    }

    /// The smallest box over this one and `other`.
    pub fn hull_with(&self, other: &Rect) -> (r: Rect)
        ensures
            r == self.spec_hull(*other),
    {
        let x0 = self.x.min(other.x);
        let y0 = self.y.min(other.y);
        Rect {
            x: x0,
            y: y0,
            width: self.right_edge().max(other.right_edge()).minus(x0),
            height: self.bottom_edge().max(other.bottom_edge()).minus(y0),
        }
    }
}

/// The hull of two boxes covers both of them, and every box that covers both
/// covers the hull.
pub proof fn hull_is_least_cover(a: Rect, b: Rect)
    requires
        a.ok(),
        b.ok(),
    ensures
        a.spec_hull(b).covers(a),
        a.spec_hull(b).covers(b),
        a.spec_hull(b).ok(),
        forall|c: Rect| #[trigger] c.covers(a) && c.covers(b) ==> c.covers(a.spec_hull(b)),
{
}

}
