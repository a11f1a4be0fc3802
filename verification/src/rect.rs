//! The accumulated dirty rectangle and its union operation.
//!
//! The display server keeps exactly one dirty rectangle per frame; every
//! damaged region is unioned into it, and the union of two rectangles is
//! the smallest axis-aligned rectangle containing both.

use vstd::prelude::*;

verus! {

/// Bound on rectangle coordinates: generous enough for any supported
/// framebuffer while keeping every rectangle computation inside `i32`.
pub const RECT_BOUND: i32 = 0x2000_0000;

/// A bounded rectangle together with a validity bit.  An invalid
/// rectangle stands for the empty region.
#[derive(Clone, Copy, PartialEq, Eq, Structural, Debug)]
pub struct DirtyRect {
    pub x: i32,
    pub y: i32,
    pub width: u32,
    pub height: u32,
    pub valid: bool,
}

impl DirtyRect {
    /// Coordinates stay far from the `i32` range ends, so that unions and
    /// edge sums never overflow.
    pub open spec fn in_bounds(self) -> bool {
        self.valid ==> {
            &&& -RECT_BOUND <= self.x
            &&& self.x + self.width <= RECT_BOUND
            &&& -RECT_BOUND <= self.y
            &&& self.y + self.height <= RECT_BOUND
        }
    }

    /// The point `(px, py)` lies inside the rectangle.
    pub open spec fn covers(self, px: int, py: int) -> bool {
        &&& self.valid
        &&& self.x <= px < self.x + self.width
        &&& self.y <= py < self.y + self.height
    }

    /// Every point of `other` lies inside `self`.
    pub open spec fn contains(self, other: DirtyRect) -> bool {
        other.valid ==> {
            &&& self.valid
            &&& self.x <= other.x
            &&& other.x + other.width <= self.x + self.width
            &&& self.y <= other.y
            &&& other.y + other.height <= self.y + self.height
        }
    }

    /// The smallest rectangle containing both `a` and `b`.
    pub open spec fn union_of(a: DirtyRect, b: DirtyRect) -> DirtyRect {
        if !b.valid {
            a
        } else if !a.valid {
            b
        } else {
            let left = if a.x <= b.x { a.x as int } else { b.x as int };
            let top = if a.y <= b.y { a.y as int } else { b.y as int };
            let ar = a.x + a.width;
            let br = b.x + b.width;
            let right = if ar >= br { ar } else { br };
            let ab = a.y + a.height;
            let bb = b.y + b.height;
            let bottom = if ab >= bb { ab } else { bb };
            DirtyRect {
                x: left as i32,
                y: top as i32,
                width: (right - left) as u32,
                height: (bottom - top) as u32,
                valid: true,
            }
        }
    }

    /// The invalid (empty) rectangle.
    pub fn new() -> (r: DirtyRect)
        ensures
            r == (DirtyRect { x: 0, y: 0, width: 0, height: 0, valid: false }),
    {
        DirtyRect { x: 0, y: 0, width: 0, height: 0, valid: false }
    }

    /// Grows `self` to the smallest rectangle containing both `self` and
    /// `other`.
    pub fn union(&mut self, other: &DirtyRect)
        requires
            old(self).in_bounds(),
            other.in_bounds(),
        ensures
            *final(self) == DirtyRect::union_of(*old(self), *other),
            final(self).in_bounds(),
    {
        if !other.valid {
            return;
        }
        if !self.valid {
            *self = *other;
            return;
        }
        let left: i32 = if self.x <= other.x { self.x } else { other.x };
        let top: i32 = if self.y <= other.y { self.y } else { other.y };
        let sr: i32 = self.x + self.width as i32;
        let orr: i32 = other.x + other.width as i32;
        let right: i32 = if sr >= orr { sr } else { orr };
        let sb: i32 = self.y + self.height as i32;
        let ob: i32 = other.y + other.height as i32;
        let bottom: i32 = if sb >= ob { sb } else { ob };
        self.x = left;
        self.y = top;
        self.width = (right - left) as u32;
        self.height = (bottom - top) as u32;
        self.valid = true;
    }

    /// Forgets the accumulated region.
    pub fn clear(&mut self)
        ensures
            *final(self) == (DirtyRect { valid: false, ..*old(self) }),
    {
        self.valid = false;
    }
}

/// The union contains both of its arguments.
pub proof fn lemma_union_contains(a: DirtyRect, b: DirtyRect)
    requires
        a.in_bounds(),
        b.in_bounds(),
    ensures
        DirtyRect::union_of(a, b).contains(a),
        DirtyRect::union_of(a, b).contains(b),
        DirtyRect::union_of(a, b).in_bounds(),
{
}

/// Unioning a rectangle that is already contained changes nothing: the
/// second of two equal unions is absorbed.
pub proof fn lemma_union_absorbed(a: DirtyRect, b: DirtyRect)
    requires
        a.in_bounds(),
        b.in_bounds(),
        a.contains(b),
    ensures
        DirtyRect::union_of(a, b) == a,
{
}

} // verus!
