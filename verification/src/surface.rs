//! Surfaces: positioned rectangular pixel buffers, the atoms of
//! composition.

use vstd::prelude::*;
use crate::MAX_SURFACE_BUFFER;
use crate::gpu::pix;

verus! {

/// Bound on screen positions: generous enough for any supported
/// framebuffer while keeping geometry sums inside `i32`.
pub const COORD_MAX: i32 = 0x0100_0000;

/// A drawable surface: a stable id (its pool slot), a screen position,
/// a size, an exclusively owned pixel buffer, and a z-order.
pub struct Surface {
    pub id: u32,
    pub x: i32,
    pub y: i32,
    pub width: u32,
    pub height: u32,
    pub buffer: Vec<u32>,
    pub z_order: i32,
}

impl Surface {
    /// The surface's buffer always holds the pool's full cell count and
    /// its geometry stays inside the coordinate bounds.
    pub open spec fn wf(self) -> bool {
        &&& self.buffer.len() == MAX_SURFACE_BUFFER
        &&& self.width * self.height <= MAX_SURFACE_BUFFER
        &&& self.width <= MAX_SURFACE_BUFFER
        &&& self.height <= MAX_SURFACE_BUFFER
        &&& -COORD_MAX <= self.x <= COORD_MAX
        &&& -COORD_MAX <= self.y <= COORD_MAX
    }

    /// The point `(px, py)` lies inside the surface's rectangle.
    pub open spec fn covers(self, px: int, py: int) -> bool {
        &&& self.x <= px < self.x + self.width
        &&& self.y <= py < self.y + self.height
    }

    /// The surface's own pixel under the screen point `(px, py)`.
    pub open spec fn pixel_at(self, px: int, py: int) -> u32 {
        pix(self.buffer@, self.width as int, px - self.x, py - self.y)
    }
}

} // verus!
