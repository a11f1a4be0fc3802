//! Windows: thin wrappers around display-server surfaces with title,
//! flags, focus, minimize/maximize state and saved geometry.

use vstd::prelude::*;
use crate::MAX_SURFACE_BUFFER;
use crate::N_SURF;
use crate::surface::COORD_MAX;

verus! {

/// The window can be dragged by its title bar.
pub const WINDOW_MOVABLE: u32 = 0x01;

/// The window shows a close button.
pub const WINDOW_CLOSABLE: u32 = 0x02;

/// The window can be resized by its borders.
pub const WINDOW_RESIZABLE: u32 = 0x04;

/// Rows of the title bar at the top of every window.
pub const TITLE_BAR_HEIGHT: u32 = 20;

/// Side length of a control button.
pub const BUTTON_SIZE: u32 = 16;

/// Conventional window background color; chrome leaves content rows
/// alone, so clients clear their drawing area with it themselves.
pub const WINDOW_BG_COLOR: u32 = 0x2d2d2d;

/// Title bar color of the focused window.
pub const TITLE_FOCUSED_COLOR: u32 = 0x4a90e2;

/// Title bar color of unfocused windows.
pub const TITLE_UNFOCUSED_COLOR: u32 = 0x404040;

/// Close button color.
pub const CLOSE_BUTTON_COLOR: u32 = 0xff4444;

/// Maximize button color.
pub const MAX_BUTTON_COLOR: u32 = 0x4444ff;

/// Minimize button color.
pub const MIN_BUTTON_COLOR: u32 = 0x44ff44;

/// Color of button labels and title text.
pub const LABEL_COLOR: u32 = 0xffffff;

/// Smallest width and height a resize can leave.
pub const MIN_WINDOW_DIM: u32 = 100;

/// Width of the resize-sensitive border.
pub const RESIZE_BORDER: i32 = 8;

/// Which border region of a window a resize drag grabs.
#[derive(Clone, Copy, PartialEq, Eq, Structural, Debug)]
pub enum ResizeEdge {
    NoEdge,
    Top,
    Bottom,
    Left,
    Right,
    TopLeft,
    TopRight,
    BottomLeft,
    BottomRight,
}

/// The pointer interaction state: idle, dragging a window by its title
/// bar, or resizing a window by one of its borders.
#[derive(Clone, Copy, PartialEq, Eq, Structural, Debug)]
pub enum PointerState {
    Idle,
    Dragging { window: u32, off_x: i32, off_y: i32 },
    Resizing {
        window: u32,
        edge: ResizeEdge,
        start_x: i32,
        start_y: i32,
        start_w: u32,
        start_h: u32,
    },
}

/// A window: id (= its pool slot), geometry, bounded title, flag bits,
/// focus and redraw state, its surface's id, a z-order mirror,
/// minimize/maximize state and the saved pre-maximize geometry.
pub struct Window {
    pub id: u32,
    pub x: i32,
    pub y: i32,
    pub width: u32,
    pub height: u32,
    pub title: Vec<u8>,
    pub flags: u32,
    pub focused: bool,
    pub invalidated: bool,
    pub surface: u32,
    pub z_order: i32,
    pub minimized: bool,
    pub maximized: bool,
    pub orig_x: i32,
    pub orig_y: i32,
    pub orig_width: u32,
    pub orig_height: u32,
}

impl Window {
    /// Geometry and title stay inside the machine bounds.
    pub open spec fn wf(self) -> bool {
        &&& self.title.len() < crate::TITLE_CAP
        &&& -COORD_MAX <= self.x <= COORD_MAX
        &&& -COORD_MAX <= self.y <= COORD_MAX
        &&& self.width <= MAX_SURFACE_BUFFER
        &&& self.height <= MAX_SURFACE_BUFFER
        &&& self.width * self.height <= MAX_SURFACE_BUFFER
        &&& -COORD_MAX <= self.orig_x <= COORD_MAX
        &&& -COORD_MAX <= self.orig_y <= COORD_MAX
        &&& self.orig_width <= MAX_SURFACE_BUFFER
        &&& self.orig_height <= MAX_SURFACE_BUFFER
        &&& self.orig_width * self.orig_height <= MAX_SURFACE_BUFFER
        &&& self.surface < N_SURF
    }

    /// The point `(mx, my)` lies inside the window's rectangle.
    pub open spec fn contains(self, mx: int, my: int) -> bool {
        &&& self.x <= mx < self.x + self.width
        &&& self.y <= my < self.y + self.height
    }
}

} // verus!
