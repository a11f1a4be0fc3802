//! A compositing display stack for a single-framebuffer machine.
//!
//! Three layers, leaves first: pixel blit primitives and a small
//! command-queue shim (`gpu`), a display server that owns the framebuffer,
//! a backbuffer, a pool of z-ordered surfaces, a software cursor and one
//! accumulated dirty rectangle per frame (`display`), and a window manager
//! that maps pointer input to window semantics and draws title-bar chrome
//! (`wm`).  A small in-memory file system (`fs`) serves as the byte source
//! for optional wallpaper data.
//!
//! All state is held in owner values handed to the caller; there is no
//! global state and no allocation after construction beyond the fixed
//! pools.  Every public operation carries a contract describing the exact
//! effect on the owner's state.

use vstd::prelude::*;

pub mod rect;
pub mod gpu;
pub mod surface;
pub mod display;
pub mod font;
pub mod window;
pub mod wm;
pub mod fs;

verus! {

/// Capacity of the surface pool.
pub const N_SURF: usize = 32;

/// Capacity of the window pool.
pub const N_WIN: usize = 32;

/// Largest pixel count of a single surface buffer.
pub const MAX_SURFACE_BUFFER: usize = 800 * 600;

/// Largest pixel count of the backbuffer (enough for 3840x2160).
pub const MAX_BACKBUFFER_SIZE: usize = 3840 * 2160;

/// Largest pixel count of the decoded wallpaper image (enough for 1920x1080).
pub const MAX_WALLPAPER_SIZE: usize = 1920 * 1080;

/// Bytes of a window title, terminator included.
pub const TITLE_CAP: usize = 64;

} // verus!
