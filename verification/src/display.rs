//! The display server: owner of the framebuffer, the backbuffer, the
//! surface pool, the desktop background, the software cursor and the
//! accumulated dirty rectangle.
//!
//! Surfaces are identified by their pool slot.  A separate list of live
//! slots is kept sorted ascending by z-order; composition walks it bottom
//! to top.  Every operation unions the regions it damages into the dirty
//! rectangle; `render` composites that region into the backbuffer,
//! overlays the cursor, flushes the region to the framebuffer and clears
//! the dirty bit.

use vstd::prelude::*;
use crate::{MAX_SURFACE_BUFFER, MAX_BACKBUFFER_SIZE, MAX_WALLPAPER_SIZE, N_SURF};
use crate::rect::{DirtyRect, RECT_BOUND};
use crate::surface::{Surface, COORD_MAX};
use crate::gpu;
use crate::gpu::pix;
use vstd::arithmetic::mul::{lemma_mul_inequality, lemma_mul_strict_inequality};
use vstd::arithmetic::div_mod::{lemma_div_by_multiple, lemma_multiply_divide_lt};

verus! {

/// Default desktop background color.
pub const DESKTOP_COLOR: u32 = 0x0d1117;

/// Cursor bitmap width in pixels.
pub const CURSOR_W: u32 = 12;

/// Cursor bitmap height in pixels.
pub const CURSOR_H: u32 = 16;

/// Width of the saved region under the cursor: the bitmap plus a one
/// pixel outline frame.
pub const CURSOR_BACKUP_W: u32 = 14;

/// Height of the saved region under the cursor.
pub const CURSOR_BACKUP_H: u32 = 18;

/// Cursor fill color.
pub const CURSOR_COLOR: u32 = 0xFFFFFF;

/// Cursor outline color.
pub const CURSOR_OUTLINE_COLOR: u32 = 0x000000;

/// Top of the dedicated z-order band that minimized windows occupy;
/// surfaces at or below it are excluded from composition.
pub const MINIMIZED_Z_BAND: i32 = -1000;

/// Largest supported scanline length, in pixels.
pub const MAX_FB_PITCH: u32 = 8192;

/// Largest supported framebuffer height, in rows.
pub const MAX_FB_HEIGHT: u32 = 4096;

/// The display server state.
pub struct DisplayServer {
    pub fb_width: u32,
    pub fb_height: u32,
    pub fb_pitch: u32,
    pub framebuffer: Vec<u32>,
    pub slots: Vec<Option<Surface>>,
    pub z_list: Vec<usize>,
    pub desktop_color: u32,
    pub dirty_rect: DirtyRect,
    pub backbuffer: Vec<u32>,
    pub full_redraw: bool,
    pub desktop_cleared: bool,
    pub mouse_x: i32,
    pub mouse_y: i32,
    pub last_cursor_x: i32,
    pub last_cursor_y: i32,
    pub cursor_backup: Vec<u32>,
    pub cursor_backup_valid: bool,
    pub wallpaper: Vec<u32>,
    pub wallpaper_width: u32,
    pub wallpaper_height: u32,
    pub has_wallpaper: bool,
}

/// The one pixel envelope around the cursor at `(x, y)`: the region the
/// cursor draw can touch and the region saved for its later restore.
pub open spec fn cursor_env(x: int, y: int) -> DirtyRect {
    DirtyRect {
        x: (x - 1) as i32,
        y: (y - 1) as i32,
        width: CURSOR_BACKUP_W,
        height: CURSOR_BACKUP_H,
        valid: true,
    }
}

/// A surface's screen rectangle.
pub open spec fn surf_rect(s: Surface) -> DirtyRect {
    DirtyRect { x: s.x, y: s.y, width: s.width, height: s.height, valid: true }
}


/// The cursor bitmap: bit `11 - col` of row `row` is set where the
/// cursor shape covers the cell.
pub open spec fn cursor_bitmap_row(row: int) -> u16 {
    if row == 0 { 0b110000000000 }
    else if row == 1 { 0b111000000000 }
    else if row == 2 { 0b111100000000 }
    else if row == 3 { 0b111110000000 }
    else if row == 4 { 0b111111000000 }
    else if row == 5 { 0b111111100000 }
    else if row == 6 { 0b111111110000 }
    else if row == 7 { 0b111111111000 }
    else if row == 8 { 0b111111100000 }
    else if row == 9 { 0b111111100000 }
    else if row == 10 { 0b110110000000 }
    else if row == 11 { 0b110011000000 }
    else if row == 12 { 0b100001100000 }
    else if row == 13 { 0b000001100000 }
    else if row == 14 { 0b000000110000 }
    else if row == 15 { 0b000000110000 }
    else { 0 }
}

/// The cursor shape covers the bitmap cell `(col, row)`.
pub open spec fn cursor_lit(col: int, row: int) -> bool {
    &&& 0 <= col < CURSOR_W
    &&& 0 <= row < CURSOR_H
    &&& (cursor_bitmap_row(row) >> ((11 - col) as u16)) & 1u16 == 1u16
}

/// The cell `(col, row)` touches the cursor shape's one pixel outline:
/// one of its eight neighbours is covered.
pub open spec fn cursor_outlined(col: int, row: int) -> bool {
    ||| cursor_lit(col - 1, row - 1)
    ||| cursor_lit(col, row - 1)
    ||| cursor_lit(col + 1, row - 1)
    ||| cursor_lit(col - 1, row)
    ||| cursor_lit(col + 1, row)
    ||| cursor_lit(col - 1, row + 1)
    ||| cursor_lit(col, row + 1)
    ||| cursor_lit(col + 1, row + 1)
}

/// One row of the cursor bitmap.
pub fn cursor_row(row: u32) -> (r: u16)
    ensures
        r == cursor_bitmap_row(row as int),
{
    match row {
        0 => 0b110000000000,
        1 => 0b111000000000,
        2 => 0b111100000000,
        3 => 0b111110000000,
        4 => 0b111111000000,
        5 => 0b111111100000,
        6 => 0b111111110000,
        7 => 0b111111111000,
        8 => 0b111111100000,
        9 => 0b111111100000,
        10 => 0b110110000000,
        11 => 0b110011000000,
        12 => 0b100001100000,
        13 => 0b000001100000,
        14 => 0b000000110000,
        15 => 0b000000110000,
        _ => 0,
    }
}

/// Whether the cursor shape covers the bitmap cell `(col, row)`.
pub fn cursor_lit_at(col: i32, row: i32) -> (r: bool)
    ensures
        r == cursor_lit(col as int, row as int),
{
    if col < 0 || col >= CURSOR_W as i32 || row < 0 || row >= CURSOR_H as i32 {
        return false;
    }
    let bits: u16 = cursor_row(row as u32);
    (bits >> (11 - col) as u16) & 1u16 == 1u16
}

/// Whether the cell `(col, row)` touches the cursor's outline.
pub fn cursor_outlined_at(col: i32, row: i32) -> (r: bool)
    requires
        -0x1000_0000 < col < 0x1000_0000,
        -0x1000_0000 < row < 0x1000_0000,
    ensures
        r == cursor_outlined(col as int, row as int),
{
    cursor_lit_at(col - 1, row - 1) || cursor_lit_at(col, row - 1) || cursor_lit_at(
        col + 1,
        row - 1,
    ) || cursor_lit_at(col - 1, row) || cursor_lit_at(col + 1, row) || cursor_lit_at(
        col - 1,
        row + 1,
    ) || cursor_lit_at(col, row + 1) || cursor_lit_at(col + 1, row + 1)
}

impl DisplayServer {
    /// The surface stored in `slot`, which must be occupied.
    pub open spec fn surf(self, slot: int) -> Surface {
        self.slots@[slot]->Some_0
    }

    /// The slot is a live surface.
    pub open spec fn live(self, slot: int) -> bool {
        0 <= slot < N_SURF && self.slots@[slot] is Some
    }

    /// The z-order of the surface stored in `slot`.
    pub open spec fn slot_z(self, slot: int) -> int {
        self.surf(slot).z_order as int
    }

    /// Well-formedness of the framebuffer geometry.
    pub open spec fn wf_fb(self) -> bool {
        &&& 0 < self.fb_width
        &&& 0 < self.fb_height
        &&& self.fb_width <= self.fb_pitch <= MAX_FB_PITCH
        &&& self.fb_height <= MAX_FB_HEIGHT
        &&& self.fb_width * self.fb_height <= MAX_BACKBUFFER_SIZE
        &&& self.framebuffer.len() == self.fb_pitch * self.fb_height
        &&& self.backbuffer.len() == self.fb_width * self.fb_height
    }

    /// Well-formedness of the surface pool and the z-ordered list: ids
    /// equal slots, the list holds exactly the live slots, without
    /// duplicates, ascending by z-order.
    pub open spec fn wf_pool(self) -> bool {
        &&& self.slots.len() == N_SURF
        &&& forall|i: int|
            0 <= i < N_SURF && (#[trigger] self.slots@[i]) is Some ==> self.surf(i).wf()
                && self.surf(i).id == i
        &&& forall|k: int|
            0 <= k < self.z_list.len() ==> self.live((#[trigger] self.z_list@[k]) as int)
        &&& forall|k1: int, k2: int|
            0 <= k1 < k2 < self.z_list.len() ==> #[trigger] self.z_list@[k1] != #[trigger] self.z_list@[k2]
        &&& forall|k1: int, k2: int|
            0 <= k1 <= k2 < self.z_list.len() ==> self.slot_z((#[trigger] self.z_list@[k1]) as int)
                <= self.slot_z((#[trigger] self.z_list@[k2]) as int)
        &&& forall|i: int|
            0 <= i < N_SURF && (#[trigger] self.slots@[i]) is Some ==> exists|k: int|
                0 <= k < self.z_list.len() && #[trigger] self.z_list@[k] == i
    }

    /// Well-formedness of the cursor and wallpaper state.
    pub open spec fn wf_cursor(self) -> bool {
        &&& -COORD_MAX <= self.mouse_x <= COORD_MAX
        &&& -COORD_MAX <= self.mouse_y <= COORD_MAX
        &&& -COORD_MAX <= self.last_cursor_x <= COORD_MAX
        &&& -COORD_MAX <= self.last_cursor_y <= COORD_MAX
        &&& self.cursor_backup.len() == CURSOR_BACKUP_W * CURSOR_BACKUP_H
        &&& self.wallpaper.len() == MAX_WALLPAPER_SIZE
        &&& self.wallpaper_width <= 1920
        &&& self.wallpaper_height <= 1080
    }

    /// The display server's invariant.
    pub open spec fn wf(self) -> bool {
        &&& self.wf_fb()
        &&& self.wf_pool()
        &&& self.wf_cursor()
        &&& self.dirty_rect.in_bounds()
    }

    /// Everything a pool operation leaves alone: output buffers, cursor,
    /// background configuration and mouse state.
    pub open spec fn pool_op_frame(a: DisplayServer, b: DisplayServer) -> bool {
        &&& b.fb_width == a.fb_width
        &&& b.fb_height == a.fb_height
        &&& b.fb_pitch == a.fb_pitch
        &&& b.framebuffer@ == a.framebuffer@
        &&& b.backbuffer@ == a.backbuffer@
        &&& b.desktop_color == a.desktop_color
        &&& b.full_redraw == a.full_redraw
        &&& b.desktop_cleared == a.desktop_cleared
        &&& b.mouse_x == a.mouse_x
        &&& b.mouse_y == a.mouse_y
        &&& b.last_cursor_x == a.last_cursor_x
        &&& b.last_cursor_y == a.last_cursor_y
        &&& b.cursor_backup@ == a.cursor_backup@
        &&& b.cursor_backup_valid == a.cursor_backup_valid
        &&& b.wallpaper@ == a.wallpaper@
        &&& b.wallpaper_width == a.wallpaper_width
        &&& b.wallpaper_height == a.wallpaper_height
        &&& b.has_wallpaper == a.has_wallpaper
    }

    /// Creates a display server for a framebuffer of the given geometry,
    /// with an empty surface pool, a cleared dirty rectangle, a pending
    /// full redraw and no wallpaper.
    pub fn new(fb_width: u32, fb_height: u32, fb_pitch: u32) -> (r: DisplayServer)
        requires
            0 < fb_width,
            0 < fb_height,
            fb_width <= fb_pitch <= MAX_FB_PITCH,
            fb_height <= MAX_FB_HEIGHT,
            fb_width * fb_height <= MAX_BACKBUFFER_SIZE,
        ensures
            r.wf(),
            r.fb_width == fb_width,
            r.fb_height == fb_height,
            r.fb_pitch == fb_pitch,
            r.framebuffer@ == Seq::new((fb_pitch * fb_height) as nat, |i: int| 0u32),
            r.backbuffer@ == Seq::new((fb_width * fb_height) as nat, |i: int| 0u32),
            r.slots@ == Seq::new(N_SURF as nat, |i: int| None::<Surface>),
            r.z_list@ == Seq::<usize>::empty(),
            r.desktop_color == DESKTOP_COLOR,
            r.dirty_rect == (DirtyRect { x: 0, y: 0, width: 0, height: 0, valid: false }),
            r.full_redraw,
            !r.desktop_cleared,
            r.mouse_x == 0 && r.mouse_y == 0,
            r.last_cursor_x == -1 && r.last_cursor_y == -1,
            !r.cursor_backup_valid,
            !r.has_wallpaper,
            r.wallpaper_width == 0 && r.wallpaper_height == 0,
    {
        proof {
            assert(fb_pitch * fb_height <= 8192 * 4096) by (nonlinear_arith)
                requires
                    fb_pitch <= 8192,
                    fb_height <= 4096,
            ;
        }
        let fb_len: usize = fb_pitch as usize * fb_height as usize;
        let bb_len: usize = fb_width as usize * fb_height as usize;
        let mut slots: Vec<Option<Surface>> = Vec::new();
        let mut i: usize = 0;
        while i < N_SURF
            invariant
                i <= N_SURF,
                slots@ == Seq::new(i as nat, |j: int| None::<Surface>),
            decreases N_SURF - i,
        {
            slots.push(None);
            proof {
                assert(slots@ =~= Seq::new((i + 1) as nat, |j: int| None::<Surface>));
            }
            i = i + 1;
        }
        DisplayServer {
            fb_width,
            fb_height,
            fb_pitch,
            framebuffer: vec![0u32; fb_len],
            slots,
            z_list: Vec::new(),
            desktop_color: DESKTOP_COLOR,
            dirty_rect: DirtyRect::new(),
            backbuffer: vec![0u32; bb_len],
            full_redraw: true,
            desktop_cleared: false,
            mouse_x: 0,
            mouse_y: 0,
            last_cursor_x: -1,
            last_cursor_y: -1,
            cursor_backup: vec![0u32; CURSOR_BACKUP_W as usize * CURSOR_BACKUP_H as usize],
            cursor_backup_valid: false,
            wallpaper: vec![0u32; MAX_WALLPAPER_SIZE],
            wallpaper_width: 0,
            wallpaper_height: 0,
            has_wallpaper: false,
        }
    }

    /// Unions the given rectangle into the accumulated dirty region.
    pub fn mark_dirty(&mut self, x: i32, y: i32, width: u32, height: u32)
        requires
            old(self).wf(),
            -RECT_BOUND <= x && x + width <= RECT_BOUND,
            -RECT_BOUND <= y && y + height <= RECT_BOUND,
        ensures
            final(self).wf(),
            *final(self) == (DisplayServer {
                dirty_rect: DirtyRect::union_of(
                    old(self).dirty_rect,
                    DirtyRect { x, y, width, height, valid: true },
                ),
                ..*old(self)
            }),
    {
        let rect = DirtyRect { x, y, width, height, valid: true };
        self.dirty_rect.union(&rect);
    }

    /// Resets the dirty rectangle to the whole screen and schedules a
    /// full redraw.
    pub fn mark_full_dirty(&mut self)
        requires
            old(self).wf(),
        ensures
            final(self).wf(),
            *final(self) == (DisplayServer {
                dirty_rect: DirtyRect {
                    x: 0,
                    y: 0,
                    width: old(self).fb_width,
                    height: old(self).fb_height,
                    valid: true,
                },
                full_redraw: true,
                ..*old(self)
            }),
    {
        self.dirty_rect = DirtyRect {
            x: 0,
            y: 0,
            width: self.fb_width,
            height: self.fb_height,
            valid: true,
        };
        self.full_redraw = true;
    }

    /// The z-insert position scanned over an arbitrary list of live
    /// slots, from `k`: the first index whose entry has a z-order
    /// greater than `z`, or the list's length.
    pub open spec fn z_insert_pos_in(self, list: Seq<usize>, k: int, z: int) -> int
        decreases list.len() - k,
    {
        if k < 0 || k >= list.len() {
            list.len() as int
        } else if self.slot_z(list[k] as int) > z {
            k
        } else {
            self.z_insert_pos_in(list, k + 1, z)
        }
    }

    /// Where a surface of z-order `z` is inserted in the z-list,
    /// scanning from `k`.
    pub open spec fn z_insert_pos_from(self, k: int, z: int) -> int {
        self.z_insert_pos_in(self.z_list@, k, z)
    }

    /// Where a surface of z-order `z` is inserted in the z-list: after
    /// every entry whose z-order is at most `z`.
    pub open spec fn z_insert_pos(self, z: int) -> int {
        self.z_insert_pos_in(self.z_list@, 0, z)
    }

    /// The position of a live slot in the z-list.
    pub open spec fn z_index_of(self, slot: int) -> int {
        choose|k: int| 0 <= k < self.z_list.len() && self.z_list@[k] == slot
    }

    /// Where an entry taken out of position `k` goes back in after its
    /// z-order became `z`, as a stable re-sort places it: past every
    /// entry with a smaller z-order, before every entry with a greater
    /// one, and keeping its place among entries with an equal one.
    pub open spec fn z_reinsert_pos(self, mid: Seq<usize>, k: int, z: int) -> int {
        let lo = self.z_insert_pos_in(mid, 0, z - 1);
        let hi = self.z_insert_pos_in(mid, 0, z);
        if k < lo {
            lo
        } else if k > hi {
            hi
        } else {
            k
        }
    }

    /// Entries before the insertion position have z-order at most `z`;
    /// the entry at the position, if any, has a greater one.
    pub proof fn lemma_z_insert_pos_in(self, list: Seq<usize>, k: int, z: int)
        requires
            0 <= k <= list.len(),
        ensures
            k <= self.z_insert_pos_in(list, k, z) <= list.len(),
            forall|j: int|
                k <= j < self.z_insert_pos_in(list, k, z) ==> self.slot_z(
                    (#[trigger] list[j]) as int,
                ) <= z,
            self.z_insert_pos_in(list, k, z) < list.len() ==> self.slot_z(
                list[self.z_insert_pos_in(list, k, z)] as int,
            ) > z,
        decreases list.len() - k,
    {
        if k < list.len() && self.slot_z(list[k] as int) <= z {
            self.lemma_z_insert_pos_in(list, k + 1, z);
        }
    }

    /// Same facts for the full scan of the z-list.
    pub proof fn lemma_z_insert_pos(self, z: int)
        ensures
            0 <= self.z_insert_pos(z) <= self.z_list.len(),
            forall|j: int|
                0 <= j < self.z_insert_pos(z) ==> self.slot_z(
                    (#[trigger] self.z_list@[j]) as int,
                ) <= z,
            self.z_insert_pos(z) < self.z_list.len() ==> self.slot_z(
                self.z_list@[self.z_insert_pos(z)] as int,
            ) > z,
    {
        self.lemma_z_insert_pos_in(self.z_list@, 0, z);
    }

    /// Finds the insertion position for z-order `z` in the z-list.
    fn find_z_insert_pos(&self, z: i32) -> (r: usize)
        requires
            self.slots.len() == N_SURF,
            forall|k: int|
                0 <= k < self.z_list.len() ==> self.live((#[trigger] self.z_list@[k]) as int),
        ensures
            r == self.z_insert_pos(z as int),
    {
        let len: usize = self.z_list.len();
        let mut k: usize = 0;
        while k < len
            invariant
                self.slots.len() == N_SURF,
                forall|j: int|
                    0 <= j < self.z_list.len() ==> self.live((#[trigger] self.z_list@[j]) as int),
                len == self.z_list.len(),
                k <= len,
                self.z_insert_pos(z as int) == self.z_insert_pos_in(
                    self.z_list@,
                    k as int,
                    z as int,
                ),
            decreases len - k,
        {
            let slot: usize = self.z_list[k];
            let zk: i32 = match &self.slots[slot] {
                Some(s) => s.z_order,
                None => 0,
            };
            if zk > z {
                return k;
            }
            k = k + 1;
        }
        k
    }

    /// Finds the first z-list position whose entry's z-order is at
    /// least `z`.
    fn find_z_lower_pos(&self, z: i32) -> (r: usize)
        requires
            self.slots.len() == N_SURF,
            forall|k: int|
                0 <= k < self.z_list.len() ==> self.live((#[trigger] self.z_list@[k]) as int),
        ensures
            r == self.z_insert_pos_in(self.z_list@, 0, z as int - 1),
    {
        let len: usize = self.z_list.len();
        let mut k: usize = 0;
        while k < len
            invariant
                self.slots.len() == N_SURF,
                forall|j: int|
                    0 <= j < self.z_list.len() ==> self.live((#[trigger] self.z_list@[j]) as int),
                len == self.z_list.len(),
                k <= len,
                self.z_insert_pos_in(self.z_list@, 0, z as int - 1) == self.z_insert_pos_in(
                    self.z_list@,
                    k as int,
                    z as int - 1,
                ),
            decreases len - k,
        {
            let slot: usize = self.z_list[k];
            let zk: i32 = match &self.slots[slot] {
                Some(s) => s.z_order,
                None => 0,
            };
            if zk >= z {
                return k;
            }
            k = k + 1;
        }
        k
    }

    /// Allocates a surface: the first free slot, with a zeroed buffer,
    /// appended to the z-ordered list after every surface whose z-order
    /// is at most `z_order`.  Returns its id, or `None` when the pool is
    /// full or the requested size exceeds the buffer capacity; nothing
    /// changes then.
    #[verifier::loop_isolation(false)]
    pub fn create_surface(&mut self, x: i32, y: i32, width: u32, height: u32, z_order: i32) -> (r:
        Option<u32>)
        requires
            old(self).wf(),
            -COORD_MAX <= x <= COORD_MAX,
            -COORD_MAX <= y <= COORD_MAX,
            width <= MAX_SURFACE_BUFFER,
            height <= MAX_SURFACE_BUFFER,
        ensures
            final(self).wf(),
            Self::pool_op_frame(*old(self), *final(self)),
            final(self).dirty_rect == old(self).dirty_rect,
            r is Some <==> ((exists|i: int| 0 <= i < N_SURF && old(self).slots@[i] is None)
                && width * height <= MAX_SURFACE_BUFFER),
            r is None ==> *final(self) == *old(self),
            r is Some ==> {
                let id = r->Some_0 as int;
                &&& 0 <= id < N_SURF
                &&& old(self).slots@[id] is None
                &&& forall|j: int| 0 <= j < id ==> old(self).slots@[j] is Some
                &&& final(self).slots@ == old(self).slots@.update(
                    id,
                    Some(
                        Surface {
                            id: r->Some_0,
                            x,
                            y,
                            width,
                            height,
                            buffer: final(self).surf(id).buffer,
                            z_order,
                        },
                    ),
                )
                &&& final(self).surf(id).buffer@ == Seq::new(
                    MAX_SURFACE_BUFFER as nat,
                    |i: int| 0u32,
                )
                &&& final(self).z_list@ == old(self).z_list@.insert(
                    old(self).z_insert_pos(z_order as int),
                    r->Some_0 as usize,
                )
            },
    {
        proof {
            assert(width * height <= 480000 * 480000) by (nonlinear_arith)
                requires
                    width <= 480000,
                    height <= 480000,
            ;
        }
        if width as u64 * height as u64 > MAX_SURFACE_BUFFER as u64 {
            return None;
        }
        let mut slot: usize = 0;
        while slot < N_SURF
            invariant
                old(self).wf(),
                self == old(self),
                slot <= N_SURF,
                forall|j: int| 0 <= j < slot ==> self.slots@[j] is Some,
            decreases N_SURF - slot,
        {
            if self.slots[slot].is_none() {
                let surface = Surface {
                    id: slot as u32,
                    x,
                    y,
                    width,
                    height,
                    buffer: vec![0u32; MAX_SURFACE_BUFFER],
                    z_order,
                };
                let ghost gsurf: Surface = surface;
                let pos: usize = self.find_z_insert_pos(z_order);
                proof {
                    self.lemma_z_insert_pos(z_order as int);
                    assert(width * height <= MAX_SURFACE_BUFFER);
                    assert(gsurf.wf());
                }
                self.slots[slot] = Some(surface);
                self.z_list.insert(pos, slot);
                proof {
                    assert(self.slots@[slot as int] == Some(gsurf));
                    assert(self.surf(slot as int) == gsurf);
                    self.lemma_pool_wf_after_insert(*old(self), slot as int, pos as int);
                }
                return Some(slot as u32);
            }
            slot = slot + 1;
        }
        None
    }

    /// After inserting a fresh slot at the computed position, the pool
    /// invariant holds again.
    proof fn lemma_pool_wf_after_insert(self, pre: DisplayServer, slot: int, pos: int)
        requires
            pre.wf_pool(),
            0 <= slot < N_SURF,
            pre.slots@[slot] is None,
            self.slots@ == pre.slots@.update(slot, Some(self.surf(slot))),
            self.surf(slot).wf(),
            self.surf(slot).id == slot,
            self.slots.len() == N_SURF,
            pos == pre.z_insert_pos(self.slot_z(slot)),
            self.z_list@ == pre.z_list@.insert(pos, slot as usize),
        ensures
            self.wf_pool(),
    {
        pre.lemma_z_insert_pos(self.slot_z(slot));
        let zl = self.z_list@;
        let pzl = pre.z_list@;
        pzl.insert_ensures(pos, slot as usize);
        assert(forall|j: int| 0 <= j < pos ==> zl[j] == pzl[j]);
        assert(zl[pos] == slot as usize);
        assert(forall|j: int| pos <= j < pzl.len() ==> zl[j + 1] == pzl[j]);
        assert forall|j: int| pos < j < zl.len() implies zl[j] == pzl[j - 1] by {
            assert(zl[(j - 1) + 1] == pzl[j - 1]);
        }
        assert(forall|i: int|
            0 <= i < N_SURF && self.slots@[i] is Some && i != slot ==> self.slots@[i]
                == pre.slots@[i]);
        assert forall|k: int| 0 <= k < zl.len() implies self.live(#[trigger] zl[k] as int) by {
            if k != pos {
                let k0 = if k < pos { k } else { k - 1 };
                assert(pre.live(pzl[k0] as int));
            }
        }
        assert forall|k1: int, k2: int| 0 <= k1 <= k2 < zl.len() implies self.slot_z(
            #[trigger] zl[k1] as int,
        ) <= self.slot_z(#[trigger] zl[k2] as int) by {
            let a1 = if k1 < pos { k1 } else { k1 - 1 };
            let a2 = if k2 < pos { k2 } else { k2 - 1 };
            if k1 != pos && k2 != pos {
                assert(pre.slot_z(pzl[a1] as int) <= pre.slot_z(pzl[a2] as int));
            }
        }
        assert forall|i: int| self.live(i) implies exists|k: int|
            0 <= k < zl.len() && #[trigger] zl[k] == i by {
            if i == slot {
                assert(zl[pos] == i);
            } else {
                let k0 = choose|k: int| 0 <= k < pzl.len() && pzl[k] == i;
                if k0 < pos {
                    assert(zl[k0] == i);
                } else {
                    assert(zl[k0 + 1] == i);
                }
            }
        }
    }

    /// After removing one slot from the pool and its entry from the
    /// z-list, the pool invariant holds again.
    proof fn lemma_pool_wf_after_remove(self, pre: DisplayServer, slot: int, k: int)
        requires
            pre.wf_pool(),
            0 <= slot < N_SURF,
            pre.slots@[slot] is Some,
            0 <= k < pre.z_list.len(),
            pre.z_list@[k] == slot,
            self.slots@ == pre.slots@.update(slot, None::<Surface>),
            self.slots.len() == N_SURF,
            self.z_list@ == pre.z_list@.remove(k),
        ensures
            self.wf_pool(),
    {
        let zl = self.z_list@;
        let pzl = pre.z_list@;
        pzl.remove_ensures(k);
        assert forall|k2: int| 0 <= k2 < zl.len() implies self.live(
            (#[trigger] zl[k2]) as int,
        ) by {
            let k0 = if k2 < k { k2 } else { k2 + 1 };
            assert(zl[k2] == pzl[k0]);
            assert(pre.live(pzl[k0] as int));
            assert(pzl[k0] != pzl[k]);
        }
        assert forall|i: int|
            0 <= i < N_SURF && (#[trigger] self.slots@[i]) is Some implies exists|k2: int|
            0 <= k2 < zl.len() && #[trigger] zl[k2] == i by {
            let k0 = choose|k0: int| 0 <= k0 < pzl.len() && #[trigger] pzl[k0] == i;
            if k0 < k {
                assert(zl[k0] == i);
            } else {
                assert(zl[k0 - 1] == i);
            }
        }
    }

    /// Frees a surface slot: its rectangle is unioned into the dirty
    /// region, its entry leaves the z-ordered list and the slot becomes
    /// free.  A dead id changes nothing.
    #[verifier::loop_isolation(false)]
    pub fn destroy_surface(&mut self, id: u32)
        requires
            old(self).wf(),
        ensures
            final(self).wf(),
            Self::pool_op_frame(*old(self), *final(self)),
            !old(self).live(id as int) ==> *final(self) == *old(self),
            old(self).live(id as int) ==> {
                &&& final(self).slots@ == old(self).slots@.update(id as int, None::<Surface>)
                &&& final(self).z_list@ == old(self).z_list@.remove(
                    old(self).z_index_of(id as int),
                )
                &&& final(self).dirty_rect == DirtyRect::union_of(
                    old(self).dirty_rect,
                    surf_rect(old(self).surf(id as int)),
                )
            },
    {
        if id >= N_SURF as u32 {
            return;
        }
        let slot: usize = id as usize;
        let (sx, sy, sw, sh): (i32, i32, u32, u32) = match &self.slots[slot] {
            Some(s) => (s.x, s.y, s.width, s.height),
            None => { return; },
        };
        self.mark_dirty(sx, sy, sw, sh);
        self.slots[slot] = None;
        let len: usize = self.z_list.len();
        let mut k: usize = 0;
        while k < len
            invariant
                len == self.z_list.len(),
                k <= len,
                old(self).wf(),
                self.slots@ == old(self).slots@.update(slot as int, None::<Surface>),
                self.slots.len() == N_SURF,
                self.z_list@ == old(self).z_list@,
                self.dirty_rect == DirtyRect::union_of(
                    old(self).dirty_rect,
                    surf_rect(old(self).surf(slot as int)),
                ),
                self.dirty_rect.in_bounds(),
                Self::pool_op_frame(*old(self), *self),
                self.wf_fb(),
                self.wf_cursor(),
                forall|j: int| 0 <= j < k ==> #[trigger] self.z_list@[j] != slot,
            decreases len - k,
        {
            if self.z_list[k] == slot {
                self.z_list.remove(k);
                proof {
                    assert(old(self).z_index_of(slot as int) == k as int);
                    self.lemma_pool_wf_after_remove(*old(self), slot as int, k as int);
                }
                return;
            }
            k = k + 1;
        }
        proof {
            let k0 = choose|k0: int|
                0 <= k0 < old(self).z_list.len() && #[trigger] old(self).z_list@[k0]
                    == slot as usize;
            assert(false);
        }
    }

    /// Moves a surface: the rectangles at the old and at the new
    /// position are both unioned into the dirty region.  A dead id
    /// changes nothing.
    pub fn set_surface_position(&mut self, id: u32, x: i32, y: i32)
        requires
            old(self).wf(),
            -COORD_MAX <= x <= COORD_MAX,
            -COORD_MAX <= y <= COORD_MAX,
        ensures
            final(self).wf(),
            Self::pool_op_frame(*old(self), *final(self)),
            final(self).z_list@ == old(self).z_list@,
            !old(self).live(id as int) ==> *final(self) == *old(self),
            old(self).live(id as int) ==> {
                let s = old(self).surf(id as int);
                &&& final(self).slots@ == old(self).slots@.update(
                    id as int,
                    Some(Surface { x, y, ..s }),
                )
                &&& final(self).dirty_rect == DirtyRect::union_of(
                    DirtyRect::union_of(old(self).dirty_rect, surf_rect(s)),
                    DirtyRect { x, y, width: s.width, height: s.height, valid: true },
                )
            },
    {
        if id >= N_SURF as u32 {
            return;
        }
        let slot: usize = id as usize;
        let (ox, oy, sw, sh): (i32, i32, u32, u32) = match &self.slots[slot] {
            Some(s) => (s.x, s.y, s.width, s.height),
            None => { return; },
        };
        match &mut self.slots[slot] {
            Some(s) => {
                s.x = x;
                s.y = y;
            },
            None => {},
        }
        self.mark_dirty(ox, oy, sw, sh);
        self.mark_dirty(x, y, sw, sh);
        proof {
            assert(self.slots@ =~= old(self).slots@.update(
                slot as int,
                Some(Surface { x, y, ..old(self).surf(slot as int) }),
            ));
        }
    }

    /// Resizes a surface within its fixed buffer: refused silently when
    /// the new cell count exceeds the buffer capacity, otherwise the old
    /// and the new rectangle are both unioned into the dirty region.  A
    /// dead id changes nothing.
    pub fn set_surface_size(&mut self, id: u32, width: u32, height: u32)
        requires
            old(self).wf(),
            width <= MAX_SURFACE_BUFFER,
            height <= MAX_SURFACE_BUFFER,
        ensures
            final(self).wf(),
            Self::pool_op_frame(*old(self), *final(self)),
            final(self).z_list@ == old(self).z_list@,
            !old(self).live(id as int) || width * height > MAX_SURFACE_BUFFER ==> *final(self)
                == *old(self),
            old(self).live(id as int) && width * height <= MAX_SURFACE_BUFFER ==> {
                let s = old(self).surf(id as int);
                &&& final(self).slots@ == old(self).slots@.update(
                    id as int,
                    Some(Surface { width, height, ..s }),
                )
                &&& final(self).dirty_rect == DirtyRect::union_of(
                    DirtyRect::union_of(old(self).dirty_rect, surf_rect(s)),
                    DirtyRect { x: s.x, y: s.y, width, height, valid: true },
                )
            },
    {
        proof {
            assert(width * height <= 480000 * 480000) by (nonlinear_arith)
                requires
                    width <= 480000,
                    height <= 480000,
            ;
        }
        if width as u64 * height as u64 > MAX_SURFACE_BUFFER as u64 {
            return;
        }
        if id >= N_SURF as u32 {
            return;
        }
        let slot: usize = id as usize;
        let (ox, oy, ow, oh): (i32, i32, u32, u32) = match &self.slots[slot] {
            Some(s) => (s.x, s.y, s.width, s.height),
            None => { return; },
        };
        match &mut self.slots[slot] {
            Some(s) => {
                s.width = width;
                s.height = height;
            },
            None => {},
        }
        self.mark_dirty(ox, oy, ow, oh);
        self.mark_dirty(ox, oy, width, height);
        proof {
            assert(self.slots@ =~= old(self).slots@.update(
                slot as int,
                Some(Surface { width, height, ..old(self).surf(slot as int) }),
            ));
        }
    }

    /// Reassigns a surface's z-order and re-sorts stably: its entry
    /// moves past every entry with a strictly smaller z-order and before
    /// every entry with a strictly greater one, keeping its place among
    /// entries whose z-order equals the new one; its rectangle is
    /// unioned into the dirty region.  A dead id changes nothing.
    #[verifier::loop_isolation(false)]
    pub fn set_surface_z_order(&mut self, id: u32, z_order: i32)
        requires
            old(self).wf(),
        ensures
            final(self).wf(),
            Self::pool_op_frame(*old(self), *final(self)),
            !old(self).live(id as int) ==> *final(self) == *old(self),
            old(self).live(id as int) ==> {
                let s = old(self).surf(id as int);
                let mid = old(self).z_list@.remove(old(self).z_index_of(id as int));
                &&& final(self).slots@ == old(self).slots@.update(
                    id as int,
                    Some(Surface { z_order, ..s }),
                )
                &&& final(self).z_list@ == mid.insert(
                    final(self).z_reinsert_pos(
                        mid,
                        old(self).z_index_of(id as int),
                        z_order as int,
                    ),
                    id as usize,
                )
                &&& final(self).dirty_rect == DirtyRect::union_of(
                    old(self).dirty_rect,
                    surf_rect(s),
                )
            },
    {
        if id >= N_SURF as u32 {
            return;
        }
        let slot: usize = id as usize;
        let (sx, sy, sw, sh): (i32, i32, u32, u32) = match &self.slots[slot] {
            Some(s) => (s.x, s.y, s.width, s.height),
            None => { return; },
        };
        self.mark_dirty(sx, sy, sw, sh);
        match &mut self.slots[slot] {
            Some(s) => {
                s.z_order = z_order;
            },
            None => {},
        }
        proof {
            assert(self.slots@ =~= old(self).slots@.update(
                slot as int,
                Some(Surface { z_order, ..old(self).surf(slot as int) }),
            ));
        }
        let len: usize = self.z_list.len();
        let mut k: usize = 0;
        while k < len
            invariant
                len == self.z_list.len(),
                k <= len,
                old(self).wf(),
                self.slots@ == old(self).slots@.update(
                    slot as int,
                    Some(Surface { z_order, ..old(self).surf(slot as int) }),
                ),
                self.slots.len() == N_SURF,
                self.z_list@ == old(self).z_list@,
                self.dirty_rect == DirtyRect::union_of(
                    old(self).dirty_rect,
                    surf_rect(old(self).surf(slot as int)),
                ),
                Self::pool_op_frame(*old(self), *self),
                self.dirty_rect.in_bounds(),
                self.wf_fb(),
                self.wf_cursor(),
                forall|j: int| 0 <= j < k ==> #[trigger] self.z_list@[j] != slot,
            decreases len - k,
        {
            if self.z_list[k] == slot {
                proof {
                    assert(old(self).z_index_of(slot as int) == k as int);
                }
                self.z_list.remove(k);
                let lo: usize = self.find_z_lower_pos(z_order);
                let hi: usize = self.find_z_insert_pos(z_order);
                let pos: usize = if k < lo {
                    lo
                } else if k > hi {
                    hi
                } else {
                    k
                };
                proof {
                    old(self).z_list@.remove_ensures(k as int);
                    self.lemma_z_insert_pos_in(self.z_list@, 0, z_order as int);
                    self.lemma_z_insert_pos_in(self.z_list@, 0, z_order as int - 1);
                }
                let ghost mid_ds: DisplayServer = *self;
                self.z_list.insert(pos, slot);
                proof {
                    self.lemma_pool_wf_after_reinsert(
                        *old(self),
                        mid_ds,
                        slot as int,
                        k as int,
                        lo as int,
                        hi as int,
                        pos as int,
                    );
                    self.lemma_z_pos_same(mid_ds, mid_ds.z_list@, 0, z_order as int);
                    self.lemma_z_pos_same(mid_ds, mid_ds.z_list@, 0, z_order as int - 1);
                }
                return;
            }
            k = k + 1;
        }
        proof {
            let k0 = choose|k0: int|
                0 <= k0 < old(self).z_list.len() && #[trigger] old(self).z_list@[k0]
                    == slot as usize;
            assert(false);
        }
    }

    /// After taking one slot out of the z-list, updating its z-order and
    /// reinserting it at the stable position, the pool invariant holds
    /// again.
    #[verifier::rlimit(100)]
    #[verifier::spinoff_prover]
    proof fn lemma_pool_wf_after_reinsert(
        self,
        pre: DisplayServer,
        mid: DisplayServer,
        slot: int,
        k: int,
        lo: int,
        hi: int,
        pos: int,
    )
        requires
            pre.wf_pool(),
            0 <= slot < N_SURF,
            pre.slots@[slot] is Some,
            0 <= k < pre.z_list.len(),
            pre.z_list@[k] == slot,
            mid.slots@ == self.slots@,
            mid.slots@ == pre.slots@.update(slot, Some(self.surf(slot))),
            self.surf(slot).wf(),
            self.surf(slot).id == slot,
            self.slots.len() == N_SURF,
            mid.z_list@ == pre.z_list@.remove(k),
            lo == mid.z_insert_pos(self.slot_z(slot) - 1),
            hi == mid.z_insert_pos(self.slot_z(slot)),
            pos == (if k < lo {
                lo
            } else if k > hi {
                hi
            } else {
                k
            }),
            self.z_list@ == mid.z_list@.insert(pos, slot as usize),
        ensures
            self.wf_pool(),
    {
        let pzl = pre.z_list@;
        let ml = mid.z_list@;
        let zl = self.z_list@;
        let z = self.slot_z(slot);
        pzl.remove_ensures(k);
        assert forall|j: int| 0 <= j < ml.len() implies (#[trigger] ml[j]) != slot && self.live(
            ml[j] as int,
        ) && self.slot_z(ml[j] as int) == pre.slot_z(ml[j] as int) by {
            let j0 = if j < k {
                j
            } else {
                j + 1
            };
            assert(ml[j] == pzl[j0]);
            assert(pre.live(pzl[j0] as int));
            assert(pzl[j0] != pzl[k]);
        }
        assert forall|a: int, b: int| 0 <= a < b < ml.len() implies (#[trigger] ml[a])
            != (#[trigger] ml[b]) by {
            let a0 = if a < k {
                a
            } else {
                a + 1
            };
            let b0 = if b < k {
                b
            } else {
                b + 1
            };
            assert(ml[a] == pzl[a0] && ml[b] == pzl[b0]);
        }
        assert forall|a: int, b: int| 0 <= a <= b < ml.len() implies self.slot_z(
            (#[trigger] ml[a]) as int,
        ) <= self.slot_z((#[trigger] ml[b]) as int) by {
            let a0 = if a < k {
                a
            } else {
                a + 1
            };
            let b0 = if b < k {
                b
            } else {
                b + 1
            };
            assert(ml[a] == pzl[a0] && ml[b] == pzl[b0]);
            assert(pre.slot_z(pzl[a0] as int) <= pre.slot_z(pzl[b0] as int));
        }
        mid.lemma_z_insert_pos(z);
        mid.lemma_z_insert_pos(z - 1);
        assert(lo <= hi) by {
            if lo > hi {
                assert(mid.slot_z(ml[hi] as int) > z);
                assert(mid.slot_z(ml[hi] as int) <= z - 1);
            }
        }
        assert(lo <= pos <= hi);
        assert(forall|j: int|
            0 <= j < pos ==> self.slot_z((#[trigger] ml[j]) as int) <= z);
        assert forall|j: int| pos <= j < ml.len() implies self.slot_z(
            (#[trigger] ml[j]) as int,
        ) >= z by {
            assert(mid.slot_z(ml[lo] as int) > z - 1);
            assert(self.slot_z(ml[lo] as int) <= self.slot_z(ml[j] as int));
        }
        ml.insert_ensures(pos, slot as usize);
        assert forall|j: int| 0 <= j < zl.len() implies self.live((#[trigger] zl[j]) as int) by {
            if j != pos {
                let j0 = if j < pos {
                    j
                } else {
                    j - 1
                };
                assert(zl[j] == ml[j0]);
            }
        }
        assert forall|a: int, b: int| 0 <= a < b < zl.len() implies (#[trigger] zl[a])
            != (#[trigger] zl[b]) by {
            if a != pos && b != pos {
                let a0 = if a < pos {
                    a
                } else {
                    a - 1
                };
                let b0 = if b < pos {
                    b
                } else {
                    b - 1
                };
                assert(zl[a] == ml[a0] && zl[b] == ml[b0]);
            } else if a == pos {
                assert(zl[b] == ml[b - 1]);
            } else {
                assert(zl[a] == ml[a]);
            }
        }
        assert forall|a: int, b: int| 0 <= a <= b < zl.len() implies self.slot_z(
            (#[trigger] zl[a]) as int,
        ) <= self.slot_z((#[trigger] zl[b]) as int) by {
            if a == pos && b == pos {
            } else if a == pos {
                assert(zl[b] == ml[b - 1] && b - 1 >= pos);
                assert(self.slot_z(ml[b - 1] as int) >= z);
            } else if b == pos {
                assert(zl[a] == ml[a] && a < pos);
            } else {
                let a0 = if a < pos {
                    a
                } else {
                    a - 1
                };
                let b0 = if b < pos {
                    b
                } else {
                    b - 1
                };
                assert(zl[a] == ml[a0] && zl[b] == ml[b0]);
                if a < pos && b > pos {
                    assert(self.slot_z(ml[a0] as int) <= z);
                    assert(self.slot_z(ml[b0] as int) >= z);
                }
            }
        }
        assert forall|i: int|
            0 <= i < N_SURF && (#[trigger] self.slots@[i]) is Some implies exists|kk: int|
            0 <= kk < zl.len() && #[trigger] zl[kk] == i by {
            if i == slot {
                assert(zl[pos] == slot as usize);
            } else {
                assert(pre.slots@[i] is Some);
                let k0 = choose|k0: int| 0 <= k0 < pzl.len() && #[trigger] pzl[k0] == i;
                let k1 = if k0 < k {
                    k0
                } else {
                    k0 - 1
                };
                assert(ml[k1] == pzl[k0]);
                if k1 < pos {
                    assert(zl[k1] == i);
                } else {
                    assert(zl[k1 + 1] == i);
                }
            }
        }
    }

    /// Two states with the same slots compute the same insertion
    /// positions over any one list.
    proof fn lemma_z_pos_same(self, other: DisplayServer, list: Seq<usize>, k: int, z: int)
        requires
            self.slots@ == other.slots@,
        ensures
            self.z_insert_pos_in(list, k, z) == other.z_insert_pos_in(list, k, z),
        decreases list.len() - k,
    {
        if 0 <= k < list.len() {
            self.lemma_z_pos_same(other, list, k + 1, z);
        }
    }


    /// The desktop background pixel at `(px, py)`: the nearest-neighbour
    /// sample of the wallpaper scaled to the screen, or the solid desktop
    /// color.
    pub open spec fn desktop_pixel(self, px: int, py: int) -> u32 {
        if self.has_wallpaper && self.wallpaper_width > 0 && self.wallpaper_height > 0 {
            let sx = px * self.wallpaper_width / self.fb_width as int;
            let sy = py * self.wallpaper_height / self.fb_height as int;
            self.wallpaper@[sy * self.wallpaper_width + sx]
        } else {
            self.desktop_color
        }
    }

    /// What the bottom-to-top overlay of the first `k` surfaces of the
    /// z-ordered list shows at `(px, py)`: the pixel of the last of them
    /// covering the point, or the desktop background.
    pub open spec fn composite_prefix(self, k: int, px: int, py: int) -> u32
        decreases k,
    {
        if k <= 0 {
            self.desktop_pixel(px, py)
        } else {
            let s = self.surf(self.z_list@[k - 1] as int);
            if s.covers(px, py) && s.z_order > MINIMIZED_Z_BAND {
                s.pixel_at(px, py)
            } else {
                self.composite_prefix(k - 1, px, py)
            }
        }
    }

    /// What the full bottom-to-top overlay of every surface shows at
    /// `(px, py)`.
    pub open spec fn composite(self, px: int, py: int) -> u32 {
        self.composite_prefix(self.z_list.len() as int, px, py)
    }

    /// Two states with the same surfaces, stacking order and desktop
    /// parameters compose the same pixels.
    pub proof fn lemma_composite_same(a: DisplayServer, b: DisplayServer, k: int, px: int, py: int)
        requires
            a.z_list@ == b.z_list@,
            a.slots@ == b.slots@,
            a.desktop_color == b.desktop_color,
            a.wallpaper@ == b.wallpaper@,
            a.wallpaper_width == b.wallpaper_width,
            a.wallpaper_height == b.wallpaper_height,
            a.has_wallpaper == b.has_wallpaper,
            a.fb_width == b.fb_width,
            a.fb_height == b.fb_height,
        ensures
            a.composite_prefix(k, px, py) == b.composite_prefix(k, px, py),
        decreases k,
    {
        if k > 0 {
            Self::lemma_composite_same(a, b, k - 1, px, py);
        }
    }

    /// Fills the whole backbuffer with the desktop color.
    pub fn clear_backbuffer(&mut self)
        requires
            old(self).wf(),
        ensures
            final(self).wf(),
            *final(self) == (DisplayServer { backbuffer: final(self).backbuffer, ..*old(self) }),
            final(self).backbuffer.len() == old(self).backbuffer.len(),
            forall|i: int|
                0 <= i < old(self).backbuffer.len() ==> final(self).backbuffer@[i] == old(self).desktop_color,
    {
        let w: u32 = self.fb_width;
        let h: u32 = self.fb_height;
        let color: u32 = self.desktop_color;
        gpu::clear(&mut self.backbuffer, w, h, color);
    }

    /// Whether a surface's rectangle intersects the given dirty
    /// rectangle.
    pub fn surface_overlaps_dirty(&self, id: u32, dirty: &DirtyRect) -> (r: bool)
        requires
            self.wf(),
            self.live(id as int),
            dirty.in_bounds(),
        ensures
            ({
                let s = self.surf(id as int);
                r == (dirty.valid && !(s.x + s.width <= dirty.x || s.x >= dirty.x + dirty.width
                    || s.y + s.height <= dirty.y || s.y >= dirty.y + dirty.height))
            }),
            !r ==> forall|px: int, py: int|
                !(#[trigger] self.surf(id as int).covers(px, py) && dirty.covers(px, py)),
    {
        if !dirty.valid {
            return false;
        }
        let (sx, sy, sw, sh): (i32, i32, u32, u32) = match &self.slots[id as usize] {
            Some(s) => (s.x, s.y, s.width, s.height),
            None => { return false; },
        };
        let overlap: bool = !(sx + sw as i32 <= dirty.x || sx >= dirty.x + dirty.width as i32
            || sy + sh as i32 <= dirty.y || sy >= dirty.y + dirty.height as i32);
        overlap
    }

    /// Paints the desktop background into the backbuffer within the
    /// given rectangle, clipped to the screen: wallpaper samples when one
    /// is installed, the solid desktop color otherwise.  Pixels outside
    /// the clipped rectangle keep their value.
    #[verifier::loop_isolation(false)]
    pub fn render_desktop_to_backbuffer(&mut self, dirty: &DirtyRect)
        requires
            old(self).wf(),
            dirty.in_bounds(),
        ensures
            final(self).wf(),
            *final(self) == (DisplayServer { backbuffer: final(self).backbuffer, ..*old(self) }),
            final(self).backbuffer.len() == old(self).backbuffer.len(),
            forall|px: int, py: int|
                0 <= px < old(self).fb_width && 0 <= py < old(self).fb_height ==> #[trigger] pix(
                    final(self).backbuffer@,
                    old(self).fb_width as int,
                    px,
                    py,
                ) == if dirty.covers(px, py) {
                    old(self).desktop_pixel(px, py)
                } else {
                    pix(old(self).backbuffer@, old(self).fb_width as int, px, py)
                },
    {
        if !dirty.valid {
            return;
        }
        let bbw: u32 = self.fb_width;
        let bbh: u32 = self.fb_height;
        let x0: i32 = if dirty.x > 0 { dirty.x } else { 0 };
        let y0: i32 = if dirty.y > 0 { dirty.y } else { 0 };
        let xe: i32 = dirty.x + dirty.width as i32;
        let ye: i32 = dirty.y + dirty.height as i32;
        let x1: i32 = if xe < bbw as i32 { xe } else { bbw as i32 };
        let y1: i32 = if ye < bbh as i32 { ye } else { bbh as i32 };
        if x1 <= x0 || y1 <= y0 {
            proof {
                self.lemma_bb_grid();
            }
            return;
        }
        proof {
            self.lemma_bb_grid();
        }
        if self.has_wallpaper && self.wallpaper_width > 0 && self.wallpaper_height > 0 {
            let wpw: u32 = self.wallpaper_width;
            let wph: u32 = self.wallpaper_height;
            let mut py: i32 = y0;
            while py < y1
                invariant
                    old(self).wf(),
                    *self == (DisplayServer { backbuffer: self.backbuffer, ..*old(self) }),
                    self.backbuffer.len() == old(self).backbuffer.len(),
                    y0 <= py <= y1,
                    forall|qx: int, qy: int|
                        0 <= qx < bbw && 0 <= qy < bbh ==> #[trigger] pix(
                            self.backbuffer@,
                            bbw as int,
                            qx,
                            qy,
                        ) == if x0 <= qx < x1 && y0 <= qy < py {
                            old(self).desktop_pixel(qx, qy)
                        } else {
                            pix(old(self).backbuffer@, bbw as int, qx, qy)
                        },
                decreases y1 - py,
            {
                let mut px: i32 = x0;
                while px < x1
                    invariant
                        old(self).wf(),
                        *self == (DisplayServer { backbuffer: self.backbuffer, ..*old(self) }),
                        self.backbuffer.len() == old(self).backbuffer.len(),
                        y0 <= py < y1,
                        x0 <= px <= x1,
                        forall|qx: int, qy: int|
                            0 <= qx < bbw && 0 <= qy < bbh ==> #[trigger] pix(
                                self.backbuffer@,
                                bbw as int,
                                qx,
                                qy,
                            ) == if (x0 <= qx < x1 && y0 <= qy < py) || (qy == py && x0 <= qx
                                < px) {
                                old(self).desktop_pixel(qx, qy)
                            } else {
                                pix(old(self).backbuffer@, bbw as int, qx, qy)
                            },
                    decreases x1 - px,
                {
                    proof {
                        lemma_mul_strict_inequality(px as int, bbw as int, wpw as int);
                        assert(px * wpw < bbw * wpw);
                        assert(bbw * wpw <= 8192 * 1920) by (nonlinear_arith)
                            requires
                                0 <= bbw <= 8192,
                                0 <= wpw <= 1920,
                        ;
                        lemma_multiply_divide_lt(px * wpw, bbw as int, wpw as int);
                        lemma_mul_strict_inequality(py as int, bbh as int, wph as int);
                        assert(py * wph < bbh * wph);
                        assert(bbh * wph <= 4096 * 1080) by (nonlinear_arith)
                            requires
                                0 <= bbh <= 4096,
                                0 <= wph <= 1080,
                        ;
                        lemma_multiply_divide_lt(py * wph, bbh as int, wph as int);
                        assert(0 <= px * wpw) by (nonlinear_arith)
                            requires
                                0 <= px,
                                0 <= wpw,
                        ;
                        assert(0 <= py * wph) by (nonlinear_arith)
                            requires
                                0 <= py,
                                0 <= wph,
                        ;
                        vstd::arithmetic::div_mod::lemma_div_is_ordered(
                            0,
                            px * wpw,
                            bbw as int,
                        );
                        vstd::arithmetic::div_mod::lemma_div_is_ordered(
                            0,
                            py * wph,
                            bbh as int,
                        );
                        assert(((py * wph) / (bbh as int) + 1) * wpw <= wph * wpw)
                            by (nonlinear_arith)
                            requires
                                (py * wph) / (bbh as int) < wph,
                                0 <= wpw,
                        ;
                        assert(wph * wpw <= 1080 * 1920) by (nonlinear_arith)
                            requires
                                0 <= wph <= 1080,
                                0 <= wpw <= 1920,
                        ;
                        gpu::lemma_cell_in_range(
                            MAX_WALLPAPER_SIZE as int,
                            wpw as int,
                            (px * wpw) / (bbw as int),
                            (py * wph) / (bbh as int),
                        );
                        self.lemma_bb_cell(px as int, py as int);
                    }
                    let sx: usize = (px as usize * wpw as usize) / bbw as usize;
                    let sy: usize = (py as usize * wph as usize) / bbh as usize;
                    let src_idx: usize = sy * wpw as usize + sx;
                    let v: u32 = self.wallpaper[src_idx];
                    let idx: usize = py as usize * bbw as usize + px as usize;
                    let ghost prev: DisplayServer = *self;
                    self.backbuffer[idx] = v;
                    proof {
                        self.lemma_bb_pointwise_update(prev, idx as int, px as int, py as int);
                        assert(v == old(self).desktop_pixel(px as int, py as int));
                        assert forall|qx: int, qy: int|
                            0 <= qx < bbw && 0 <= qy < bbh implies #[trigger] pix(
                            self.backbuffer@,
                            bbw as int,
                            qx,
                            qy,
                        ) == if (x0 <= qx < x1 && y0 <= qy < py) || (qy == py && x0 <= qx
                            < px + 1) {
                            old(self).desktop_pixel(qx, qy)
                        } else {
                            pix(old(self).backbuffer@, bbw as int, qx, qy)
                        } by {
                            if !(qx == px && qy == py) {
                                assert(pix(self.backbuffer@, bbw as int, qx, qy) == pix(
                                    prev.backbuffer@,
                                    bbw as int,
                                    qx,
                                    qy,
                                ));
                            }
                        }
                    }
                    px = px + 1;
                }
                py = py + 1;
            }
        } else {
            let color: u32 = self.desktop_color;
            proof {
                lemma_mul_inequality(y1 as int, bbh as int, bbw as int);
                assert(bbh * bbw == bbw * bbh) by (nonlinear_arith);
            }
            gpu::fill_rect(
                &mut self.backbuffer,
                bbw,
                x0,
                y0,
                (x1 - x0) as u32,
                (y1 - y0) as u32,
                color,
            );
            proof {
                assert forall|qx: int, qy: int| 0 <= qx < bbw && 0 <= qy < bbh implies #[trigger] pix(
                    self.backbuffer@,
                    bbw as int,
                    qx,
                    qy,
                ) == if dirty.covers(qx, qy) {
                    old(self).desktop_pixel(qx, qy)
                } else {
                    pix(old(self).backbuffer@, bbw as int, qx, qy)
                } by {
                    self.lemma_bb_cell(qx, qy);
                    lemma_mul_inequality(qy + 1, bbh as int, bbw as int);
                    assert(gpu::grid(old(self).backbuffer.len() as int, bbw as int, qx, qy));
                }
            }
        }
    }

    /// Every screen cell lies in the backbuffer's whole-row grid.
    proof fn lemma_bb_grid(self)
        requires
            self.wf_fb(),
        ensures
            forall|qx: int, qy: int|
                0 <= qx < self.fb_width && 0 <= qy < self.fb_height ==> gpu::grid(
                    self.backbuffer.len() as int,
                    self.fb_width as int,
                    qx,
                    qy,
                ),
            gpu::full_rows(self.backbuffer.len() as int, self.fb_width as int)
                == self.fb_height as int,
    {
        assert forall|qx: int, qy: int|
            0 <= qx < self.fb_width && 0 <= qy < self.fb_height implies gpu::grid(
            self.backbuffer.len() as int,
            self.fb_width as int,
            qx,
            qy,
        ) by {
            lemma_mul_inequality(qy + 1, self.fb_height as int, self.fb_width as int);
            assert(self.fb_height * self.fb_width == self.fb_width * self.fb_height)
                by (nonlinear_arith);
        }
        lemma_div_by_multiple(self.fb_height as int, self.fb_width as int);
        assert(self.fb_height * self.fb_width == self.fb_width * self.fb_height)
            by (nonlinear_arith);
    }

    /// A screen cell's flat backbuffer index is in range.
    proof fn lemma_bb_cell(self, qx: int, qy: int)
        requires
            self.wf_fb(),
            0 <= qx < self.fb_width,
            0 <= qy < self.fb_height,
        ensures
            0 <= qy * self.fb_width + qx < self.backbuffer.len(),
            gpu::grid(self.backbuffer.len() as int, self.fb_width as int, qx, qy),
    {
        self.lemma_bb_grid();
        gpu::lemma_cell_in_range(self.backbuffer.len() as int, self.fb_width as int, qx, qy);
    }

    /// Writing one screen cell of the backbuffer moves exactly that
    /// cell's pixel.
    proof fn lemma_bb_pointwise_update(self, pre: DisplayServer, idx: int, px: int, py: int)
        requires
            pre.wf_fb(),
            self.fb_width == pre.fb_width,
            self.fb_height == pre.fb_height,
            0 <= px < pre.fb_width,
            0 <= py < pre.fb_height,
            idx == py * pre.fb_width + px,
            0 <= idx < pre.backbuffer.len(),
            self.backbuffer@ == pre.backbuffer@.update(idx, self.backbuffer@[idx]),
        ensures
            forall|qx: int, qy: int|
                0 <= qx < pre.fb_width && 0 <= qy < pre.fb_height && !(qx == px && qy == py)
                    ==> #[trigger] pix(self.backbuffer@, pre.fb_width as int, qx, qy) == pix(
                    pre.backbuffer@,
                    pre.fb_width as int,
                    qx,
                    qy,
                ),
            pix(self.backbuffer@, pre.fb_width as int, px, py) == self.backbuffer@[idx],
    {
        assert forall|qx: int, qy: int|
            0 <= qx < pre.fb_width && 0 <= qy < pre.fb_height && !(qx == px && qy == py)
            implies #[trigger] pix(self.backbuffer@, pre.fb_width as int, qx, qy) == pix(
            pre.backbuffer@,
            pre.fb_width as int,
            qx,
            qy,
        ) by {
            pre.lemma_bb_cell(qx, qy);
            if qy * pre.fb_width + qx == idx {
                let w = pre.fb_width as int;
                assert((py + 1) * w == py * w + w) by (nonlinear_arith);
                assert(0 <= py * w) by (nonlinear_arith)
                    requires
                        0 <= py,
                        0 <= w,
                ;
                gpu::lemma_same_row(w, qx, qy, py);
            }
        }
    }

    /// Copies a surface's visible pixels into the backbuffer: exactly
    /// the intersection of its rectangle with the screen is painted, so
    /// a surface fully off screen paints nothing.  Pixels outside that
    /// intersection keep their value.  A dead id changes nothing.
    #[verifier::rlimit(100)]
    #[verifier::spinoff_prover]
    pub fn render_surface_to_backbuffer(&mut self, id: u32)
        requires
            old(self).wf(),
        ensures
            final(self).wf(),
            *final(self) == (DisplayServer { backbuffer: final(self).backbuffer, ..*old(self) }),
            final(self).backbuffer.len() == old(self).backbuffer.len(),
            !old(self).live(id as int) ==> final(self).backbuffer@ == old(self).backbuffer@,
            old(self).live(id as int) ==> forall|px: int, py: int|
                0 <= px < old(self).fb_width && 0 <= py < old(self).fb_height ==> #[trigger] pix(
                    final(self).backbuffer@,
                    old(self).fb_width as int,
                    px,
                    py,
                ) == if old(self).surf(id as int).covers(px, py) {
                    old(self).surf(id as int).pixel_at(px, py)
                } else {
                    pix(old(self).backbuffer@, old(self).fb_width as int, px, py)
                },
    {
        if id >= N_SURF as u32 {
            return;
        }
        let bbw: u32 = self.fb_width;
        let bbh: u32 = self.fb_height;
        let ghost pre: DisplayServer = *self;
        match &self.slots[id as usize] {
            Some(s) => {
                let x0: i32 = if s.x > 0 { s.x } else { 0 };
                let y0: i32 = if s.y > 0 { s.y } else { 0 };
                let xe: i32 = s.x + s.width as i32;
                let ye: i32 = s.y + s.height as i32;
                let x1: i32 = if xe < bbw as i32 { xe } else { bbw as i32 };
                let y1: i32 = if ye < bbh as i32 { ye } else { bbh as i32 };
                proof {
                    pre.lemma_bb_grid();
                }
                if x1 <= x0 || y1 <= y0 {
                    return;
                }
                let sw: u32 = s.width;
                proof {
                    lemma_mul_inequality(y1 as int, bbh as int, bbw as int);
                    assert(bbh * bbw == bbw * bbh) by (nonlinear_arith);
                    assert(((y0 - s.y) + (y1 - y0)) * sw <= s.height * sw) by (nonlinear_arith)
                        requires
                            y1 - s.y <= s.height,
                            0 <= sw,
                            (y0 - s.y) + (y1 - y0) == y1 - s.y,
                    ;
                    assert(s.height * sw == sw * s.height) by (nonlinear_arith);
                    assert(sw * s.height <= MAX_SURFACE_BUFFER);
                }
                gpu::copy_rect(
                    &mut self.backbuffer,
                    bbw,
                    x0 as u32,
                    y0 as u32,
                    &s.buffer,
                    sw,
                    (x0 - s.x) as u32,
                    (y0 - s.y) as u32,
                    (x1 - x0) as u32,
                    (y1 - y0) as u32,
                );
                proof {
                    let gs = pre.surf(id as int);
                    assert forall|px: int, py: int|
                        0 <= px < bbw && 0 <= py < bbh implies #[trigger] pix(
                        self.backbuffer@,
                        bbw as int,
                        px,
                        py,
                    ) == if gs.covers(px, py) {
                        gs.pixel_at(px, py)
                    } else {
                        pix(pre.backbuffer@, bbw as int, px, py)
                    } by {
                        assert(gpu::grid(pre.backbuffer.len() as int, bbw as int, px, py));
                    }
                }
            },
            None => {},
        }
        proof {
            assert(self.wf_fb());
            assert(self.wf_cursor());
            assert(self.dirty_rect.in_bounds());
            self.lemma_wf_pool_same(*old(self));
        }
    }



    /// The region a frame composites: the whole screen when a full
    /// redraw is pending or the desktop was never painted, else the
    /// accumulated dirty rectangle.
    pub open spec fn frame_dirty(self) -> DirtyRect {
        if self.full_redraw || !self.desktop_cleared {
            DirtyRect { x: 0, y: 0, width: self.fb_width, height: self.fb_height, valid: true }
        } else {
            self.dirty_rect
        }
    }

    /// The region a frame flushes to the framebuffer: the composited
    /// region, grown by the cursor envelope (clamped to the screen
    /// origin) when the cursor lies on screen.
    pub open spec fn flush_rect(self) -> DirtyRect {
        let d0 = self.frame_dirty();
        if self.cursor_on_screen() {
            DirtyRect::union_of(
                d0,
                DirtyRect {
                    x: if self.mouse_x >= 1 { (self.mouse_x - 1) as i32 } else { 0 },
                    y: if self.mouse_y >= 1 { (self.mouse_y - 1) as i32 } else { 0 },
                    width: CURSOR_BACKUP_W,
                    height: CURSOR_BACKUP_H,
                    valid: true,
                },
            )
        } else {
            d0
        }
    }

    /// Every framebuffer cell lies in its whole-row grid under the
    /// scanline pitch.
    proof fn lemma_fb_grid(self)
        requires
            self.wf_fb(),
        ensures
            forall|qx: int, qy: int|
                0 <= qx < self.fb_pitch && 0 <= qy < self.fb_height ==> gpu::grid(
                    self.framebuffer.len() as int,
                    self.fb_pitch as int,
                    qx,
                    qy,
                ),
            gpu::full_rows(self.framebuffer.len() as int, self.fb_pitch as int)
                == self.fb_height as int,
    {
        assert forall|qx: int, qy: int|
            0 <= qx < self.fb_pitch && 0 <= qy < self.fb_height implies gpu::grid(
            self.framebuffer.len() as int,
            self.fb_pitch as int,
            qx,
            qy,
        ) by {
            lemma_mul_inequality(qy + 1, self.fb_height as int, self.fb_pitch as int);
            assert(self.fb_height * self.fb_pitch == self.fb_pitch * self.fb_height)
                by (nonlinear_arith);
        }
        lemma_div_by_multiple(self.fb_height as int, self.fb_pitch as int);
        assert(self.fb_height * self.fb_pitch == self.fb_pitch * self.fb_height)
            by (nonlinear_arith);
    }

    /// Copies the backbuffer to the framebuffer within the given
    /// rectangle, clipped to the screen.  Framebuffer pixels outside the
    /// clipped rectangle keep their value.
    #[verifier::loop_isolation(false)]
    pub fn copy_backbuffer_to_framebuffer(&mut self, dirty: &DirtyRect)
        requires
            old(self).wf(),
            dirty.in_bounds(),
        ensures
            final(self).wf(),
            *final(self) == (DisplayServer { framebuffer: final(self).framebuffer, ..*old(self) }),
            final(self).framebuffer.len() == old(self).framebuffer.len(),
            forall|px: int, py: int|
                0 <= px < old(self).fb_pitch && 0 <= py < old(self).fb_height ==> #[trigger] pix(
                    final(self).framebuffer@,
                    old(self).fb_pitch as int,
                    px,
                    py,
                ) == if px < old(self).fb_width && dirty.covers(px, py) {
                    pix(old(self).backbuffer@, old(self).fb_width as int, px, py)
                } else {
                    pix(old(self).framebuffer@, old(self).fb_pitch as int, px, py)
                },
    {
        if !dirty.valid {
            proof {
                self.lemma_fb_grid();
            }
            return;
        }
        let fbw: u32 = self.fb_width;
        let fbh: u32 = self.fb_height;
        let pitch: u32 = self.fb_pitch;
        let x0: i32 = if dirty.x > 0 { dirty.x } else { 0 };
        let y0: i32 = if dirty.y > 0 { dirty.y } else { 0 };
        let xe: i32 = dirty.x + dirty.width as i32;
        let ye: i32 = dirty.y + dirty.height as i32;
        let x1: i32 = if xe < fbw as i32 { xe } else { fbw as i32 };
        let y1: i32 = if ye < fbh as i32 { ye } else { fbh as i32 };
        proof {
            self.lemma_fb_grid();
            self.lemma_bb_grid();
        }
        if x1 <= x0 || y1 <= y0 {
            return;
        }
        proof {
            lemma_mul_inequality(y1 as int, fbh as int, pitch as int);
            assert(fbh * pitch == pitch * fbh) by (nonlinear_arith);
            lemma_mul_inequality(y1 as int, fbh as int, fbw as int);
            assert(fbh * fbw == fbw * fbh) by (nonlinear_arith);
        }
        let ghost pre: DisplayServer = *self;
        gpu::copy_rect(
            &mut self.framebuffer,
            pitch,
            x0 as u32,
            y0 as u32,
            &self.backbuffer,
            fbw,
            x0 as u32,
            y0 as u32,
            (x1 - x0) as u32,
            (y1 - y0) as u32,
        );
        proof {
            assert forall|px: int, py: int|
                0 <= px < pitch && 0 <= py < fbh implies #[trigger] pix(
                self.framebuffer@,
                pitch as int,
                px,
                py,
            ) == if px < fbw && dirty.covers(px, py) {
                pix(pre.backbuffer@, fbw as int, px, py)
            } else {
                pix(pre.framebuffer@, pitch as int, px, py)
            } by {
                assert(gpu::grid(pre.framebuffer.len() as int, pitch as int, px, py));
            }
            self.lemma_wf_pool_same(*old(self));
        }
    }

    /// Renders one frame: paints the background and every intersecting
    /// surface, bottom to top, into the backbuffer within the frame's
    /// dirty region, overlays the cursor, flushes the result to the
    /// framebuffer and clears the dirty rectangle.  Afterwards, within
    /// the composited region and away from the cursor envelopes, the
    /// backbuffer shows the exact bottom-to-top overlay of desktop and
    /// surfaces, and the flushed framebuffer region equals the
    /// backbuffer.
    #[verifier::loop_isolation(false)]
    #[verifier::rlimit(100)]
    #[verifier::spinoff_prover]
    pub fn render(&mut self)
        requires
            old(self).wf(),
        ensures
            final(self).wf(),
            !final(self).dirty_rect.valid,
            final(self).slots@ == old(self).slots@,
            final(self).z_list@ == old(self).z_list@,
            final(self).mouse_x == old(self).mouse_x,
            final(self).mouse_y == old(self).mouse_y,
            final(self).fb_width == old(self).fb_width,
            final(self).fb_height == old(self).fb_height,
            final(self).fb_pitch == old(self).fb_pitch,
            final(self).desktop_color == old(self).desktop_color,
            final(self).wallpaper@ == old(self).wallpaper@,
            final(self).wallpaper_width == old(self).wallpaper_width,
            final(self).wallpaper_height == old(self).wallpaper_height,
            final(self).has_wallpaper == old(self).has_wallpaper,
            final(self).desktop_cleared,
            !final(self).full_redraw,
            final(self).backbuffer.len() == old(self).backbuffer.len(),
            final(self).framebuffer.len() == old(self).framebuffer.len(),
            forall|qx: int, qy: int|
                0 <= qx < old(self).fb_width && 0 <= qy < old(self).fb_height && old(
                    self,
                ).frame_dirty().covers(qx, qy) && !(old(self).cursor_restore_happens()
                    && cursor_env(old(self).last_cursor_x as int, old(self).last_cursor_y as int).covers(
                    qx,
                    qy,
                )) && !(old(self).cursor_on_screen() && (cursor_lit(
                    qx - old(self).mouse_x,
                    qy - old(self).mouse_y,
                ) || cursor_outlined(qx - old(self).mouse_x, qy - old(self).mouse_y)))
                    ==> #[trigger] pix(final(self).backbuffer@, old(self).fb_width as int, qx, qy)
                    == old(self).composite(qx, qy),
            old(self).cursor_on_screen() ==> {
                &&& final(self).cursor_backup_valid
                &&& final(self).last_cursor_x == old(self).mouse_x
                &&& final(self).last_cursor_y == old(self).mouse_y
                &&& forall|qx: int, qy: int|
                    0 <= qx < old(self).fb_width && 0 <= qy < old(self).fb_height && cursor_lit(
                        qx - old(self).mouse_x,
                        qy - old(self).mouse_y,
                    ) ==> #[trigger] pix(final(self).backbuffer@, old(self).fb_width as int, qx, qy)
                        == CURSOR_COLOR
                &&& forall|qx: int, qy: int|
                    0 <= qx < old(self).fb_width && 0 <= qy < old(self).fb_height && !cursor_lit(
                        qx - old(self).mouse_x,
                        qy - old(self).mouse_y,
                    ) && cursor_outlined(qx - old(self).mouse_x, qy - old(self).mouse_y)
                        ==> #[trigger] pix(final(self).backbuffer@, old(self).fb_width as int, qx, qy)
                        == CURSOR_OUTLINE_COLOR
            },
            !old(self).cursor_on_screen() ==> final(self).last_cursor_x == old(self).last_cursor_x
                && final(self).last_cursor_y == old(self).last_cursor_y,
            old(self).cursor_restore_happens() && old(self).cursor_backup_valid ==> forall|
                qx: int,
                qy: int,
            |
                0 <= qx < old(self).fb_width && 0 <= qy < old(self).fb_height && cursor_env(
                    old(self).last_cursor_x as int,
                    old(self).last_cursor_y as int,
                ).covers(qx, qy) && !(old(self).cursor_on_screen() && (cursor_lit(
                    qx - old(self).mouse_x,
                    qy - old(self).mouse_y,
                ) || cursor_outlined(qx - old(self).mouse_x, qy - old(self).mouse_y)))
                    ==> #[trigger] pix(final(self).backbuffer@, old(self).fb_width as int, qx, qy)
                    == old(self).cursor_backup@[Self::backup_index(
                    old(self).last_cursor_x as int,
                    old(self).last_cursor_y as int,
                    qx,
                    qy,
                )],
            old(self).cursor_on_screen() ==> forall|c: int, r: int|
                0 <= c < CURSOR_BACKUP_W && 0 <= r < CURSOR_BACKUP_H && ({
                    let qx = old(self).mouse_x - 1 + c;
                    let qy = old(self).mouse_y - 1 + r;
                    &&& 0 <= qx < old(self).fb_width
                    &&& 0 <= qy < old(self).fb_height
                    &&& old(self).frame_dirty().covers(qx, qy)
                    &&& !(old(self).cursor_restore_happens() && cursor_env(
                        old(self).last_cursor_x as int,
                        old(self).last_cursor_y as int,
                    ).covers(qx, qy))
                }) ==> #[trigger] final(self).cursor_backup@[r * CURSOR_BACKUP_W + c] == old(
                    self,
                ).composite(old(self).mouse_x - 1 + c, old(self).mouse_y - 1 + r),
            forall|px: int, py: int|
                0 <= px < old(self).fb_pitch && 0 <= py < old(self).fb_height ==> #[trigger] pix(
                    final(self).framebuffer@,
                    old(self).fb_pitch as int,
                    px,
                    py,
                ) == if px < old(self).fb_width && old(self).flush_rect().covers(px, py) {
                    pix(final(self).backbuffer@, old(self).fb_width as int, px, py)
                } else {
                    pix(old(self).framebuffer@, old(self).fb_pitch as int, px, py)
                },
    {
        let fbw: u32 = self.fb_width;
        let fbh: u32 = self.fb_height;
        let needs_full: bool = self.full_redraw || !self.desktop_cleared;
        if needs_full {
            self.clear_backbuffer();
            self.desktop_cleared = true;
            self.full_redraw = false;
            self.dirty_rect = DirtyRect { x: 0, y: 0, width: fbw, height: fbh, valid: true };
        }
        let dirty_copy: DirtyRect = self.dirty_rect;
        proof {
            assert(dirty_copy == old(self).frame_dirty());
        }
        if dirty_copy.valid {
            self.render_desktop_to_backbuffer(&dirty_copy);
            let n: usize = self.z_list.len();
            let mut k: usize = 0;
            while k < n
                invariant
                    k <= n,
                    n == self.z_list.len(),
                    self.wf(),
                    self.z_list@ == old(self).z_list@,
                    self.slots@ == old(self).slots@,
                    self.fb_width == fbw,
                    self.fb_height == fbh,
                    self.fb_pitch == old(self).fb_pitch,
                    self.framebuffer@ == old(self).framebuffer@,
                    self.desktop_color == old(self).desktop_color,
                    self.wallpaper@ == old(self).wallpaper@,
                    self.wallpaper_width == old(self).wallpaper_width,
                    self.wallpaper_height == old(self).wallpaper_height,
                    self.has_wallpaper == old(self).has_wallpaper,
                    self.mouse_x == old(self).mouse_x,
                    self.mouse_y == old(self).mouse_y,
                    self.last_cursor_x == old(self).last_cursor_x,
                    self.last_cursor_y == old(self).last_cursor_y,
                    self.cursor_backup@ == old(self).cursor_backup@,
                    self.cursor_backup_valid == old(self).cursor_backup_valid,
                    self.dirty_rect == dirty_copy,
                    self.desktop_cleared,
                    !self.full_redraw,
                    self.backbuffer.len() == old(self).backbuffer.len(),
                    forall|qx: int, qy: int|
                        0 <= qx < fbw && 0 <= qy < fbh && dirty_copy.covers(qx, qy)
                            ==> #[trigger] pix(self.backbuffer@, fbw as int, qx, qy) == old(
                            self,
                        ).composite_prefix(k as int, qx, qy),
                decreases n - k,
            {
                let slot: usize = self.z_list[k];
                let ghost before: DisplayServer = *self;
                let above_band: bool = match &self.slots[slot] {
                    Some(s) => s.z_order > MINIMIZED_Z_BAND,
                    None => false,
                };
                if above_band && self.surface_overlaps_dirty(slot as u32, &dirty_copy) {
                    self.render_surface_to_backbuffer(slot as u32);
                }
                proof {
                    assert(old(self).z_list@[k as int] == slot);
                    assert(old(self).surf(slot as int) == self.surf(slot as int));
                    assert forall|qx: int, qy: int|
                        0 <= qx < fbw && 0 <= qy < fbh && dirty_copy.covers(qx, qy)
                        implies #[trigger] pix(self.backbuffer@, fbw as int, qx, qy) == old(
                        self,
                    ).composite_prefix(k + 1, qx, qy) by {
                        assert(pix(before.backbuffer@, fbw as int, qx, qy) == old(
                            self,
                        ).composite_prefix(k as int, qx, qy));
                    }
                }
                k = k + 1;
            }
            proof {
                assert(forall|qx: int, qy: int|
                    0 <= qx < fbw && 0 <= qy < fbh && dirty_copy.covers(qx, qy)
                        ==> #[trigger] pix(self.backbuffer@, fbw as int, qx, qy) == old(
                        self,
                    ).composite(qx, qy));
            }
        }
        self.render_cursor_to_backbuffer();
        let ghost after_cursor: DisplayServer = *self;
        let mx: i32 = self.mouse_x;
        let my: i32 = self.mouse_y;
        if mx >= 0 && my >= 0 && mx < fbw as i32 && my < fbh as i32 {
            let cx: i32 = if mx - 1 > 0 { mx - 1 } else { 0 };
            let cy: i32 = if my - 1 > 0 { my - 1 } else { 0 };
            let cur_rect = DirtyRect {
                x: cx,
                y: cy,
                width: CURSOR_BACKUP_W,
                height: CURSOR_BACKUP_H,
                valid: true,
            };
            let mut merged: DirtyRect = dirty_copy;
            merged.union(&cur_rect);
            self.dirty_rect = merged;
        } else {
            self.dirty_rect = dirty_copy;
        }
        proof {
            assert(self.dirty_rect == old(self).flush_rect());
            self.lemma_wf_pool_same(after_cursor);
            assert(self.wf());
        }
        if self.dirty_rect.valid {
            let flush: DirtyRect = self.dirty_rect;
            self.copy_backbuffer_to_framebuffer(&flush);
        }
        self.dirty_rect.clear();
        proof {
            self.lemma_wf_pool_same(after_cursor);
            assert(self.wf_fb());
            assert(self.wf_cursor());
            assert(self.dirty_rect.in_bounds());
        }
    }

    /// Two states with the same slots and the same z-list have the same
    /// pool invariant.
    proof fn lemma_wf_pool_same(self, other: DisplayServer)
        requires
            other.wf_pool(),
            self.slots@ == other.slots@,
            self.z_list@ == other.z_list@,
        ensures
            self.wf_pool(),
    {
        assert(self.slots.len() == other.slots.len());
        assert(self.z_list.len() == other.z_list.len());
        assert forall|i: int|
            0 <= i < N_SURF && (#[trigger] self.slots@[i]) is Some implies self.surf(i).wf()
            && self.surf(i).id == i by {
            assert(other.slots@[i] is Some);
            assert(self.surf(i) == other.surf(i));
        }
        assert forall|k: int| 0 <= k < self.z_list.len() implies self.live(
            (#[trigger] self.z_list@[k]) as int,
        ) by {
            assert(other.live(other.z_list@[k] as int));
        }
        assert forall|k1: int, k2: int| 0 <= k1 <= k2 < self.z_list.len() implies self.slot_z(
            (#[trigger] self.z_list@[k1]) as int,
        ) <= self.slot_z((#[trigger] self.z_list@[k2]) as int) by {
            assert(other.slot_z(other.z_list@[k1] as int) <= other.slot_z(
                other.z_list@[k2] as int,
            ));
        }
        assert forall|i: int|
            0 <= i < N_SURF && (#[trigger] self.slots@[i]) is Some implies exists|k: int|
            0 <= k < self.z_list.len() && #[trigger] self.z_list@[k] == i by {
            assert(other.slots@[i] is Some);
            let k0 = choose|k0: int|
                0 <= k0 < other.z_list.len() && #[trigger] other.z_list@[k0] == i;
            assert(self.z_list@[k0] == i);
        }
    }


    /// The cursor's desired position lies on the screen.
    pub open spec fn cursor_on_screen(self) -> bool {
        &&& 0 <= self.mouse_x < self.fb_width
        &&& 0 <= self.mouse_y < self.fb_height
    }

    /// A cursor was drawn at a position other than the desired one, so
    /// the next frame restores the pixels under it first.
    pub open spec fn cursor_restore_happens(self) -> bool {
        &&& self.last_cursor_x >= 0
        &&& self.last_cursor_y >= 0
        &&& (self.last_cursor_x != self.mouse_x || self.last_cursor_y != self.mouse_y)
    }

    /// The backup cell index for the screen point `(qx, qy)` under a
    /// cursor envelope anchored at `(x, y)`.
    pub open spec fn backup_index(x: int, y: int, qx: int, qy: int) -> int {
        (qy - (y - 1)) * CURSOR_BACKUP_W + (qx - (x - 1))
    }

    /// What the backbuffer shows at `(qx, qy)` after the stale cursor
    /// was cleared: inside the old envelope the saved backup (or the
    /// desktop color when no backup was held), elsewhere the current
    /// backbuffer pixel.
    pub open spec fn restored_pixel(self, qx: int, qy: int) -> u32 {
        if self.cursor_restore_happens() && cursor_env(
            self.last_cursor_x as int,
            self.last_cursor_y as int,
        ).covers(qx, qy) {
            if self.cursor_backup_valid {
                self.cursor_backup@[Self::backup_index(
                    self.last_cursor_x as int,
                    self.last_cursor_y as int,
                    qx,
                    qy,
                )]
            } else {
                self.desktop_color
            }
        } else {
            pix(self.backbuffer@, self.fb_width as int, qx, qy)
        }
    }

    /// The cursor overlay over a base pixel at `(qx, qy)`: the cursor
    /// fill where the shape covers the point, the outline color where it
    /// touches the outline, the base pixel elsewhere.
    pub open spec fn cursor_overlay(self, base: u32, qx: int, qy: int) -> u32 {
        if self.cursor_on_screen() && cursor_lit(qx - self.mouse_x, qy - self.mouse_y) {
            CURSOR_COLOR
        } else if self.cursor_on_screen() && cursor_outlined(
            qx - self.mouse_x,
            qy - self.mouse_y,
        ) {
            CURSOR_OUTLINE_COLOR
        } else {
            base
        }
    }

    /// Samples the backbuffer under the cursor envelope at `(x, y)` into
    /// the backup buffer; off-screen cells take the desktop color.
    #[verifier::loop_isolation(false)]
    #[verifier::rlimit(100)]
    #[verifier::spinoff_prover]
    pub fn save_cursor_background_from_backbuffer(&mut self, x: i32, y: i32)
        requires
            old(self).wf(),
            -COORD_MAX <= x <= COORD_MAX,
            -COORD_MAX <= y <= COORD_MAX,
        ensures
            final(self).wf(),
            *final(self) == (DisplayServer {
                cursor_backup: final(self).cursor_backup,
                cursor_backup_valid: true,
                ..*old(self)
            }),
            final(self).cursor_backup.len() == old(self).cursor_backup.len(),
            forall|c: int, r: int|
                0 <= c < CURSOR_BACKUP_W && 0 <= r < CURSOR_BACKUP_H ==> #[trigger] final(self).cursor_backup@[r * CURSOR_BACKUP_W + c] == ({
                    let qx = x - 1 + c;
                    let qy = y - 1 + r;
                    if 0 <= qx < old(self).fb_width && 0 <= qy < old(self).fb_height {
                        pix(old(self).backbuffer@, old(self).fb_width as int, qx, qy)
                    } else {
                        old(self).desktop_color
                    }
                }),
    {
        let bbw: u32 = self.fb_width;
        let bbh: u32 = self.fb_height;
        let color: u32 = self.desktop_color;
        let mut r: u32 = 0;
        while r < CURSOR_BACKUP_H
            invariant
                r <= CURSOR_BACKUP_H,
                *self == (DisplayServer { cursor_backup: self.cursor_backup, ..*old(self) }),
                self.cursor_backup.len() == old(self).cursor_backup.len(),
                forall|c2: int, r2: int|
                    0 <= c2 < CURSOR_BACKUP_W && 0 <= r2 < CURSOR_BACKUP_H && r2 < r
                        ==> #[trigger] self.cursor_backup@[r2 * CURSOR_BACKUP_W + c2] == ({
                        let qx = x - 1 + c2;
                        let qy = y - 1 + r2;
                        if 0 <= qx < bbw && 0 <= qy < bbh {
                            pix(old(self).backbuffer@, bbw as int, qx, qy)
                        } else {
                            color
                        }
                    }),
                forall|j: int|
                    r * CURSOR_BACKUP_W <= j < self.cursor_backup.len()
                        ==> #[trigger] self.cursor_backup@[j] == old(self).cursor_backup@[j],
            decreases CURSOR_BACKUP_H - r,
        {
            let mut c: u32 = 0;
            while c < CURSOR_BACKUP_W
                invariant
                    r < CURSOR_BACKUP_H,
                    c <= CURSOR_BACKUP_W,
                    *self == (DisplayServer { cursor_backup: self.cursor_backup, ..*old(self) }),
                    self.cursor_backup.len() == old(self).cursor_backup.len(),
                    forall|c2: int, r2: int|
                        0 <= c2 < CURSOR_BACKUP_W && 0 <= r2 < CURSOR_BACKUP_H && (r2 < r || (r2
                            == r && c2 < c)) ==> #[trigger] self.cursor_backup@[r2
                            * CURSOR_BACKUP_W + c2] == ({
                            let qx = x - 1 + c2;
                            let qy = y - 1 + r2;
                            if 0 <= qx < bbw && 0 <= qy < bbh {
                                pix(old(self).backbuffer@, bbw as int, qx, qy)
                            } else {
                                color
                            }
                        }),
                    forall|j: int|
                        r * CURSOR_BACKUP_W + c <= j < self.cursor_backup.len()
                            ==> #[trigger] self.cursor_backup@[j] == old(self).cursor_backup@[j],
                decreases CURSOR_BACKUP_W - c,
            {
                let qx: i32 = x + c as i32 - 1;
                let qy: i32 = y + r as i32 - 1;
                let bidx: usize = r as usize * CURSOR_BACKUP_W as usize + c as usize;
                let v: u32 = if qx >= 0 && qy >= 0 && qx < bbw as i32 && qy < bbh as i32 {
                    proof {
                        self.lemma_bb_cell(qx as int, qy as int);
                    }
                    self.backbuffer[qy as usize * bbw as usize + qx as usize]
                } else {
                    color
                };
                self.cursor_backup[bidx] = v;
                c = c + 1;
            }
            r = r + 1;
        }
        self.cursor_backup_valid = true;
    }

    /// Writes the saved backup back under the cursor envelope at
    /// `(x, y)`, or paints the envelope with the desktop color when no
    /// backup is held; the backup is forgotten either way.
    #[verifier::loop_isolation(false)]
    #[verifier::rlimit(100)]
    #[verifier::spinoff_prover]
    pub fn clear_cursor_from_backbuffer(&mut self, x: i32, y: i32)
        requires
            old(self).wf(),
            -COORD_MAX <= x <= COORD_MAX,
            -COORD_MAX <= y <= COORD_MAX,
        ensures
            final(self).wf(),
            *final(self) == (DisplayServer {
                backbuffer: final(self).backbuffer,
                cursor_backup_valid: false,
                ..*old(self)
            }),
            final(self).backbuffer.len() == old(self).backbuffer.len(),
            forall|qx: int, qy: int|
                0 <= qx < old(self).fb_width && 0 <= qy < old(self).fb_height ==> #[trigger] pix(
                    final(self).backbuffer@,
                    old(self).fb_width as int,
                    qx,
                    qy,
                ) == if cursor_env(x as int, y as int).covers(qx, qy) {
                    if old(self).cursor_backup_valid {
                        old(self).cursor_backup@[Self::backup_index(x as int, y as int, qx, qy)]
                    } else {
                        old(self).desktop_color
                    }
                } else {
                    pix(old(self).backbuffer@, old(self).fb_width as int, qx, qy)
                },
    {
        let bbw: u32 = self.fb_width;
        let bbh: u32 = self.fb_height;
        let color: u32 = self.desktop_color;
        let valid: bool = self.cursor_backup_valid;
        let mut r: u32 = 0;
        while r < CURSOR_BACKUP_H
            invariant
                r <= CURSOR_BACKUP_H,
                *self == (DisplayServer { backbuffer: self.backbuffer, ..*old(self) }),
                self.backbuffer.len() == old(self).backbuffer.len(),
                forall|qx: int, qy: int|
                    0 <= qx < bbw && 0 <= qy < bbh ==> #[trigger] pix(
                        self.backbuffer@,
                        bbw as int,
                        qx,
                        qy,
                    ) == if cursor_env(x as int, y as int).covers(qx, qy) && qy < y - 1 + r {
                        if valid {
                            old(self).cursor_backup@[Self::backup_index(
                                x as int,
                                y as int,
                                qx,
                                qy,
                            )]
                        } else {
                            color
                        }
                    } else {
                        pix(old(self).backbuffer@, bbw as int, qx, qy)
                    },
            decreases CURSOR_BACKUP_H - r,
        {
            let mut c: u32 = 0;
            while c < CURSOR_BACKUP_W
                invariant
                    r < CURSOR_BACKUP_H,
                    c <= CURSOR_BACKUP_W,
                    *self == (DisplayServer { backbuffer: self.backbuffer, ..*old(self) }),
                    self.backbuffer.len() == old(self).backbuffer.len(),
                    forall|qx: int, qy: int|
                        0 <= qx < bbw && 0 <= qy < bbh ==> #[trigger] pix(
                            self.backbuffer@,
                            bbw as int,
                            qx,
                            qy,
                        ) == if cursor_env(x as int, y as int).covers(qx, qy) && (qy < y - 1 + r
                            || (qy == y - 1 + r && qx < x - 1 + c)) {
                            if valid {
                                old(self).cursor_backup@[Self::backup_index(
                                    x as int,
                                    y as int,
                                    qx,
                                    qy,
                                )]
                            } else {
                                color
                            }
                        } else {
                            pix(old(self).backbuffer@, bbw as int, qx, qy)
                        },
                decreases CURSOR_BACKUP_W - c,
            {
                let qx: i32 = x + c as i32 - 1;
                let qy: i32 = y + r as i32 - 1;
                if qx >= 0 && qy >= 0 && qx < bbw as i32 && qy < bbh as i32 {
                    let v: u32 = if valid {
                        self.cursor_backup[r as usize * CURSOR_BACKUP_W as usize + c as usize]
                    } else {
                        color
                    };
                    proof {
                        self.lemma_bb_cell(qx as int, qy as int);
                    }
                    let idx: usize = qy as usize * bbw as usize + qx as usize;
                    let ghost prev: DisplayServer = *self;
                    self.backbuffer[idx] = v;
                    proof {
                        self.lemma_bb_pointwise_update(prev, idx as int, qx as int, qy as int);
                    }
                }
                c = c + 1;
            }
            r = r + 1;
        }
        self.cursor_backup_valid = false;
    }

    /// Clears the stale cursor where one was drawn elsewhere, saves the
    /// pixels under the desired position and draws the cursor there:
    /// shape cells in the cursor color over an outline.  The envelopes
    /// touched are unioned into the dirty region and the drawn position
    /// is remembered.
    #[verifier::loop_isolation(false)]
    #[verifier::rlimit(100)]
    pub fn render_cursor_to_backbuffer(&mut self)
        requires
            old(self).wf(),
        ensures
            final(self).wf(),
            final(self).backbuffer.len() == old(self).backbuffer.len(),
            forall|qx: int, qy: int|
                0 <= qx < old(self).fb_width && 0 <= qy < old(self).fb_height ==> #[trigger] pix(
                    final(self).backbuffer@,
                    old(self).fb_width as int,
                    qx,
                    qy,
                ) == old(self).cursor_overlay(old(self).restored_pixel(qx, qy), qx, qy),
            old(self).cursor_on_screen() ==> {
                &&& final(self).cursor_backup_valid
                &&& final(self).last_cursor_x == old(self).mouse_x
                &&& final(self).last_cursor_y == old(self).mouse_y
                &&& forall|c: int, r: int|
                    0 <= c < CURSOR_BACKUP_W && 0 <= r < CURSOR_BACKUP_H ==> #[trigger] final(self).cursor_backup@[r * CURSOR_BACKUP_W + c] == ({
                        let qx = old(self).mouse_x - 1 + c;
                        let qy = old(self).mouse_y - 1 + r;
                        if 0 <= qx < old(self).fb_width && 0 <= qy < old(self).fb_height {
                            old(self).restored_pixel(qx, qy)
                        } else {
                            old(self).desktop_color
                        }
                    })
            },
            !old(self).cursor_on_screen() ==> {
                &&& final(self).cursor_backup@ == old(self).cursor_backup@
                &&& final(self).cursor_backup_valid == (old(self).cursor_backup_valid && !old(self).cursor_restore_happens())
                &&& final(self).last_cursor_x == old(self).last_cursor_x
                &&& final(self).last_cursor_y == old(self).last_cursor_y
            },
            final(self).dirty_rect == ({
                let d1 = if old(self).cursor_restore_happens() {
                    DirtyRect::union_of(
                        old(self).dirty_rect,
                        cursor_env(old(self).last_cursor_x as int, old(self).last_cursor_y as int),
                    )
                } else {
                    old(self).dirty_rect
                };
                if old(self).cursor_on_screen() {
                    DirtyRect::union_of(
                        d1,
                        cursor_env(old(self).mouse_x as int, old(self).mouse_y as int),
                    )
                } else {
                    d1
                }
            }),
            final(self).slots@ == old(self).slots@,
            final(self).z_list@ == old(self).z_list@,
            final(self).framebuffer@ == old(self).framebuffer@,
            final(self).mouse_x == old(self).mouse_x,
            final(self).mouse_y == old(self).mouse_y,
            final(self).fb_width == old(self).fb_width,
            final(self).fb_height == old(self).fb_height,
            final(self).fb_pitch == old(self).fb_pitch,
            final(self).desktop_color == old(self).desktop_color,
            final(self).wallpaper@ == old(self).wallpaper@,
            final(self).wallpaper_width == old(self).wallpaper_width,
            final(self).wallpaper_height == old(self).wallpaper_height,
            final(self).has_wallpaper == old(self).has_wallpaper,
            final(self).full_redraw == old(self).full_redraw,
            final(self).desktop_cleared == old(self).desktop_cleared,
    {
        let x: i32 = self.mouse_x;
        let y: i32 = self.mouse_y;
        let bbw: u32 = self.fb_width;
        let bbh: u32 = self.fb_height;
        if self.last_cursor_x >= 0 && self.last_cursor_y >= 0 && (self.last_cursor_x != x
            || self.last_cursor_y != y) {
            let lx: i32 = self.last_cursor_x;
            let ly: i32 = self.last_cursor_y;
            self.clear_cursor_from_backbuffer(lx, ly);
            self.mark_dirty(lx - 1, ly - 1, CURSOR_W + 2, CURSOR_H + 2);
        }
        let ghost restored: DisplayServer = *self;
        if x >= 0 && y >= 0 && x < bbw as i32 && y < bbh as i32 {
            self.save_cursor_background_from_backbuffer(x, y);
            let ghost saved: DisplayServer = *self;
            let mut r: u32 = 0;
            while r < CURSOR_BACKUP_H
                invariant
                    r <= CURSOR_BACKUP_H,
                    *self == (DisplayServer { backbuffer: self.backbuffer, ..saved }),
                    self.backbuffer.len() == saved.backbuffer.len(),
                    forall|qx: int, qy: int|
                        0 <= qx < bbw && 0 <= qy < bbh ==> #[trigger] pix(
                            self.backbuffer@,
                            bbw as int,
                            qx,
                            qy,
                        ) == if qy < y - 1 + r {
                            old(self).cursor_overlay(
                                pix(saved.backbuffer@, bbw as int, qx, qy),
                                qx,
                                qy,
                            )
                        } else {
                            pix(saved.backbuffer@, bbw as int, qx, qy)
                        },
                decreases CURSOR_BACKUP_H - r,
            {
                let mut c: u32 = 0;
                while c < CURSOR_BACKUP_W
                    invariant
                        r < CURSOR_BACKUP_H,
                        c <= CURSOR_BACKUP_W,
                        *self == (DisplayServer { backbuffer: self.backbuffer, ..saved }),
                        self.backbuffer.len() == saved.backbuffer.len(),
                        forall|qx: int, qy: int|
                            0 <= qx < bbw && 0 <= qy < bbh ==> #[trigger] pix(
                                self.backbuffer@,
                                bbw as int,
                                qx,
                                qy,
                            ) == if qy < y - 1 + r || (qy == y - 1 + r && qx < x - 1 + c) {
                                old(self).cursor_overlay(
                                    pix(saved.backbuffer@, bbw as int, qx, qy),
                                    qx,
                                    qy,
                                )
                            } else {
                                pix(saved.backbuffer@, bbw as int, qx, qy)
                            },
                    decreases CURSOR_BACKUP_W - c,
                {
                    let qx: i32 = x + c as i32 - 1;
                    let qy: i32 = y + r as i32 - 1;
                    if qx >= 0 && qy >= 0 && qx < bbw as i32 && qy < bbh as i32 {
                        let lit: bool = cursor_lit_at(qx - x, qy - y);
                        let outlined: bool = cursor_outlined_at(qx - x, qy - y);
                        if lit || outlined {
                            let v: u32 = if lit {
                                CURSOR_COLOR
                            } else {
                                CURSOR_OUTLINE_COLOR
                            };
                            proof {
                                self.lemma_bb_cell(qx as int, qy as int);
                            }
                            let idx: usize = qy as usize * bbw as usize + qx as usize;
                            let ghost prev: DisplayServer = *self;
                            self.backbuffer[idx] = v;
                            proof {
                                self.lemma_bb_pointwise_update(
                                    prev,
                                    idx as int,
                                    qx as int,
                                    qy as int,
                                );
                            }
                        }
                    }
                    proof {
                        assert forall|qx2: int, qy2: int|
                            0 <= qx2 < bbw && 0 <= qy2 < bbh implies #[trigger] pix(
                            self.backbuffer@,
                            bbw as int,
                            qx2,
                            qy2,
                        ) == if qy2 < y - 1 + r || (qy2 == y - 1 + r && qx2 < x - 1 + c + 1) {
                            old(self).cursor_overlay(
                                pix(saved.backbuffer@, bbw as int, qx2, qy2),
                                qx2,
                                qy2,
                            )
                        } else {
                            pix(saved.backbuffer@, bbw as int, qx2, qy2)
                        } by {
                            if qx2 == x - 1 + c && qy2 == y - 1 + r {
                                assert(qx2 - x == c - 1 && qy2 - y == r - 1);
                            }
                        }
                    }
                    c = c + 1;
                }
                r = r + 1;
            }
            proof {
                self.lemma_wf_pool_same(*old(self));
                assert(self.wf());
            }
            self.mark_dirty(x - 1, y - 1, CURSOR_W + 2, CURSOR_H + 2);
            self.last_cursor_x = x;
            self.last_cursor_y = y;
            proof {
                assert forall|qx: int, qy: int| 0 <= qx < bbw && 0 <= qy < bbh implies #[trigger] pix(
                    self.backbuffer@,
                    bbw as int,
                    qx,
                    qy,
                ) == old(self).cursor_overlay(old(self).restored_pixel(qx, qy), qx, qy) by {
                    if !(qy < y - 1 + CURSOR_BACKUP_H) {
                        assert(!cursor_lit(qx - x, qy - y) && !cursor_outlined(qx - x, qy - y));
                    }
                }
            }
        } else {
            proof {
                assert forall|qx: int, qy: int| 0 <= qx < bbw && 0 <= qy < bbh implies #[trigger] pix(
                    self.backbuffer@,
                    bbw as int,
                    qx,
                    qy,
                ) == old(self).cursor_overlay(old(self).restored_pixel(qx, qy), qx, qy) by {
                }
            }
        }
    }


    /// What a surface-drawing operation leaves alone: everything but the
    /// one surface's buffer.
    pub open spec fn draw_op_frame(a: DisplayServer, b: DisplayServer, id: int) -> bool {
        &&& Self::pool_op_frame(a, b)
        &&& b.dirty_rect == a.dirty_rect
        &&& b.z_list@ == a.z_list@
        &&& a.live(id)
        &&& b.slots@ == a.slots@.update(
            id,
            Some(Surface { buffer: b.surf(id).buffer, ..a.surf(id) }),
        )
        &&& b.surf(id).buffer.len() == a.surf(id).buffer.len()
    }

    /// Fills a surface's whole `width x height` cell range with `color`.
    /// A dead id changes nothing.
    pub fn clear_surface(&mut self, id: u32, color: u32)
        requires
            old(self).wf(),
        ensures
            final(self).wf(),
            !old(self).live(id as int) ==> *final(self) == *old(self),
            old(self).live(id as int) ==> {
                let s = old(self).surf(id as int);
                &&& Self::draw_op_frame(*old(self), *final(self), id as int)
                &&& forall|i: int|
                    0 <= i < MAX_SURFACE_BUFFER ==> final(self).surf(id as int).buffer@[i] == (
                    if i < s.width * s.height {
                        color
                    } else {
                        s.buffer@[i]
                    })
            },
    {
        if id >= N_SURF as u32 {
            return;
        }
        if self.slots[id as usize].is_none() {
            return;
        }
        let ghost pre: DisplayServer = *self;
        match &mut self.slots[id as usize] {
            Some(s) => {
                let w: u32 = s.width;
                let h: u32 = s.height;
                gpu::clear(&mut s.buffer, w, h, color);
            },
            None => {},
        }
        proof {
            if pre.live(id as int) {
                assert(self.slots@ =~= pre.slots@.update(
                    id as int,
                    Some(Surface { buffer: self.surf(id as int).buffer, ..pre.surf(id as int) }),
                ));
                self.lemma_wf_pool_draw(pre, id as int);
            }
        }
    }

    /// After replacing one live surface's buffer by another of the same
    /// length, the pool invariant holds again.
    proof fn lemma_wf_pool_draw(self, pre: DisplayServer, id: int)
        requires
            pre.wf(),
            pre.live(id),
            self.slots@ == pre.slots@.update(
                id,
                Some(Surface { buffer: self.surf(id).buffer, ..pre.surf(id) }),
            ),
            self.surf(id).buffer.len() == pre.surf(id).buffer.len(),
            self.z_list@ == pre.z_list@,
            self.slots.len() == pre.slots.len(),
        ensures
            self.wf_pool(),
    {
        assert forall|i: int|
            0 <= i < N_SURF && (#[trigger] self.slots@[i]) is Some implies self.surf(i).wf()
            && self.surf(i).id == i by {
            if i != id {
                assert(self.slots@[i] == pre.slots@[i]);
            }
        }
        assert forall|k: int| 0 <= k < self.z_list.len() implies self.live(
            (#[trigger] self.z_list@[k]) as int,
        ) by {
            assert(pre.live(pre.z_list@[k] as int));
        }
        assert forall|k1: int, k2: int| 0 <= k1 <= k2 < self.z_list.len() implies self.slot_z(
            (#[trigger] self.z_list@[k1]) as int,
        ) <= self.slot_z((#[trigger] self.z_list@[k2]) as int) by {
            assert(pre.slot_z(pre.z_list@[k1] as int) <= pre.slot_z(pre.z_list@[k2] as int));
        }
        assert forall|i: int|
            0 <= i < N_SURF && (#[trigger] self.slots@[i]) is Some implies exists|k: int|
            0 <= k < self.z_list.len() && #[trigger] self.z_list@[k] == i by {
            assert(pre.slots@[i] is Some);
            let k0 = choose|k0: int|
                0 <= k0 < pre.z_list.len() && #[trigger] pre.z_list@[k0] == i;
            assert(self.z_list@[k0] == i);
        }
    }

    /// Writes `color` to the rectangle `(x, y, w, h)` of a surface's
    /// buffer, clipped to the surface.  A dead id changes nothing.
    #[verifier::loop_isolation(false)]
    #[verifier::rlimit(100)]
    #[verifier::spinoff_prover]
    pub fn fill_surface_rect(&mut self, id: u32, x: i32, y: i32, w: u32, h: u32, color: u32)
        requires
            old(self).wf(),
            -0x0200_0000 <= x <= 0x0200_0000,
            -0x0200_0000 <= y <= 0x0200_0000,
            w <= MAX_SURFACE_BUFFER,
            h <= MAX_SURFACE_BUFFER,
        ensures
            final(self).wf(),
            !old(self).live(id as int) ==> *final(self) == *old(self),
            old(self).live(id as int) ==> {
                let s = old(self).surf(id as int);
                &&& Self::draw_op_frame(*old(self), *final(self), id as int)
                &&& forall|px: int, py: int|
                    0 <= px < s.width && 0 <= py < s.height ==> #[trigger] pix(
                        final(self).surf(id as int).buffer@,
                        s.width as int,
                        px,
                        py,
                    ) == if x <= px < x + w && y <= py < y + h {
                        color
                    } else {
                        pix(s.buffer@, s.width as int, px, py)
                    }
                &&& forall|i: int|
                    s.width * s.height <= i < MAX_SURFACE_BUFFER ==> final(self).surf(
                        id as int,
                    ).buffer@[i] == s.buffer@[i]
            },
    {
        if id >= N_SURF as u32 {
            return;
        }
        if self.slots[id as usize].is_none() {
            return;
        }
        let ghost pre: DisplayServer = *self;
        match &mut self.slots[id as usize] {
            Some(s) => {
                let sw: u32 = s.width;
                let sh: u32 = s.height;
                let x0: i32 = if x > 0 { x } else { 0 };
                let y0: i32 = if y > 0 { y } else { 0 };
                let xe: i32 = x + w as i32;
                let ye: i32 = y + h as i32;
                let x1: i32 = if xe < sw as i32 { xe } else { sw as i32 };
                let y1: i32 = if ye < sh as i32 { ye } else { sh as i32 };
                if x1 > x0 && y1 > y0 {
                    proof {
                        lemma_mul_inequality(y1 as int, sh as int, sw as int);
                        assert(sh * sw == sw * sh) by (nonlinear_arith);
                    }
                    gpu::fill_rect(&mut s.buffer, sw, x0, y0, (x1 - x0) as u32, (y1 - y0) as u32, color);
                    proof {
                        let blen = MAX_SURFACE_BUFFER as int;
                        assert forall|px: int, py: int|
                            0 <= px < sw && 0 <= py < sh implies #[trigger] pix(
                            s.buffer@,
                            sw as int,
                            px,
                            py,
                        ) == if x <= px < x + w && y <= py < y + h {
                            color
                        } else {
                            pix(pre.surf(id as int).buffer@, sw as int, px, py)
                        } by {
                            lemma_mul_inequality(py + 1, sh as int, sw as int);
                            assert(sh * sw == sw * sh) by (nonlinear_arith);
                            assert(gpu::grid(blen, sw as int, px, py));
                        }
                        assert forall|i: int|
                            sw * sh <= i < MAX_SURFACE_BUFFER implies s.buffer@[i] == pre.surf(
                            id as int,
                        ).buffer@[i] by {
                            if i < gpu::full_rows(blen, sw as int) * sw {
                                gpu::lemma_tail_cell(blen, sw as int, sh as int, i);
                                assert(pix(s.buffer@, sw as int, i % (sw as int), i / (sw as int))
                                    == pix(
                                    pre.surf(id as int).buffer@,
                                    sw as int,
                                    i % (sw as int),
                                    i / (sw as int),
                                ));
                            }
                        }
                    }
                } else {
                    proof {
                        assert forall|px: int, py: int|
                            0 <= px < sw && 0 <= py < sh implies #[trigger] pix(
                            s.buffer@,
                            sw as int,
                            px,
                            py,
                        ) == if x <= px < x + w && y <= py < y + h {
                            color
                        } else {
                            pix(pre.surf(id as int).buffer@, sw as int, px, py)
                        } by {
                        }
                    }
                }
            },
            None => {},
        }
        proof {
            if pre.live(id as int) {
                assert(self.slots@ =~= pre.slots@.update(
                    id as int,
                    Some(Surface { buffer: self.surf(id as int).buffer, ..pre.surf(id as int) }),
                ));
                self.lemma_wf_pool_draw(pre, id as int);
            }
        }
    }

    /// Writes `color` to the single cell `(x, y)` of a surface's buffer
    /// when it lies inside the surface.  A dead id changes nothing.
    pub fn draw_surface_pixel(&mut self, id: u32, x: i32, y: i32, color: u32)
        requires
            old(self).wf(),
        ensures
            final(self).wf(),
            !old(self).live(id as int) ==> *final(self) == *old(self),
            old(self).live(id as int) ==> {
                let s = old(self).surf(id as int);
                &&& Self::draw_op_frame(*old(self), *final(self), id as int)
                &&& forall|px: int, py: int|
                    0 <= px < s.width && 0 <= py < s.height ==> #[trigger] pix(
                        final(self).surf(id as int).buffer@,
                        s.width as int,
                        px,
                        py,
                    ) == if px == x && py == y {
                        color
                    } else {
                        pix(s.buffer@, s.width as int, px, py)
                    }
                &&& forall|i: int|
                    s.width * s.height <= i < MAX_SURFACE_BUFFER ==> final(self).surf(
                        id as int,
                    ).buffer@[i] == s.buffer@[i]
            },
    {
        if id >= N_SURF as u32 {
            return;
        }
        if self.slots[id as usize].is_none() {
            return;
        }
        let ghost pre: DisplayServer = *self;
        match &mut self.slots[id as usize] {
            Some(s) => {
                let sw: u32 = s.width;
                let sh: u32 = s.height;
                if x >= 0 && y >= 0 && x < sw as i32 && y < sh as i32 {
                    proof {
                        lemma_mul_inequality(y + 1, sh as int, sw as int);
                        assert(sh * sw == sw * sh) by (nonlinear_arith);
                        gpu::lemma_cell_in_range(
                            MAX_SURFACE_BUFFER as int,
                            sw as int,
                            x as int,
                            y as int,
                        );
                    }
                    let idx: usize = y as usize * sw as usize + x as usize;
                    let ghost pbuf: Seq<u32> = s.buffer@;
                    s.buffer[idx] = color;
                    proof {
                        gpu::lemma_pointwise_update(
                            pbuf,
                            s.buffer@,
                            sw as int,
                            idx as int,
                            x as int,
                            y as int,
                        );
                        let blen = MAX_SURFACE_BUFFER as int;
                        assert forall|px: int, py: int|
                            0 <= px < sw && 0 <= py < sh implies #[trigger] pix(
                            s.buffer@,
                            sw as int,
                            px,
                            py,
                        ) == if px == x && py == y {
                            color
                        } else {
                            pix(pbuf, sw as int, px, py)
                        } by {
                            lemma_mul_inequality(py + 1, sh as int, sw as int);
                            assert(sh * sw == sw * sh) by (nonlinear_arith);
                            assert(gpu::grid(blen, sw as int, px, py));
                        }
                        assert forall|i: int|
                            sw * sh <= i < MAX_SURFACE_BUFFER implies s.buffer@[i] == pbuf[i] by {
                            lemma_mul_inequality(y + 1, sh as int, sw as int);
                            assert((y + 1) * sw == y * sw + sw) by (nonlinear_arith);
                        }
                    }
                }
            },
            None => {},
        }
        proof {
            if pre.live(id as int) {
                assert(self.slots@ =~= pre.slots@.update(
                    id as int,
                    Some(Surface { buffer: self.surf(id as int).buffer, ..pre.surf(id as int) }),
                ));
                self.lemma_wf_pool_draw(pre, id as int);
            }
        }
    }

    /// Draws one 8x8 glyph into a surface's buffer at `(x, y)` in the
    /// given color, clipped to the surface: exactly the glyph's covered
    /// cells are written.  A dead id changes nothing.
    #[verifier::loop_isolation(false)]
    #[verifier::rlimit(100)]
    #[verifier::spinoff_prover]
    pub fn draw_surface_glyph(&mut self, id: u32, ch: u8, x: i32, y: i32, color: u32)
        requires
            old(self).wf(),
            -0x0200_0000 <= x <= 0x0200_0000,
            -0x0200_0000 <= y <= 0x0200_0000,
        ensures
            final(self).wf(),
            !old(self).live(id as int) ==> *final(self) == *old(self),
            old(self).live(id as int) ==> {
                let s = old(self).surf(id as int);
                &&& Self::draw_op_frame(*old(self), *final(self), id as int)
                &&& forall|px: int, py: int|
                    0 <= px < s.width && 0 <= py < s.height ==> #[trigger] pix(
                        final(self).surf(id as int).buffer@,
                        s.width as int,
                        px,
                        py,
                    ) == if crate::font::glyph_lit(crate::font::font_glyph(ch), px - x, py - y) {
                        color
                    } else {
                        pix(s.buffer@, s.width as int, px, py)
                    }
                &&& forall|i: int|
                    s.width * s.height <= i < MAX_SURFACE_BUFFER ==> final(self).surf(
                        id as int,
                    ).buffer@[i] == s.buffer@[i]
            },
    {
        if id >= N_SURF as u32 {
            return;
        }
        if self.slots[id as usize].is_none() {
            return;
        }
        let glyph: [u8; 8] = crate::font::get_font_glyph(ch);
        let ghost g: Seq<u8> = crate::font::font_glyph(ch);
        let ghost pre: DisplayServer = *self;
        match &mut self.slots[id as usize] {
            Some(s) => {
                let sw: u32 = s.width;
                let sh: u32 = s.height;
                let ghost base: Seq<u32> = s.buffer@;
                let mut row: u32 = 0;
                while row < 8
                    invariant
                        row <= 8,
                        s.width == sw,
                        s.height == sh,
                        s.buffer.len() == MAX_SURFACE_BUFFER,
                        *s == (Surface { buffer: s.buffer, ..pre.surf(id as int) }),
                        forall|px: int, py: int|
                            0 <= px < sw && 0 <= py < sh ==> #[trigger] pix(
                                s.buffer@,
                                sw as int,
                                px,
                                py,
                            ) == if crate::font::glyph_lit(g, px - x, py - y) && py < y + row {
                                color
                            } else {
                                pix(base, sw as int, px, py)
                            },
                        forall|i: int|
                            sw * sh <= i < MAX_SURFACE_BUFFER ==> s.buffer@[i] == base[i],
                    decreases 8 - row,
                {
                    let mut col: u32 = 0;
                    while col < 8
                        invariant
                            row < 8,
                            col <= 8,
                            s.width == sw,
                            s.height == sh,
                            s.buffer.len() == MAX_SURFACE_BUFFER,
                            *s == (Surface { buffer: s.buffer, ..pre.surf(id as int) }),
                            forall|px: int, py: int|
                                0 <= px < sw && 0 <= py < sh ==> #[trigger] pix(
                                    s.buffer@,
                                    sw as int,
                                    px,
                                    py,
                                ) == if crate::font::glyph_lit(g, px - x, py - y) && (py < y
                                    + row || (py == y + row && px < x + col)) {
                                    color
                                } else {
                                    pix(base, sw as int, px, py)
                                },
                            forall|i: int|
                                sw * sh <= i < MAX_SURFACE_BUFFER ==> s.buffer@[i] == base[i],
                        decreases 8 - col,
                    {
                        let bit_set: bool = (glyph[row as usize] >> (7 - col) as u8) & 1u8 == 1u8;
                        proof {
                            assert(g.len() == 8);
                            assert(g[row as int] == glyph@[row as int]);
                            assert(bit_set == crate::font::glyph_lit(g, col as int, row as int));
                        }
                        let px: i32 = x + col as i32;
                        let py: i32 = y + row as i32;
                        if bit_set && px >= 0 && py >= 0 && px < sw as i32 && py < sh as i32 {
                            proof {
                                lemma_mul_inequality(py + 1, sh as int, sw as int);
                                assert(sh * sw == sw * sh) by (nonlinear_arith);
                                gpu::lemma_cell_in_range(
                                    MAX_SURFACE_BUFFER as int,
                                    sw as int,
                                    px as int,
                                    py as int,
                                );
                            }
                            let idx: usize = py as usize * sw as usize + px as usize;
                            let ghost pbuf: Seq<u32> = s.buffer@;
                            s.buffer[idx] = color;
                            proof {
                                gpu::lemma_pointwise_update(
                                    pbuf,
                                    s.buffer@,
                                    sw as int,
                                    idx as int,
                                    px as int,
                                    py as int,
                                );
                                assert((py + 1) * sw == py * sw + sw) by (nonlinear_arith);
                                assert(idx < sw * sh);
                            }
                        }
                        proof {
                            assert forall|qx: int, qy: int|
                                0 <= qx < sw && 0 <= qy < sh implies #[trigger] pix(
                                s.buffer@,
                                sw as int,
                                qx,
                                qy,
                            ) == if crate::font::glyph_lit(g, qx - x, qy - y) && (qy < y + row
                                || (qy == y + row && qx < x + col + 1)) {
                                color
                            } else {
                                pix(base, sw as int, qx, qy)
                            } by {
                                lemma_mul_inequality(qy + 1, sh as int, sw as int);
                                assert(sh * sw == sw * sh) by (nonlinear_arith);
                                assert(gpu::grid(MAX_SURFACE_BUFFER as int, sw as int, qx, qy));
                                if qx == x + col && qy == y + row {
                                    assert(qx - x == col && qy - y == row);
                                }
                            }
                        }
                        col = col + 1;
                    }
                    row = row + 1;
                }
            },
            None => {},
        }
        proof {
            if pre.live(id as int) {
                assert(self.slots@ =~= pre.slots@.update(
                    id as int,
                    Some(Surface { buffer: self.surf(id as int).buffer, ..pre.surf(id as int) }),
                ));
                self.lemma_wf_pool_draw(pre, id as int);
            }
        }
    }

    /// A borrow of a live surface's buffer; `None` for a dead id.
    pub fn get_surface_buffer(&self, id: u32) -> (r: Option<&Vec<u32>>)
        requires
            self.wf(),
        ensures
            r is Some <==> self.live(id as int),
            r is Some ==> r->Some_0@ == self.surf(id as int).buffer@,
    {
        if id >= N_SURF as u32 {
            return None;
        }
        match &self.slots[id as usize] {
            Some(s) => Some(&s.buffer),
            None => None,
        }
    }

    /// Moves the desired cursor position.  When it changed, the old
    /// cursor envelope (if one was ever drawn) and the new envelope are
    /// unioned into the dirty region; the new envelope is always
    /// unioned, so the cursor is drawn even on the first frame.
    pub fn update_cursor_position(&mut self, x: i32, y: i32)
        requires
            old(self).wf(),
            -COORD_MAX <= x <= COORD_MAX,
            -COORD_MAX <= y <= COORD_MAX,
        ensures
            final(self).wf(),
            *final(self) == (DisplayServer {
                mouse_x: x,
                mouse_y: y,
                dirty_rect: DirtyRect::union_of(
                    if (old(self).mouse_x != x || old(self).mouse_y != y) && old(self).last_cursor_x >= 0 && old(self).last_cursor_y >= 0 {
                        DirtyRect::union_of(
                            old(self).dirty_rect,
                            cursor_env(old(self).last_cursor_x as int, old(self).last_cursor_y as int),
                        )
                    } else {
                        old(self).dirty_rect
                    },
                    cursor_env(x as int, y as int),
                ),
                ..*old(self)
            }),
    {
        let cursor_moved: bool = self.mouse_x != x || self.mouse_y != y;
        if cursor_moved && self.last_cursor_x >= 0 && self.last_cursor_y >= 0 {
            let lx: i32 = self.last_cursor_x;
            let ly: i32 = self.last_cursor_y;
            self.mark_dirty(lx - 1, ly - 1, CURSOR_BACKUP_W, CURSOR_BACKUP_H);
        }
        self.mouse_x = x;
        self.mouse_y = y;
        self.mark_dirty(x - 1, y - 1, CURSOR_BACKUP_W, CURSOR_BACKUP_H);
    }

    /// Installs decoded wallpaper pixels.  Refused (returning false,
    /// changing nothing) when the dimensions exceed the decoded-image
    /// capacity or do not match the pixel count; on success the whole
    /// screen is scheduled for redraw.
    #[verifier::loop_isolation(false)]
    pub fn set_wallpaper(&mut self, pixels: &Vec<u32>, width: u32, height: u32) -> (r: bool)
        requires
            old(self).wf(),
        ensures
            final(self).wf(),
            r == (0 < width && 0 < height && width <= 1920 && height <= 1080 && pixels.len()
                == width * height),
            !r ==> *final(self) == *old(self),
            r ==> {
                &&& final(self).wallpaper@.len() == MAX_WALLPAPER_SIZE
                &&& forall|i: int|
                    0 <= i < width * height ==> final(self).wallpaper@[i] == pixels@[i]
                &&& forall|i: int|
                    width * height <= i < MAX_WALLPAPER_SIZE ==> final(self).wallpaper@[i] == old(self).wallpaper@[i]
                &&& *final(self) == (DisplayServer {
                    wallpaper: final(self).wallpaper,
                    wallpaper_width: width,
                    wallpaper_height: height,
                    has_wallpaper: true,
                    dirty_rect: DirtyRect {
                        x: 0,
                        y: 0,
                        width: old(self).fb_width,
                        height: old(self).fb_height,
                        valid: true,
                    },
                    full_redraw: true,
                    ..*old(self)
                })
            },
    {
        if width == 0 || height == 0 || width > 1920 || height > 1080 {
            return false;
        }
        proof {
            assert(width * height <= 1920 * 1080) by (nonlinear_arith)
                requires
                    width <= 1920,
                    height <= 1080,
            ;
        }
        let count: usize = width as usize * height as usize;
        if pixels.len() != count {
            return false;
        }
        let mut i: usize = 0;
        while i < count
            invariant
                count <= pixels.len(),
                count <= MAX_WALLPAPER_SIZE,
                i <= count,
                self.wallpaper.len() == MAX_WALLPAPER_SIZE,
                forall|j: int| 0 <= j < i ==> self.wallpaper@[j] == pixels@[j],
                forall|j: int|
                    i <= j < MAX_WALLPAPER_SIZE ==> self.wallpaper@[j] == old(self).wallpaper@[j],
                *self == (DisplayServer { wallpaper: self.wallpaper, ..*old(self) }),
            decreases count - i,
        {
            let v: u32 = pixels[i];
            self.wallpaper[i] = v;
            i = i + 1;
        }
        self.wallpaper_width = width;
        self.wallpaper_height = height;
        self.has_wallpaper = true;
        self.mark_full_dirty();
        true
    }
}


/// Surfaces are composited bottom to top: of two surfaces on the
/// z-ordered list, the one with the strictly smaller z-order stands
/// earlier, so it is painted before the other whenever both intersect
/// the frame's dirty region.
pub proof fn lemma_paint_order(ds: DisplayServer, s1: int, s2: int)
    requires
        ds.wf(),
        ds.live(s1),
        ds.live(s2),
        ds.slot_z(s1) < ds.slot_z(s2),
    ensures
        0 <= ds.z_index_of(s1) < ds.z_list.len(),
        0 <= ds.z_index_of(s2) < ds.z_list.len(),
        ds.z_list@[ds.z_index_of(s1)] == s1,
        ds.z_list@[ds.z_index_of(s2)] == s2,
        ds.z_index_of(s1) < ds.z_index_of(s2),
{
    assert(exists|k: int| 0 <= k < ds.z_list.len() && #[trigger] ds.z_list@[k] == s1);
    assert(exists|k: int| 0 <= k < ds.z_list.len() && #[trigger] ds.z_list@[k] == s2);
    let k1 = ds.z_index_of(s1);
    let k2 = ds.z_index_of(s2);
    if k1 >= k2 {
        assert(ds.slot_z(ds.z_list@[k2] as int) <= ds.slot_z(ds.z_list@[k1] as int));
    }
}

/// Moving a surface is idempotent: a second move to the same position
/// leaves the surface pool, the z-order list and the dirty rectangle
/// exactly as the first left them, so two equal moves produce one net
/// dirty union.
pub proof fn lemma_set_position_idempotent(
    pre: DisplayServer,
    mid: DisplayServer,
    post: DisplayServer,
    id: int,
    x: i32,
    y: i32,
)
    requires
        pre.wf(),
        pre.live(id),
        mid.slots@ == pre.slots@.update(id, Some(Surface { x, y, ..pre.surf(id) })),
        mid.dirty_rect == DirtyRect::union_of(
            DirtyRect::union_of(pre.dirty_rect, surf_rect(pre.surf(id))),
            DirtyRect { x, y, width: pre.surf(id).width, height: pre.surf(id).height, valid: true },
        ),
        mid.z_list@ == pre.z_list@,
        mid.wf(),
        mid.live(id),
        post.slots@ == mid.slots@.update(id, Some(Surface { x, y, ..mid.surf(id) })),
        post.dirty_rect == DirtyRect::union_of(
            DirtyRect::union_of(mid.dirty_rect, surf_rect(mid.surf(id))),
            DirtyRect { x, y, width: mid.surf(id).width, height: mid.surf(id).height, valid: true },
        ),
        post.z_list@ == mid.z_list@,
    ensures
        post.slots@ == mid.slots@,
        post.dirty_rect == mid.dirty_rect,
        post.z_list@ == mid.z_list@,
{
    assert(mid.surf(id) == (Surface { x, y, ..pre.surf(id) }));
    assert(post.slots@ =~= mid.slots@);
    let r = DirtyRect {
        x,
        y,
        width: pre.surf(id).width,
        height: pre.surf(id).height,
        valid: true,
    };
    assert(surf_rect(mid.surf(id)) == r);
    crate::rect::lemma_union_contains(
        DirtyRect::union_of(pre.dirty_rect, surf_rect(pre.surf(id))),
        r,
    );
    crate::rect::lemma_union_absorbed(mid.dirty_rect, r);
    crate::rect::lemma_union_absorbed(DirtyRect::union_of(mid.dirty_rect, r), r);
}

} // verus!