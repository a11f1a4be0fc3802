//! The window manager: owner of the display server and the window
//! pool.  Maps pointer input to window semantics, renders title-bar
//! chrome into window buffers, and manages focus, drag, resize,
//! minimize/maximize and z-order.

use vstd::prelude::*;
use crate::{MAX_SURFACE_BUFFER, N_SURF, N_WIN, TITLE_CAP};
use crate::rect::DirtyRect;
use crate::surface::{Surface, COORD_MAX};
use crate::display::{
    DisplayServer, surf_rect, cursor_env, cursor_lit, cursor_outlined, MAX_FB_PITCH,
    MAX_FB_HEIGHT,
};
use crate::window::{
    Window, PointerState, ResizeEdge, WINDOW_MOVABLE, WINDOW_CLOSABLE, WINDOW_RESIZABLE,
    TITLE_BAR_HEIGHT, BUTTON_SIZE, TITLE_FOCUSED_COLOR, TITLE_UNFOCUSED_COLOR,
    CLOSE_BUTTON_COLOR, MAX_BUTTON_COLOR, MIN_BUTTON_COLOR, LABEL_COLOR, MIN_WINDOW_DIM,
    RESIZE_BORDER,
};
use crate::gpu::pix;
use crate::font::{font_glyph, glyph_lit};

verus! {

/// Bound on pointer coordinates handed to the window manager.
pub const MOUSE_MAX: i32 = 0x0010_0000;

/// The window manager state: the display server it drives, the window
/// pool, the bottom-to-top window order, the focus, the pointer state
/// machine, and the z-order counters.
pub struct WindowManager {
    pub ds: DisplayServer,
    pub windows: Vec<Option<Window>>,
    pub order: Vec<usize>,
    pub focused: Option<u32>,
    pub pointer: PointerState,
    pub last_mouse_button: bool,
    pub next_z_order: i32,
    pub min_z_order: i32,
}

impl WindowManager {
    /// The window stored in `slot`, which must be occupied.
    pub open spec fn winv(self, slot: int) -> Window {
        self.windows@[slot]->Some_0
    }

    /// The slot holds a live window.
    pub open spec fn wlive(self, slot: int) -> bool {
        0 <= slot < N_WIN && self.windows@[slot] is Some
    }

    /// The pixel buffer of a window's surface.
    pub open spec fn wbuf(self, slot: int) -> Seq<u32> {
        self.ds.surf(self.winv(slot).surface as int).buffer@
    }

    /// The position of a live window in the bottom-to-top order.
    pub open spec fn order_index_of(self, slot: int) -> int {
        choose|k: int| 0 <= k < self.order.len() && self.order@[k] == slot
    }

    /// Windows mirror their surfaces: ids equal slots, geometry and
    /// z-order agree with the surface, surfaces are owned injectively
    /// and every live surface belongs to a window.
    pub open spec fn wf_windows(self) -> bool {
        &&& self.windows.len() == N_WIN
        &&& forall|i: int|
            0 <= i < N_WIN && (#[trigger] self.windows@[i]) is Some ==> {
                let w = self.winv(i);
                &&& w.wf()
                &&& w.id == i
                &&& self.ds.live(w.surface as int)
                &&& self.ds.surf(w.surface as int).x == w.x
                &&& self.ds.surf(w.surface as int).y == w.y
                &&& self.ds.surf(w.surface as int).width == w.width
                &&& self.ds.surf(w.surface as int).height == w.height
                &&& self.ds.surf(w.surface as int).z_order == w.z_order
            }
        &&& forall|i: int, j: int|
            0 <= i < j < N_WIN && (#[trigger] self.windows@[i]) is Some
                && (#[trigger] self.windows@[j]) is Some ==> self.winv(i).surface != self.winv(
                j,
            ).surface
        &&& forall|s: int|
            0 <= s < N_SURF && (#[trigger] self.ds.slots@[s]) is Some ==> exists|i: int|
                0 <= i < N_WIN && (#[trigger] self.windows@[i]) is Some && self.winv(i).surface
                    == s
    }

    /// The bottom-to-top order holds exactly the live windows, without
    /// duplicates.
    pub open spec fn wf_order(self) -> bool {
        &&& forall|k: int|
            0 <= k < self.order.len() ==> self.wlive((#[trigger] self.order@[k]) as int)
        &&& forall|k1: int, k2: int|
            0 <= k1 < k2 < self.order.len() ==> #[trigger] self.order@[k1]
                != #[trigger] self.order@[k2]
        &&& forall|i: int|
            0 <= i < N_WIN && (#[trigger] self.windows@[i]) is Some ==> exists|k: int|
                0 <= k < self.order.len() && #[trigger] self.order@[k] == i
    }

    /// At most one window is focused, and the focus reference names it.
    pub open spec fn wf_focus(self) -> bool {
        match self.focused {
            Some(f) => {
                &&& self.wlive(f as int)
                &&& self.winv(f as int).focused
                &&& forall|i: int|
                    0 <= i < N_WIN && (#[trigger] self.windows@[i]) is Some && i != f
                        ==> !self.winv(i).focused
            },
            None => forall|i: int|
                0 <= i < N_WIN && (#[trigger] self.windows@[i]) is Some ==> !self.winv(
                    i,
                ).focused,
        }
    }

    /// Minimized windows sit in the negative z band; every other
    /// window's z-order is bounded by the running counter.
    pub open spec fn wf_z(self) -> bool {
        &&& 0 <= self.next_z_order
        &&& self.min_z_order <= -1000
        &&& forall|i: int|
            0 <= i < N_WIN && (#[trigger] self.windows@[i]) is Some ==> (if self.winv(
                i,
            ).minimized {
                self.winv(i).z_order < 0
            } else {
                0 <= self.winv(i).z_order <= self.next_z_order
            })
    }

    /// A drag or resize in progress refers to a live, unminimized,
    /// unmaximized window and keeps bounded starting data.
    pub open spec fn wf_pointer(self) -> bool {
        match self.pointer {
            PointerState::Idle => true,
            PointerState::Dragging { window, off_x, off_y } => {
                &&& self.wlive(window as int)
                &&& !self.winv(window as int).minimized
                &&& !self.winv(window as int).maximized
                &&& 0 <= off_x <= MAX_SURFACE_BUFFER
                &&& 0 <= off_y <= MAX_SURFACE_BUFFER
            },
            PointerState::Resizing { window, edge, start_x, start_y, start_w, start_h } => {
                &&& self.wlive(window as int)
                &&& !self.winv(window as int).minimized
                &&& !self.winv(window as int).maximized
                &&& edge != ResizeEdge::NoEdge
                &&& -MOUSE_MAX <= start_x <= MOUSE_MAX
                &&& -MOUSE_MAX <= start_y <= MOUSE_MAX
                &&& start_w <= MAX_SURFACE_BUFFER
                &&& start_h <= MAX_SURFACE_BUFFER
            },
        }
    }

    /// The window manager's invariant.
    pub open spec fn wf(self) -> bool {
        &&& self.ds.wf()
        &&& self.wf_windows()
        &&& self.wf_order()
        &&& self.wf_focus()
        &&& self.wf_z()
        &&& self.wf_pointer()
    }

    /// Creates a window manager driving a fresh display server for the
    /// given framebuffer geometry, with an empty window pool.
    pub fn new(fb_width: u32, fb_height: u32, fb_pitch: u32) -> (r: WindowManager)
        requires
            0 < fb_width,
            0 < fb_height,
            fb_width <= fb_pitch <= MAX_FB_PITCH,
            fb_height <= MAX_FB_HEIGHT,
            fb_width * fb_height <= crate::MAX_BACKBUFFER_SIZE,
        ensures
            r.wf(),
            r.ds.fb_width == fb_width,
            r.ds.fb_height == fb_height,
            r.ds.fb_pitch == fb_pitch,
            r.ds.framebuffer@ == Seq::new((fb_pitch * fb_height) as nat, |i: int| 0u32),
            r.ds.backbuffer@ == Seq::new((fb_width * fb_height) as nat, |i: int| 0u32),
            r.ds.slots@ == Seq::new(N_SURF as nat, |i: int| None::<Surface>),
            r.ds.z_list@ == Seq::<usize>::empty(),
            r.ds.desktop_color == crate::display::DESKTOP_COLOR,
            r.ds.dirty_rect == (DirtyRect { x: 0, y: 0, width: 0, height: 0, valid: false }),
            r.ds.full_redraw,
            !r.ds.desktop_cleared,
            r.ds.mouse_x == 0 && r.ds.mouse_y == 0,
            r.ds.last_cursor_x == -1 && r.ds.last_cursor_y == -1,
            !r.ds.cursor_backup_valid,
            !r.ds.has_wallpaper,
            r.ds.wallpaper_width == 0 && r.ds.wallpaper_height == 0,
            r.windows@ == Seq::new(N_WIN as nat, |i: int| None::<Window>),
            r.order@ == Seq::<usize>::empty(),
            r.focused is None,
            r.pointer == PointerState::Idle,
            !r.last_mouse_button,
            r.next_z_order == 0,
            r.min_z_order == -1000,
    {
        let ds = DisplayServer::new(fb_width, fb_height, fb_pitch);
        let mut windows: Vec<Option<Window>> = Vec::new();
        let mut i: usize = 0;
        while i < N_WIN
            invariant
                i <= N_WIN,
                windows@ == Seq::new(i as nat, |j: int| None::<Window>),
            decreases N_WIN - i,
        {
            windows.push(None);
            proof {
                assert(windows@ =~= Seq::new((i + 1) as nat, |j: int| None::<Window>));
            }
            i = i + 1;
        }
        WindowManager {
            ds,
            windows,
            order: Vec::new(),
            focused: None,
            pointer: PointerState::Idle,
            last_mouse_button: false,
            next_z_order: 0,
            min_z_order: -1000,
        }
    }

    /// The framebuffer geometry the manager was created for.
    pub fn get_framebuffer(&self) -> (r: (u32, u32, u32))
        ensures
            r == (self.ds.fb_width, self.ds.fb_height, self.ds.fb_pitch),
    {
        (self.ds.fb_width, self.ds.fb_height, self.ds.fb_pitch)
    }

    /// How many windows are live.
    pub fn get_window_count(&self) -> (r: usize)
        ensures
            r == self.order.len(),
    {
        self.order.len()
    }

    /// The geometry and title of the window at a position of the
    /// bottom-to-top order; `None` for an index past the live windows.
    pub fn get_window_info(&self, index: usize) -> (r: Option<(i32, i32, u32, u32, Vec<u8>)>)
        requires
            self.wf(),
        ensures
            r is Some <==> index < self.order.len(),
            r is Some ==> ({
                let w = self.winv(self.order@[index as int] as int);
                r->Some_0 == (w.x, w.y, w.width, w.height, r->Some_0.4)
                    && r->Some_0.4@ == w.title@
            }),
    {
        if index >= self.order.len() {
            return None;
        }
        let slot: usize = self.order[index];
        match &self.windows[slot] {
            Some(w) => {
                let mut title: Vec<u8> = Vec::new();
                let mut i: usize = 0;
                while i < w.title.len()
                    invariant
                        i <= w.title.len(),
                        title@ == w.title@.take(i as int),
                    decreases w.title.len() - i,
                {
                    title.push(w.title[i]);
                    proof {
                        assert(title@ =~= w.title@.take(i + 1));
                    }
                    i = i + 1;
                }
                proof {
                    assert(title@ =~= w.title@);
                }
                Some((w.x, w.y, w.width, w.height, title))
            },
            None => None,
        }
    }

    /// Marks a window for redraw and unions its rectangle into the
    /// dirty region.  A dead id changes nothing.
    pub fn invalidate_window(&mut self, id: u32)
        requires
            old(self).wf(),
        ensures
            final(self).wf(),
            !old(self).wlive(id as int) ==> *final(self) == *old(self),
            old(self).wlive(id as int) ==> {
                let w = old(self).winv(id as int);
                &&& *final(self) == (WindowManager {
                    windows: final(self).windows,
                    ds: final(self).ds,
                    ..*old(self)
                })
                &&& final(self).windows@ == old(self).windows@.update(
                    id as int,
                    Some(Window { invalidated: true, ..w }),
                )
                &&& final(self).ds == (DisplayServer {
                    dirty_rect: DirtyRect::union_of(
                        old(self).ds.dirty_rect,
                        DirtyRect { x: w.x, y: w.y, width: w.width, height: w.height, valid: true },
                    ),
                    ..old(self).ds
                })
            },
    {
        if id >= N_WIN as u32 {
            return;
        }
        let (wx, wy, ww, wh): (i32, i32, u32, u32) = match &self.windows[id as usize] {
            Some(w) => (w.x, w.y, w.width, w.height),
            None => { return; },
        };
        match &mut self.windows[id as usize] {
            Some(w) => {
                w.invalidated = true;
            },
            None => {},
        }
        proof {
            assert(self.windows@ =~= old(self).windows@.update(
                id as int,
                Some(Window { invalidated: true, ..old(self).winv(id as int) }),
            ));
        }
        self.ds.mark_dirty(wx, wy, ww, wh);
        proof {
            self.lemma_wm_wf_after_flags(*old(self));
        }
    }


    /// After replacing one live window (same id, same surface) and its
    /// surface entry consistently, with unchanged order, focus flag and
    /// counters compatible, the manager invariant holds again.
    proof fn lemma_wm_wf_one_window(self, pre: WindowManager, id: int)
        requires
            pre.wf(),
            self.ds.wf(),
            0 <= id < N_WIN,
            pre.windows@[id] is Some,
            self.windows.len() == N_WIN,
            self.windows@ == pre.windows@.update(id, Some(self.winv(id))),
            self.winv(id).wf(),
            self.winv(id).id == id,
            self.winv(id).surface == pre.winv(id).surface,
            self.ds.slots@ == pre.ds.slots@.update(
                pre.winv(id).surface as int,
                Some(self.ds.surf(pre.winv(id).surface as int)),
            ),
            self.ds.surf(self.winv(id).surface as int).x == self.winv(id).x,
            self.ds.surf(self.winv(id).surface as int).y == self.winv(id).y,
            self.ds.surf(self.winv(id).surface as int).width == self.winv(id).width,
            self.ds.surf(self.winv(id).surface as int).height == self.winv(id).height,
            self.ds.surf(self.winv(id).surface as int).z_order == self.winv(id).z_order,
            self.focused == pre.focused,
            self.winv(id).focused == pre.winv(id).focused,
            self.pointer == pre.pointer || self.pointer == PointerState::Idle,
            (self.pointer == pre.pointer && (pre.pointer matches PointerState::Dragging {
                window,
                ..
            } && window == id)) ==> !self.winv(id).minimized && !self.winv(id).maximized,
            (self.pointer == pre.pointer && (pre.pointer matches PointerState::Resizing {
                window,
                ..
            } && window == id)) ==> !self.winv(id).minimized && !self.winv(id).maximized,
            0 <= self.next_z_order,
            pre.next_z_order <= self.next_z_order,
            self.min_z_order <= -1000,
            if self.winv(id).minimized {
                self.winv(id).z_order < 0
            } else {
                0 <= self.winv(id).z_order <= self.next_z_order
            },
        ensures
            self.wf_windows(),
            self.wf_focus(),
            self.wf_z(),
            self.wf_pointer(),
    {
        let surf = pre.winv(id).surface as int;
        assert forall|i: int|
            0 <= i < N_WIN && (#[trigger] self.windows@[i]) is Some implies {
            let w = self.winv(i);
            &&& w.wf()
            &&& w.id == i
            &&& self.ds.live(w.surface as int)
            &&& self.ds.surf(w.surface as int).x == w.x
            &&& self.ds.surf(w.surface as int).y == w.y
            &&& self.ds.surf(w.surface as int).width == w.width
            &&& self.ds.surf(w.surface as int).height == w.height
            &&& self.ds.surf(w.surface as int).z_order == w.z_order
        } by {
            if i != id {
                assert(pre.windows@[i] is Some);
                assert(self.winv(i) == pre.winv(i));
                assert(pre.winv(i).surface != pre.winv(id).surface);
                assert(self.ds.slots@[self.winv(i).surface as int] == pre.ds.slots@[self.winv(
                    i,
                ).surface as int]);
            }
        }
        assert forall|i: int, j: int|
            0 <= i < j < N_WIN && (#[trigger] self.windows@[i]) is Some
                && (#[trigger] self.windows@[j]) is Some implies self.winv(i).surface
            != self.winv(j).surface by {
            assert(pre.windows@[i] is Some && pre.windows@[j] is Some);
            assert(self.winv(i).surface == pre.winv(i).surface);
            assert(self.winv(j).surface == pre.winv(j).surface);
        }
        assert forall|s: int|
            0 <= s < N_SURF && (#[trigger] self.ds.slots@[s]) is Some implies exists|i: int|
            0 <= i < N_WIN && (#[trigger] self.windows@[i]) is Some && self.winv(i).surface
                == s by {
            if s == surf {
                assert(self.windows@[id] is Some && self.winv(id).surface == s);
            } else {
                assert(pre.ds.slots@[s] is Some);
                let i0 = choose|i0: int|
                    0 <= i0 < N_WIN && (#[trigger] pre.windows@[i0]) is Some && pre.winv(
                        i0,
                    ).surface == s;
                assert(self.windows@[i0] is Some && self.winv(i0).surface == s);
            }
        }
        match self.focused {
            Some(f) => {
                assert(pre.winv(f as int).focused);
                assert forall|i: int|
                    0 <= i < N_WIN && (#[trigger] self.windows@[i]) is Some && i != f implies !self.winv(
                    i,
                ).focused by {
                    assert(pre.windows@[i] is Some && !pre.winv(i).focused);
                }
            },
            None => {
                assert forall|i: int|
                    0 <= i < N_WIN && (#[trigger] self.windows@[i]) is Some implies !self.winv(
                    i,
                ).focused by {
                    assert(pre.windows@[i] is Some && !pre.winv(i).focused);
                }
            },
        }
        assert forall|i: int|
            0 <= i < N_WIN && (#[trigger] self.windows@[i]) is Some implies (if self.winv(
            i,
        ).minimized {
            self.winv(i).z_order < 0
        } else {
            0 <= self.winv(i).z_order <= self.next_z_order
        }) by {
            if i != id {
                assert(pre.windows@[i] is Some);
            }
        }
        match self.pointer {
            PointerState::Idle => {},
            PointerState::Dragging { window, .. } => {
                assert(pre.wlive(window as int));
            },
            PointerState::Resizing { window, .. } => {
                assert(pre.wlive(window as int));
            },
        }
    }

    /// With unchanged order and occupancy the order invariant holds
    /// again.
    proof fn lemma_wm_order_same(self, pre: WindowManager)
        requires
            pre.wf_order(),
            self.order@ == pre.order@,
            self.windows.len() == N_WIN,
            pre.windows.len() == N_WIN,
            forall|i: int|
                0 <= i < N_WIN ==> ((#[trigger] self.windows@[i]) is Some <==> pre.windows@[i] is Some),
        ensures
            self.wf_order(),
    {
        assert forall|k: int| 0 <= k < self.order.len() implies self.wlive(
            (#[trigger] self.order@[k]) as int,
        ) by {
            assert(pre.wlive(pre.order@[k] as int));
        }
        assert forall|i: int|
            0 <= i < N_WIN && (#[trigger] self.windows@[i]) is Some implies exists|k: int|
            0 <= k < self.order.len() && #[trigger] self.order@[k] == i by {
            assert(pre.windows@[i] is Some);
            let k0 = choose|k0: int| 0 <= k0 < pre.order.len() && #[trigger] pre.order@[k0] == i;
            assert(self.order@[k0] == i);
        }
    }

    /// After moving one live window's entry to the tail of the order,
    /// with unchanged occupancy, the order invariant holds again.
    proof fn lemma_wm_order_moved(self, pre: WindowManager, id: int, k: int)
        requires
            pre.wf_order(),
            0 <= id < N_WIN,
            pre.windows@[id] is Some,
            0 <= k < pre.order.len(),
            pre.order@[k] == id,
            self.windows.len() == N_WIN,
            pre.windows.len() == N_WIN,
            forall|i: int|
                0 <= i < N_WIN ==> ((#[trigger] self.windows@[i]) is Some <==> pre.windows@[i] is Some),
            self.order@ == pre.order@.remove(k).push(id as usize),
        ensures
            self.wf_order(),
    {
        let po = pre.order@;
        let mid = po.remove(k);
        po.remove_ensures(k);
        let so = self.order@;
        assert(so.len() == po.len());
        assert forall|j: int| 0 <= j < mid.len() implies (#[trigger] mid[j]) != id as usize
            && pre.wlive(mid[j] as int) by {
            let j0 = if j < k {
                j
            } else {
                j + 1
            };
            assert(mid[j] == po[j0]);
            assert(pre.wlive(po[j0] as int));
            assert(po[j0] != po[k]);
        }
        assert forall|a: int, b: int| 0 <= a < b < mid.len() implies (#[trigger] mid[a])
            != (#[trigger] mid[b]) by {
            let a0 = if a < k {
                a
            } else {
                a + 1
            };
            let b0 = if b < k {
                b
            } else {
                b + 1
            };
            assert(mid[a] == po[a0] && mid[b] == po[b0]);
        }
        assert forall|j: int| 0 <= j < so.len() implies self.wlive(
            (#[trigger] so[j]) as int,
        ) by {
            if j < mid.len() {
                assert(so[j] == mid[j]);
                assert(pre.wlive(mid[j] as int));
            } else {
                assert(so[j] == id as usize);
            }
        }
        assert forall|a: int, b: int| 0 <= a < b < so.len() implies (#[trigger] so[a])
            != (#[trigger] so[b]) by {
            if b < mid.len() {
                assert(so[a] == mid[a] && so[b] == mid[b]);
            } else {
                assert(so[a] == mid[a] && so[b] == id as usize);
            }
        }
        assert forall|i: int|
            0 <= i < N_WIN && (#[trigger] self.windows@[i]) is Some implies exists|j: int|
            0 <= j < so.len() && #[trigger] so[j] == i by {
            if i == id {
                assert(so[so.len() - 1] == id as usize);
            } else {
                assert(pre.windows@[i] is Some);
                let k0 = choose|k0: int| 0 <= k0 < po.len() && #[trigger] po[k0] == i;
                let k1 = if k0 < k {
                    k0
                } else {
                    k0 - 1
                };
                assert(mid[k1] == po[k0]);
                assert(so[k1] == mid[k1]);
            }
        }
    }

    /// Clears the pointer state when it refers to the given window.
    fn release_pointer_from(&mut self, id: u32)
        ensures
            *final(self) == (WindowManager { pointer: final(self).pointer, ..*old(self) }),
            final(self).pointer == (match old(self).pointer {
                PointerState::Idle => old(self).pointer,
                PointerState::Dragging { window, .. } => if window == id {
                    PointerState::Idle
                } else {
                    old(self).pointer
                },
                PointerState::Resizing { window, .. } => if window == id {
                    PointerState::Idle
                } else {
                    old(self).pointer
                },
            }),
    {
        let clear: bool = match self.pointer {
            PointerState::Idle => false,
            PointerState::Dragging { window, .. } => window == id,
            PointerState::Resizing { window, .. } => window == id,
        };
        if clear {
            self.pointer = PointerState::Idle;
        }
    }


    /// Moves the focus to a window: the previously focused window, if
    /// another, loses its focus flag, is marked for redraw and its
    /// rectangle is unioned into the dirty region; the target gains the
    /// flag and is marked for redraw.
    fn switch_focus_to(&mut self, id: u32)
        requires
            old(self).wf(),
            old(self).wlive(id as int),
        ensures
            final(self).wf(),
            final(self).focused == Some(id),
            final(self).order@ == old(self).order@,
            final(self).pointer == old(self).pointer,
            final(self).last_mouse_button == old(self).last_mouse_button,
            final(self).next_z_order == old(self).next_z_order,
            final(self).min_z_order == old(self).min_z_order,
            DisplayServer::pool_op_frame(old(self).ds, final(self).ds),
            final(self).ds.slots@ == old(self).ds.slots@,
            final(self).ds.z_list@ == old(self).ds.z_list@,
            ({
                let w = old(self).winv(id as int);
                match old(self).focused {
                    Some(f) => if f == id {
                        final(self).windows@ == old(self).windows@ && final(self).ds.dirty_rect
                            == old(self).ds.dirty_rect
                    } else {
                        let fw = old(self).winv(f as int);
                        final(self).windows@ == old(self).windows@.update(
                            f as int,
                            Some(Window { focused: false, invalidated: true, ..fw }),
                        ).update(
                            id as int,
                            Some(Window { focused: true, invalidated: true, ..w }),
                        ) && final(self).ds.dirty_rect == DirtyRect::union_of(
                            old(self).ds.dirty_rect,
                            DirtyRect {
                                x: fw.x,
                                y: fw.y,
                                width: fw.width,
                                height: fw.height,
                                valid: true,
                            },
                        )
                    },
                    None => final(self).windows@ == old(self).windows@.update(
                        id as int,
                        Some(Window { focused: true, invalidated: true, ..w }),
                    ) && final(self).ds.dirty_rect == old(self).ds.dirty_rect,
                }
            }),
    {
        let already: bool = match self.focused {
            Some(f) => f == id,
            None => false,
        };
        if already {
            proof {
                assert(old(self).winv(id as int).focused);
                assert(old(self).windows@ =~= old(self).windows@.update(
                    id as int,
                    Some(old(self).winv(id as int)),
                ));
            }
            return;
        }
        match self.focused {
            Some(f) => {
                let fi: usize = f as usize;
                let (fx, fy, fw_, fh): (i32, i32, u32, u32) = match &self.windows[fi] {
                    Some(w) => (w.x, w.y, w.width, w.height),
                    None => (0, 0, 0, 0),
                };
                match &mut self.windows[fi] {
                    Some(w) => {
                        w.focused = false;
                        w.invalidated = true;
                    },
                    None => {},
                }
                self.ds.mark_dirty(fx, fy, fw_, fh);
            },
            None => {},
        }
        match &mut self.windows[id as usize] {
            Some(w) => {
                w.focused = true;
                w.invalidated = true;
            },
            None => {},
        }
        self.focused = Some(id);
        proof {
            match old(self).focused {
                Some(f) => {
                    assert(self.windows@ =~= old(self).windows@.update(
                        f as int,
                        Some(
                            Window {
                                focused: false,
                                invalidated: true,
                                ..old(self).winv(f as int)
                            },
                        ),
                    ).update(
                        id as int,
                        Some(
                            Window {
                                focused: true,
                                invalidated: true,
                                ..old(self).winv(id as int)
                            },
                        ),
                    ));
                },
                None => {
                    assert(self.windows@ =~= old(self).windows@.update(
                        id as int,
                        Some(
                            Window {
                                focused: true,
                                invalidated: true,
                                ..old(self).winv(id as int)
                            },
                        ),
                    ));
                },
            }
            self.lemma_wm_wf_focus_switch(*old(self), id as int);
        }
    }

    /// After a focus switch that only toggles focus and redraw flags,
    /// the manager invariant holds again.
    proof fn lemma_wm_wf_focus_switch(self, pre: WindowManager, id: int)
        requires
            pre.wf(),
            self.ds.wf(),
            self.ds.slots@ == pre.ds.slots@,
            0 <= id < N_WIN,
            pre.windows@[id] is Some,
            self.windows.len() == N_WIN,
            self.order@ == pre.order@,
            self.pointer == pre.pointer,
            self.next_z_order == pre.next_z_order,
            self.min_z_order == pre.min_z_order,
            self.focused == Some(id as u32),
            forall|i: int|
                0 <= i < N_WIN ==> ((#[trigger] self.windows@[i]) is Some <==> pre.windows@[i] is Some),
            forall|i: int|
                0 <= i < N_WIN && (#[trigger] self.windows@[i]) is Some ==> {
                    let w = self.winv(i);
                    let p = pre.winv(i);
                    w == (Window { focused: w.focused, invalidated: w.invalidated, ..p })
                },
            self.winv(id).focused,
            forall|i: int|
                0 <= i < N_WIN && (#[trigger] self.windows@[i]) is Some && i != id ==> !self.winv(
                    i,
                ).focused,
        ensures
            self.wf(),
    {
        assert forall|i: int|
            0 <= i < N_WIN && (#[trigger] self.windows@[i]) is Some implies {
            let w = self.winv(i);
            &&& w.wf()
            &&& w.id == i
            &&& self.ds.live(w.surface as int)
            &&& self.ds.surf(w.surface as int).x == w.x
            &&& self.ds.surf(w.surface as int).y == w.y
            &&& self.ds.surf(w.surface as int).width == w.width
            &&& self.ds.surf(w.surface as int).height == w.height
            &&& self.ds.surf(w.surface as int).z_order == w.z_order
        } by {
            assert(pre.windows@[i] is Some);
        }
        assert forall|i: int, j: int|
            0 <= i < j < N_WIN && (#[trigger] self.windows@[i]) is Some
                && (#[trigger] self.windows@[j]) is Some implies self.winv(i).surface
            != self.winv(j).surface by {
            assert(pre.windows@[i] is Some && pre.windows@[j] is Some);
        }
        assert forall|s: int|
            0 <= s < N_SURF && (#[trigger] self.ds.slots@[s]) is Some implies exists|i: int|
            0 <= i < N_WIN && (#[trigger] self.windows@[i]) is Some && self.winv(i).surface
                == s by {
            assert(pre.ds.slots@[s] is Some);
            let i0 = choose|i0: int|
                0 <= i0 < N_WIN && (#[trigger] pre.windows@[i0]) is Some && pre.winv(i0).surface
                    == s;
            assert(self.windows@[i0] is Some && self.winv(i0).surface == s);
        }
        self.lemma_wm_order_same(pre);
        assert forall|i: int|
            0 <= i < N_WIN && (#[trigger] self.windows@[i]) is Some implies (if self.winv(
            i,
        ).minimized {
            self.winv(i).z_order < 0
        } else {
            0 <= self.winv(i).z_order <= self.next_z_order
        }) by {
            assert(pre.windows@[i] is Some);
        }
        match self.pointer {
            PointerState::Idle => {},
            PointerState::Dragging { window, .. } => {
                assert(pre.wlive(window as int));
            },
            PointerState::Resizing { window, .. } => {
                assert(pre.wlive(window as int));
            },
        }
    }

    /// Minimizes a window: it moves into the low z-order band, leaves
    /// focus and is no longer composited over the desktop or hit by the
    /// pointer.  Already-minimized windows and dead ids change nothing.
    #[verifier::rlimit(100)]
    #[verifier::spinoff_prover]
    pub fn minimize_window(&mut self, id: u32)
        requires
            old(self).wf(),
        ensures
            final(self).wf(),
            final(self).last_mouse_button == old(self).last_mouse_button,
            !old(self).wlive(id as int) || old(self).winv(id as int).minimized ==> *final(self)
                == *old(self),
            old(self).wlive(id as int) && !old(self).winv(id as int).minimized ==> {
                let w = old(self).winv(id as int);
                &&& final(self).winv(id as int).minimized
                &&& final(self).winv(id as int).z_order == old(self).min_z_order
                &&& final(self).windows@ == old(self).windows@.update(
                    id as int,
                    Some(
                        Window {
                            minimized: true,
                            z_order: old(self).min_z_order,
                            focused: false,
                            ..w
                        },
                    ),
                )
                &&& final(self).focused == (if old(self).focused == Some(id) {
                    None::<u32>
                } else {
                    old(self).focused
                })
                &&& final(self).pointer == (match old(self).pointer {
                    PointerState::Idle => old(self).pointer,
                    PointerState::Dragging { window, .. } => if window == id {
                        PointerState::Idle
                    } else {
                        old(self).pointer
                    },
                    PointerState::Resizing { window, .. } => if window == id {
                        PointerState::Idle
                    } else {
                        old(self).pointer
                    },
                })
                &&& final(self).order@ == old(self).order@
                &&& final(self).ds.dirty_rect == DirtyRect::union_of(
                    old(self).ds.dirty_rect,
                    DirtyRect { x: w.x, y: w.y, width: w.width, height: w.height, valid: true },
                )
                &&& DisplayServer::pool_op_frame(old(self).ds, final(self).ds)
                &&& final(self).ds.slots@ == old(self).ds.slots@.update(
                    w.surface as int,
                    Some(
                        Surface {
                            z_order: old(self).min_z_order,
                            ..old(self).ds.surf(w.surface as int)
                        },
                    ),
                )
            },
    {
        if id >= N_WIN as u32 {
            return;
        }
        let (wx, wy, ww, wh, surface, minimized, was_focused): (i32, i32, u32, u32, u32, bool, bool) =
            match &self.windows[id as usize] {
            Some(w) => (w.x, w.y, w.width, w.height, w.surface, w.minimized, w.focused),
            None => { return; },
        };
        if minimized {
            return;
        }
        self.release_pointer_from(id);
        let mz: i32 = self.min_z_order;
        match &mut self.windows[id as usize] {
            Some(w) => {
                w.minimized = true;
                w.z_order = mz;
                w.focused = false;
            },
            None => {},
        }
        proof {
            assert(self.windows@ =~= old(self).windows@.update(
                id as int,
                Some(
                    Window {
                        minimized: true,
                        z_order: mz,
                        focused: false,
                        ..old(self).winv(id as int)
                    },
                ),
            ));
        }
        if self.min_z_order > -0x7FFF_FFFF {
            self.min_z_order = mz - 1;
        }
        if was_focused {
            self.focused = None;
        }
        self.ds.set_surface_z_order(surface, mz);
        self.ds.mark_dirty(wx, wy, ww, wh);
        proof {
            let r = DirtyRect { x: wx, y: wy, width: ww, height: wh, valid: true };
            crate::rect::lemma_union_contains(old(self).ds.dirty_rect, r);
            crate::rect::lemma_union_absorbed(
                DirtyRect::union_of(old(self).ds.dirty_rect, r),
                r,
            );
            self.lemma_wm_wf_minimize(*old(self), id as int, mz);
        }
    }

    /// After a minimize, the manager invariant holds again.
    proof fn lemma_wm_wf_minimize(self, pre: WindowManager, id: int, mz: i32)
        requires
            pre.wf(),
            self.ds.wf(),
            0 <= id < N_WIN,
            pre.windows@[id] is Some,
            !pre.winv(id).minimized,
            self.windows.len() == N_WIN,
            mz == pre.min_z_order,
            self.windows@ == pre.windows@.update(
                id,
                Some(
                    Window { minimized: true, z_order: mz, focused: false, ..pre.winv(id) },
                ),
            ),
            self.min_z_order <= -1000,
            self.ds.slots@ == pre.ds.slots@.update(
                pre.winv(id).surface as int,
                Some(
                    Surface { z_order: mz, ..pre.ds.surf(pre.winv(id).surface as int) },
                ),
            ),
            self.order@ == pre.order@,
            self.focused == (if pre.focused == Some(id as u32) {
                None::<u32>
            } else {
                pre.focused
            }),
            self.pointer == (match pre.pointer {
                PointerState::Idle => pre.pointer,
                PointerState::Dragging { window, .. } => if window == id as u32 {
                    PointerState::Idle
                } else {
                    pre.pointer
                },
                PointerState::Resizing { window, .. } => if window == id as u32 {
                    PointerState::Idle
                } else {
                    pre.pointer
                },
            }),
            self.next_z_order == pre.next_z_order,
        ensures
            self.wf(),
    {
        let surf = pre.winv(id).surface as int;
        assert forall|i: int|
            0 <= i < N_WIN && (#[trigger] self.windows@[i]) is Some implies {
            let w = self.winv(i);
            &&& w.wf()
            &&& w.id == i
            &&& self.ds.live(w.surface as int)
            &&& self.ds.surf(w.surface as int).x == w.x
            &&& self.ds.surf(w.surface as int).y == w.y
            &&& self.ds.surf(w.surface as int).width == w.width
            &&& self.ds.surf(w.surface as int).height == w.height
            &&& self.ds.surf(w.surface as int).z_order == w.z_order
        } by {
            if i != id {
                assert(pre.windows@[i] is Some);
                assert(pre.winv(i).surface != pre.winv(id).surface);
                assert(self.ds.slots@[self.winv(i).surface as int] == pre.ds.slots@[self.winv(
                    i,
                ).surface as int]);
            }
        }
        assert forall|i: int, j: int|
            0 <= i < j < N_WIN && (#[trigger] self.windows@[i]) is Some
                && (#[trigger] self.windows@[j]) is Some implies self.winv(i).surface
            != self.winv(j).surface by {
            assert(pre.windows@[i] is Some && pre.windows@[j] is Some);
        }
        assert forall|s: int|
            0 <= s < N_SURF && (#[trigger] self.ds.slots@[s]) is Some implies exists|i: int|
            0 <= i < N_WIN && (#[trigger] self.windows@[i]) is Some && self.winv(i).surface
                == s by {
            if s == surf {
                assert(self.windows@[id] is Some && self.winv(id).surface == s);
            } else {
                assert(pre.ds.slots@[s] is Some);
                let i0 = choose|i0: int|
                    0 <= i0 < N_WIN && (#[trigger] pre.windows@[i0]) is Some && pre.winv(
                        i0,
                    ).surface == s;
                assert(self.windows@[i0] is Some && self.winv(i0).surface == s);
            }
        }
        self.lemma_wm_order_same(pre);
        match self.focused {
            Some(f) => {
                assert(pre.focused == Some(f));
                assert(pre.winv(f as int).focused);
                assert forall|i: int|
                    0 <= i < N_WIN && (#[trigger] self.windows@[i]) is Some && i != f implies !self.winv(
                    i,
                ).focused by {
                    assert(pre.windows@[i] is Some);
                }
            },
            None => {
                assert forall|i: int|
                    0 <= i < N_WIN && (#[trigger] self.windows@[i]) is Some implies !self.winv(
                    i,
                ).focused by {
                    assert(pre.windows@[i] is Some);
                    if i != id {
                        assert(!pre.winv(i).focused);
                    }
                }
            },
        }
        assert forall|i: int|
            0 <= i < N_WIN && (#[trigger] self.windows@[i]) is Some implies (if self.winv(
            i,
        ).minimized {
            self.winv(i).z_order < 0
        } else {
            0 <= self.winv(i).z_order <= self.next_z_order
        }) by {
            if i != id {
                assert(pre.windows@[i] is Some);
            }
        }
        match self.pointer {
            PointerState::Idle => {},
            PointerState::Dragging { window, .. } => {
                assert(pre.pointer == self.pointer);
                assert(pre.wlive(window as int));
                assert(window != id as u32);
            },
            PointerState::Resizing { window, .. } => {
                assert(pre.pointer == self.pointer);
                assert(pre.wlive(window as int));
                assert(window != id as u32);
            },
        }
    }



    /// Focuses a window and brings it to the front.
    #[verifier::rlimit(100)]
    #[verifier::spinoff_prover]
    fn focus_and_front(&mut self, id: u32)
        requires
            old(self).wf(),
            old(self).wlive(id as int),
            !old(self).winv(id as int).minimized,
        ensures
            final(self).wf(),
            final(self).wlive(id as int),
            final(self).focused == Some(id),
            final(self).winv(id as int) == (Window {
                focused: true,
                invalidated: true,
                z_order: final(self).winv(id as int).z_order,
                ..old(self).winv(id as int)
            }),
            final(self).order.len() == old(self).order.len(),
            final(self).order@[final(self).order.len() - 1] == id as usize,
            final(self).pointer == old(self).pointer,
            final(self).last_mouse_button == old(self).last_mouse_button,
            final(self).min_z_order == old(self).min_z_order,
            final(self).next_z_order as int == (if old(self).next_z_order < 0x7FFF_FFFF {
                old(self).next_z_order + 1
            } else {
                old(self).next_z_order as int
            }),
            (forall|j: int|
                0 <= j < N_WIN && j != id && (#[trigger] old(self).windows@[j]) is Some && !old(
                    self,
                ).winv(j).minimized ==> old(self).winv(j).z_order < old(self).next_z_order)
                ==> final(self).ds.z_list@ == old(self).ds.z_list@.remove(
                old(self).ds.z_index_of(old(self).winv(id as int).surface as int),
            ).push(old(self).winv(id as int).surface as usize),
            DisplayServer::pool_op_frame(old(self).ds, final(self).ds),
            final(self).ds.slots@ == old(self).ds.slots@.update(
                old(self).winv(id as int).surface as int,
                Some(
                    Surface {
                        z_order: final(self).winv(id as int).z_order,
                        ..old(self).ds.surf(old(self).winv(id as int).surface as int)
                    },
                ),
            ),
            forall|j: int|
                0 <= j < N_WIN ==> ((#[trigger] final(self).windows@[j]) is Some <==> old(self).windows@[j] is Some),
            forall|j: int|
                0 <= j < N_WIN && (#[trigger] final(self).windows@[j]) is Some && !final(self).winv(j).minimized ==> final(self).winv(j).z_order <= final(self).winv(
                    id as int,
                ).z_order,
            final(self).windows@ == (match old(self).focused {
                Some(f) => if f == id {
                    old(self).windows@
                } else {
                    old(self).windows@.update(
                        f as int,
                        Some(
                            Window { focused: false, invalidated: true, ..old(self).winv(f as int) },
                        ),
                    )
                },
                None => old(self).windows@,
            }).update(
                id as int,
                Some(
                    Window {
                        focused: true,
                        invalidated: true,
                        z_order: old(self).next_z_order,
                        ..old(self).winv(id as int)
                    },
                ),
            ),
    {
        let ghost pre: WindowManager = *self;
        self.switch_focus_to(id);
        let ghost mid: WindowManager = *self;
        self.bring_to_front(id);
        proof {
            assert(mid.next_z_order == pre.next_z_order);
            match pre.focused {
                Some(f) => {
                    if f == id {
                        assert(pre.winv(id as int).focused);
                        assert(mid.windows@ == pre.windows@);
                        assert(mid.winv(id as int) == pre.winv(id as int));
                        assert(self.windows@ =~= pre.windows@.update(
                            id as int,
                            Some(
                                Window {
                                    focused: true,
                                    invalidated: true,
                                    z_order: pre.next_z_order,
                                    ..pre.winv(id as int)
                                },
                            ),
                        ));
                    } else {
                        assert(self.windows@ =~= pre.windows@.update(
                            f as int,
                            Some(
                                Window {
                                    focused: false,
                                    invalidated: true,
                                    ..pre.winv(f as int)
                                },
                            ),
                        ).update(
                            id as int,
                            Some(
                                Window {
                                    focused: true,
                                    invalidated: true,
                                    z_order: pre.next_z_order,
                                    ..pre.winv(id as int)
                                },
                            ),
                        ));
                    }
                },
                None => {
                    assert(self.windows@ =~= pre.windows@.update(
                        id as int,
                        Some(
                            Window {
                                focused: true,
                                invalidated: true,
                                z_order: pre.next_z_order,
                                ..pre.winv(id as int)
                            },
                        ),
                    ));
                },
            }
        }
        proof {
            assert(final(self).ds.slots@ =~= old(self).ds.slots@.update(
                old(self).winv(id as int).surface as int,
                Some(
                    Surface {
                        z_order: final(self).winv(id as int).z_order,
                        ..old(self).ds.surf(old(self).winv(id as int).surface as int)
                    },
                ),
            ));
            let s = pre.winv(id as int).surface;
            if forall|j: int|
                0 <= j < N_WIN && j != id as int && (#[trigger] pre.windows@[j]) is Some && !pre.winv(
                    j,
                ).minimized ==> pre.winv(j).z_order < pre.next_z_order {
                assert forall|j: int|
                    0 <= j < N_WIN && j != id as int && (#[trigger] mid.windows@[j]) is Some
                        && !mid.winv(j).minimized implies mid.winv(j).z_order
                    < mid.next_z_order by {
                    assert(pre.windows@[j] is Some);
                    assert(mid.winv(j).z_order == pre.winv(j).z_order);
                    assert(mid.winv(j).minimized == pre.winv(j).minimized);
                }
                assert(self.ds.z_list@ == mid.ds.z_list@.remove(
                    mid.ds.z_index_of(s as int),
                ).push(s as usize));
                let k0 = pre.ds.z_index_of(s as int);
                let k1 = mid.ds.z_index_of(s as int);
                assert(0 <= k0 < pre.ds.z_list.len() && pre.ds.z_list@[k0] == s as usize) by {
                    assert(pre.ds.slots@[s as int] is Some);
                }
                assert(0 <= k1 < mid.ds.z_list.len() && mid.ds.z_list@[k1] == s as usize) by {
                    assert(mid.ds.slots@[s as int] is Some);
                }
                assert(k0 == k1);
            }
        }
    }

    /// Restores a minimized window: it returns to the normal z band,
    /// takes the focus and comes to the front.  Unminimized windows and
    /// dead ids change nothing.
    #[verifier::rlimit(100)]
    #[verifier::spinoff_prover]
    pub fn restore_window(&mut self, id: u32)
        requires
            old(self).wf(),
        ensures
            final(self).wf(),
            final(self).last_mouse_button == old(self).last_mouse_button,
            final(self).pointer == old(self).pointer,
            !old(self).wlive(id as int) || !old(self).winv(id as int).minimized ==> *final(self)
                == *old(self),
            old(self).wlive(id as int) && old(self).winv(id as int).minimized ==> {
                &&& final(self).wlive(id as int)
                &&& final(self).winv(id as int) == (Window {
                    minimized: false,
                    z_order: final(self).winv(id as int).z_order,
                    focused: true,
                    invalidated: true,
                    ..old(self).winv(id as int)
                })
                &&& final(self).focused == Some(id)
                &&& final(self).order.len() == old(self).order.len()
                &&& final(self).order@[final(self).order.len() - 1] == id as usize
                &&& DisplayServer::pool_op_frame(old(self).ds, final(self).ds)
                &&& forall|j: int|
                    0 <= j < N_WIN && (#[trigger] final(self).windows@[j]) is Some
                        && !final(self).winv(j).minimized ==> final(self).winv(j).z_order
                        <= final(self).winv(id as int).z_order
            },
    {
        if id >= N_WIN as u32 {
            return;
        }
        let (wx, wy, ww, wh, surface, minimized): (i32, i32, u32, u32, u32, bool) = match &self
            .windows[id as usize] {
            Some(w) => (w.x, w.y, w.width, w.height, w.surface, w.minimized),
            None => { return; },
        };
        if !minimized {
            return;
        }
        let nz: i32 = self.next_z_order;
        match &mut self.windows[id as usize] {
            Some(w) => {
                w.minimized = false;
                w.z_order = nz;
            },
            None => {},
        }
        proof {
            assert(self.windows@ =~= old(self).windows@.update(
                id as int,
                Some(Window { minimized: false, z_order: nz, ..old(self).winv(id as int) }),
            ));
        }
        if self.next_z_order < 0x7FFF_FFFF {
            self.next_z_order = nz + 1;
        }
        self.ds.set_surface_z_order(surface, nz);
        self.ds.mark_dirty(wx, wy, ww, wh);
        proof {
            self.lemma_wm_wf_one_window(*old(self), id as int);
            self.lemma_wm_order_same(*old(self));
        }
        self.focus_and_front(id);
    }

    /// Restores a maximized window's saved geometry exactly; the old and
    /// the new rectangle are marked damaged and the window is marked for
    /// redraw.  Unmaximized windows and dead ids change nothing.
    #[verifier::rlimit(100)]
    #[verifier::spinoff_prover]
    pub fn unmaximize_window(&mut self, id: u32)
        requires
            old(self).wf(),
        ensures
            final(self).wf(),
            final(self).last_mouse_button == old(self).last_mouse_button,
            !old(self).wlive(id as int) || !old(self).winv(id as int).maximized ==> *final(self)
                == *old(self),
            old(self).wlive(id as int) && old(self).winv(id as int).maximized ==> {
                let w = old(self).winv(id as int);
                &&& final(self).windows@ == old(self).windows@.update(
                    id as int,
                    Some(
                        Window {
                            x: w.orig_x,
                            y: w.orig_y,
                            width: w.orig_width,
                            height: w.orig_height,
                            maximized: false,
                            invalidated: true,
                            ..w
                        },
                    ),
                )
                &&& final(self).order@ == old(self).order@
                &&& final(self).focused == old(self).focused
                &&& final(self).pointer == old(self).pointer
                &&& DisplayServer::pool_op_frame(old(self).ds, final(self).ds)
                &&& final(self).ds.dirty_rect.contains(
                    DirtyRect { x: w.x, y: w.y, width: w.width, height: w.height, valid: true },
                )
                &&& final(self).ds.dirty_rect.contains(
                    DirtyRect {
                        x: w.orig_x,
                        y: w.orig_y,
                        width: w.orig_width,
                        height: w.orig_height,
                        valid: true,
                    },
                )
            },
    {
        if id >= N_WIN as u32 {
            return;
        }
        let (wx, wy, ww, wh, surface, maximized, ox, oy, ow, oh): (
            i32,
            i32,
            u32,
            u32,
            u32,
            bool,
            i32,
            i32,
            u32,
            u32,
        ) = match &self.windows[id as usize] {
            Some(w) => (
                w.x,
                w.y,
                w.width,
                w.height,
                w.surface,
                w.maximized,
                w.orig_x,
                w.orig_y,
                w.orig_width,
                w.orig_height,
            ),
            None => { return; },
        };
        if !maximized {
            return;
        }
        self.ds.mark_dirty(wx, wy, ww, wh);
        self.ds.set_surface_size(surface, ow, oh);
        self.ds.set_surface_position(surface, ox, oy);
        match &mut self.windows[id as usize] {
            Some(w) => {
                w.x = ox;
                w.y = oy;
                w.width = ow;
                w.height = oh;
                w.maximized = false;
                w.invalidated = true;
            },
            None => {},
        }
        self.ds.mark_dirty(ox, oy, ow, oh);
        proof {
            assert(self.windows@ =~= old(self).windows@.update(
                id as int,
                Some(
                    Window {
                        x: ox,
                        y: oy,
                        width: ow,
                        height: oh,
                        maximized: false,
                        invalidated: true,
                        ..old(self).winv(id as int)
                    },
                ),
            ));
            assert(self.ds.slots@ =~= old(self).ds.slots@.update(
                surface as int,
                Some(self.ds.surf(surface as int)),
            ));
            self.lemma_wm_wf_one_window(*old(self), id as int);
            self.lemma_wm_order_same(*old(self));
            let r1 = DirtyRect { x: wx, y: wy, width: ww, height: wh, valid: true };
            let r2 = DirtyRect { x: ox, y: oy, width: ow, height: oh, valid: true };
            crate::rect::lemma_union_contains(old(self).ds.dirty_rect, r1);
            crate::rect::lemma_union_contains(
                DirtyRect::union_of(old(self).ds.dirty_rect, r1),
                DirtyRect { x: wx, y: wy, width: ww, height: wh, valid: true },
            );
        }
    }

    /// Fills a window's whole buffer with `color`.  A dead id changes
    /// nothing.
    pub fn clear_window(&mut self, id: u32, color: u32)
        requires
            old(self).wf(),
        ensures
            final(self).wf(),
            !old(self).wlive(id as int) ==> *final(self) == *old(self),
            old(self).wlive(id as int) ==> {
                let w = old(self).winv(id as int);
                &&& final(self).windows@ == old(self).windows@
                &&& *final(self) == (WindowManager { ds: final(self).ds, ..*old(self) })
                &&& DisplayServer::draw_op_frame(old(self).ds, final(self).ds, w.surface as int)
                &&& forall|i: int|
                    0 <= i < MAX_SURFACE_BUFFER ==> final(self).wbuf(id as int)[i] == (if i
                        < w.width * w.height {
                        color
                    } else {
                        old(self).wbuf(id as int)[i]
                    })
            },
    {
        if id >= N_WIN as u32 {
            return;
        }
        let surface: u32 = match &self.windows[id as usize] {
            Some(w) => w.surface,
            None => { return; },
        };
        self.ds.clear_surface(surface, color);
        proof {
            self.lemma_wm_wf_draw(*old(self), id as int);
        }
    }

    /// After a drawing operation that only replaced one window's buffer
    /// contents, the manager invariant holds again.
    proof fn lemma_wm_wf_draw(self, pre: WindowManager, id: int)
        requires
            pre.wf(),
            self.ds.wf(),
            0 <= id < N_WIN,
            pre.windows@[id] is Some,
            self.windows@ == pre.windows@,
            self.windows.len() == N_WIN,
            self.order@ == pre.order@,
            self.focused == pre.focused,
            self.pointer == pre.pointer,
            self.next_z_order == pre.next_z_order,
            self.min_z_order == pre.min_z_order,
            DisplayServer::draw_op_frame(pre.ds, self.ds, pre.winv(id).surface as int),
        ensures
            self.wf(),
    {
        let surf = pre.winv(id).surface as int;
        assert forall|i: int|
            0 <= i < N_WIN && (#[trigger] self.windows@[i]) is Some implies {
            let w = self.winv(i);
            &&& w.wf()
            &&& w.id == i
            &&& self.ds.live(w.surface as int)
            &&& self.ds.surf(w.surface as int).x == w.x
            &&& self.ds.surf(w.surface as int).y == w.y
            &&& self.ds.surf(w.surface as int).width == w.width
            &&& self.ds.surf(w.surface as int).height == w.height
            &&& self.ds.surf(w.surface as int).z_order == w.z_order
        } by {
            assert(pre.windows@[i] is Some);
            if self.winv(i).surface as int != surf {
                assert(self.ds.slots@[self.winv(i).surface as int] == pre.ds.slots@[self.winv(
                    i,
                ).surface as int]);
            }
        }
        assert forall|s: int|
            0 <= s < N_SURF && (#[trigger] self.ds.slots@[s]) is Some implies exists|i: int|
            0 <= i < N_WIN && (#[trigger] self.windows@[i]) is Some && self.winv(i).surface
                == s by {
            assert(pre.ds.slots@[s] is Some);
            let i0 = choose|i0: int|
                0 <= i0 < N_WIN && (#[trigger] pre.windows@[i0]) is Some && pre.winv(i0).surface
                    == s;
            assert(self.windows@[i0] is Some && self.winv(i0).surface == s);
        }
        self.lemma_wm_order_same(pre);
        match self.pointer {
            PointerState::Idle => {},
            PointerState::Dragging { window, .. } => {
                assert(pre.wlive(window as int));
            },
            PointerState::Resizing { window, .. } => {
                assert(pre.wlive(window as int));
            },
        }
    }

    /// Writes one pixel of a window's buffer, clipped to the window.  A
    /// dead id changes nothing.
    pub fn draw_pixel_to_window(&mut self, id: u32, x: i32, y: i32, color: u32)
        requires
            old(self).wf(),
        ensures
            final(self).wf(),
            !old(self).wlive(id as int) ==> *final(self) == *old(self),
            old(self).wlive(id as int) ==> {
                let w = old(self).winv(id as int);
                &&& final(self).windows@ == old(self).windows@
                &&& *final(self) == (WindowManager { ds: final(self).ds, ..*old(self) })
                &&& DisplayServer::draw_op_frame(old(self).ds, final(self).ds, w.surface as int)
                &&& forall|px: int, py: int|
                    0 <= px < w.width && 0 <= py < w.height ==> #[trigger] pix(
                        final(self).wbuf(id as int),
                        w.width as int,
                        px,
                        py,
                    ) == if px == x && py == y {
                        color
                    } else {
                        pix(old(self).wbuf(id as int), w.width as int, px, py)
                    }
                &&& forall|i: int|
                    w.width * w.height <= i < MAX_SURFACE_BUFFER ==> final(self).wbuf(
                        id as int,
                    )[i] == old(self).wbuf(id as int)[i]
            },
    {
        if id >= N_WIN as u32 {
            return;
        }
        let surface: u32 = match &self.windows[id as usize] {
            Some(w) => w.surface,
            None => { return; },
        };
        self.ds.draw_surface_pixel(surface, x, y, color);
        proof {
            self.lemma_wm_wf_draw(*old(self), id as int);
        }
    }

    /// Writes `color` to a rectangle of a window's buffer, clipped to
    /// the window.  A dead id changes nothing.
    pub fn draw_filled_rect_to_window(&mut self, id: u32, x: i32, y: i32, w: u32, h: u32, color: u32)
        requires
            old(self).wf(),
            -0x0200_0000 <= x <= 0x0200_0000,
            -0x0200_0000 <= y <= 0x0200_0000,
            w <= MAX_SURFACE_BUFFER,
            h <= MAX_SURFACE_BUFFER,
        ensures
            final(self).wf(),
            !old(self).wlive(id as int) ==> *final(self) == *old(self),
            old(self).wlive(id as int) ==> {
                let win = old(self).winv(id as int);
                &&& final(self).windows@ == old(self).windows@
                &&& *final(self) == (WindowManager { ds: final(self).ds, ..*old(self) })
                &&& DisplayServer::draw_op_frame(old(self).ds, final(self).ds, win.surface as int)
                &&& forall|px: int, py: int|
                    0 <= px < win.width && 0 <= py < win.height ==> #[trigger] pix(
                        final(self).wbuf(id as int),
                        win.width as int,
                        px,
                        py,
                    ) == if x <= px < x + w && y <= py < y + h {
                        color
                    } else {
                        pix(old(self).wbuf(id as int), win.width as int, px, py)
                    }
                &&& forall|i: int|
                    win.width * win.height <= i < MAX_SURFACE_BUFFER ==> final(self).wbuf(
                        id as int,
                    )[i] == old(self).wbuf(id as int)[i]
            },
    {
        if id >= N_WIN as u32 {
            return;
        }
        let surface: u32 = match &self.windows[id as usize] {
            Some(w) => w.surface,
            None => { return; },
        };
        self.ds.fill_surface_rect(surface, x, y, w, h, color);
        proof {
            self.lemma_wm_wf_draw(*old(self), id as int);
        }
    }

    /// Draws one glyph into a window's buffer, clipped to the window.  A
    /// dead id changes nothing.
    pub fn draw_char_to_window(&mut self, id: u32, ch: u8, x: i32, y: i32, color: u32)
        requires
            old(self).wf(),
            -0x0200_0000 <= x <= 0x0200_0000,
            -0x0200_0000 <= y <= 0x0200_0000,
        ensures
            final(self).wf(),
            !old(self).wlive(id as int) ==> *final(self) == *old(self),
            old(self).wlive(id as int) ==> {
                let win = old(self).winv(id as int);
                &&& final(self).windows@ == old(self).windows@
                &&& *final(self) == (WindowManager { ds: final(self).ds, ..*old(self) })
                &&& DisplayServer::draw_op_frame(old(self).ds, final(self).ds, win.surface as int)
                &&& forall|px: int, py: int|
                    0 <= px < win.width && 0 <= py < win.height ==> #[trigger] pix(
                        final(self).wbuf(id as int),
                        win.width as int,
                        px,
                        py,
                    ) == if glyph_lit(font_glyph(ch), px - x, py - y) {
                        color
                    } else {
                        pix(old(self).wbuf(id as int), win.width as int, px, py)
                    }
                &&& forall|i: int|
                    win.width * win.height <= i < MAX_SURFACE_BUFFER ==> final(self).wbuf(
                        id as int,
                    )[i] == old(self).wbuf(id as int)[i]
            },
    {
        if id >= N_WIN as u32 {
            return;
        }
        let surface: u32 = match &self.windows[id as usize] {
            Some(w) => w.surface,
            None => { return; },
        };
        self.ds.draw_surface_glyph(surface, ch, x, y, color);
        proof {
            self.lemma_wm_wf_draw(*old(self), id as int);
        }
    }


    /// How many leading title bytes are kept: at most 63, stopping at
    /// the first zero byte.
    pub open spec fn title_keep_from(s: Seq<u8>, k: int) -> int
        decreases 63 - k,
    {
        if k < 0 || k >= 63 || k >= s.len() || s[k] == 0 {
            k
        } else {
            Self::title_keep_from(s, k + 1)
        }
    }

    /// The stored title: the input truncated to its kept length.
    pub open spec fn title_trunc(s: Seq<u8>) -> Seq<u8> {
        s.take(Self::title_keep_from(s, 0))
    }

    /// The kept length is bounded and marks the first stop.
    proof fn lemma_title_keep(s: Seq<u8>, k: int)
        requires
            0 <= k <= 63,
            k <= s.len(),
        ensures
            k <= Self::title_keep_from(s, k) <= 63,
            Self::title_keep_from(s, k) <= s.len(),
        decreases 63 - k,
    {
        if !(k >= 63 || k >= s.len() || s[k] == 0) {
            Self::lemma_title_keep(s, k + 1);
        }
    }

    /// Allocates a window: the first free slot, backed by a fresh
    /// surface, holding the given geometry and flags and a copy of the
    /// title bounded to 63 bytes, focused and brought to the front.
    /// Returns its id, or `None` when the window pool, the surface pool
    /// or the buffer capacity is exhausted; nothing changes then.
    #[verifier::loop_isolation(false)]
    #[verifier::rlimit(100)]
    #[verifier::spinoff_prover]
    pub fn create_window(
        &mut self,
        title: &[u8],
        x: i32,
        y: i32,
        width: u32,
        height: u32,
        flags: u32,
    ) -> (r: Option<u32>)
        requires
            old(self).wf(),
            -COORD_MAX <= x <= COORD_MAX,
            -COORD_MAX <= y <= COORD_MAX,
            width <= MAX_SURFACE_BUFFER,
            height <= MAX_SURFACE_BUFFER,
        ensures
            final(self).wf(),
            r is Some <==> ((exists|i: int| 0 <= i < N_WIN && old(self).windows@[i] is None) && (
            exists|sl: int| 0 <= sl < N_SURF && old(self).ds.slots@[sl] is None) && width * height
                <= MAX_SURFACE_BUFFER),
            r is None ==> *final(self) == *old(self),
            r is Some ==> {
                let id = r->Some_0 as int;
                let w = final(self).winv(id);
                &&& 0 <= id < N_WIN
                &&& old(self).windows@[id] is None
                &&& forall|j: int| 0 <= j < id ==> old(self).windows@[j] is Some
                &&& final(self).wlive(id)
                &&& w.x == x && w.y == y && w.width == width && w.height == height
                &&& w.title@ == Self::title_trunc(title@)
                &&& w.flags == flags
                &&& w.focused && w.invalidated
                &&& !w.minimized && !w.maximized
                &&& w.orig_x == x && w.orig_y == y && w.orig_width == width && w.orig_height
                    == height
                &&& final(self).focused == r
                &&& final(self).order.len() == old(self).order.len() + 1
                &&& final(self).order@[final(self).order.len() - 1] == r->Some_0 as usize
                &&& forall|i: int|
                    0 <= i < MAX_SURFACE_BUFFER ==> final(self).wbuf(id)[i] == 0u32
                &&& final(self).pointer == old(self).pointer
                &&& final(self).last_mouse_button == old(self).last_mouse_button
                &&& final(self).min_z_order == old(self).min_z_order
                &&& w.z_order as int == (if old(self).next_z_order < 0x7FFF_FFFF {
                    old(self).next_z_order + 1
                } else {
                    old(self).next_z_order as int
                })
                &&& final(self).next_z_order as int == (if w.z_order < 0x7FFF_FFFF {
                    w.z_order + 1
                } else {
                    w.z_order as int
                })
                &&& 0 <= w.surface < N_SURF
                &&& old(self).ds.slots@[w.surface as int] is None
                &&& final(self).ds.slots@ == old(self).ds.slots@.update(
                    w.surface as int,
                    Some(
                        Surface {
                            id: w.surface,
                            x,
                            y,
                            width,
                            height,
                            buffer: final(self).ds.surf(w.surface as int).buffer,
                            z_order: w.z_order,
                        },
                    ),
                )
                &&& old(self).next_z_order < 0x7FFF_FFFF ==> final(self).ds.z_list@ == old(
                    self,
                ).ds.z_list@.push(w.surface as usize)
                &&& DisplayServer::pool_op_frame(old(self).ds, final(self).ds)
                &&& forall|j: int|
                    0 <= j < N_WIN && j != id ==> ((#[trigger] final(self).windows@[j]) is Some
                        <==> old(self).windows@[j] is Some)
                &&& forall|j: int|
                    0 <= j < N_WIN && (#[trigger] final(self).windows@[j]) is Some && !final(self).winv(j).minimized ==> final(self).winv(j).z_order <= w.z_order
            },
    {
        let mut slot: usize = 0;
        while slot < N_WIN
            invariant
                slot <= N_WIN,
                *self == *old(self),
                forall|j: int| 0 <= j < slot ==> self.windows@[j] is Some,
            decreases N_WIN - slot,
        {
            if self.windows[slot].is_none() {
                let z0: i32 = self.next_z_order;
                let sid: Option<u32> = self.ds.create_surface(x, y, width, height, z0);
                let surface: u32 = match sid {
                    Some(sv) => sv,
                    None => { return None; },
                };
                proof {
                    assert forall|j: int| 0 <= j < old(self).ds.z_list.len() implies old(
                        self,
                    ).ds.slot_z((#[trigger] old(self).ds.z_list@[j]) as int) <= z0 as int by {
                        let sslot = old(self).ds.z_list@[j];
                        assert(old(self).ds.live(sslot as int));
                        let wi = choose|wi: int|
                            0 <= wi < N_WIN && (#[trigger] old(self).windows@[wi]) is Some && old(
                                self,
                            ).winv(wi).surface == sslot;
                        if old(self).winv(wi).minimized {
                            assert(old(self).winv(wi).z_order < 0);
                        }
                        assert(old(self).ds.slot_z(sslot as int) == old(self).winv(
                            wi,
                        ).z_order as int);
                    }
                    assert(old(self).ds.z_insert_pos(z0 as int) == old(
                        self,
                    ).ds.z_list.len() as int) by {
                        old(self).ds.lemma_z_insert_pos(z0 as int);
                    }
                    assert(self.ds.z_list@ =~= old(self).ds.z_list@.push(surface as usize));
                }
                let mut tbuf: Vec<u8> = Vec::new();
                let mut i: usize = 0;
                let tl: usize = title.len();
                while i < 63 && i < tl && title[i] != 0
                    invariant
                        i <= 63,
                        i <= tl,
                        tl == title.len(),
                        tbuf@ == title@.take(i as int),
                        Self::title_keep_from(title@, 0) == Self::title_keep_from(
                            title@,
                            i as int,
                        ),
                    decreases 63 - i,
                {
                    let b: u8 = title[i];
                    tbuf.push(b);
                    proof {
                        assert(tbuf@ =~= title@.take(i + 1));
                    }
                    i = i + 1;
                }
                proof {
                    assert(Self::title_keep_from(title@, i as int) == i as int);
                    assert(tbuf@ == Self::title_trunc(title@));
                    Self::lemma_title_keep(title@, 0);
                }
                let window = Window {
                    id: slot as u32,
                    x,
                    y,
                    width,
                    height,
                    title: tbuf,
                    flags,
                    focused: false,
                    invalidated: true,
                    surface,
                    z_order: z0,
                    minimized: false,
                    maximized: false,
                    orig_x: x,
                    orig_y: y,
                    orig_width: width,
                    orig_height: height,
                };
                let ghost gwin: Window = window;
                self.windows[slot] = Some(window);
                self.order.push(slot);
                if self.next_z_order < 0x7FFF_FFFF {
                    self.next_z_order = z0 + 1;
                }
                proof {
                    assert(self.windows@[slot as int] == Some(gwin));
                    assert(self.windows@ =~= old(self).windows@.update(
                        slot as int,
                        Some(gwin),
                    ));
                    self.lemma_wm_wf_create(*old(self), slot as int, surface as int);
                }
                let ghost cw_mid: WindowManager = *self;
                self.focus_and_front(slot as u32);
                proof {
                    if z0 < 0x7FFF_FFFF {
                        assert forall|j: int|
                            0 <= j < N_WIN && j != slot as int && (#[trigger] cw_mid.windows@[j]) is Some && !cw_mid.winv(j).minimized implies cw_mid.winv(
                            j,
                        ).z_order < cw_mid.next_z_order by {
                            assert(old(self).windows@[j] is Some);
                            assert(cw_mid.winv(j) == old(self).winv(j));
                        }
                        assert(self.ds.z_list@ == cw_mid.ds.z_list@.remove(
                            cw_mid.ds.z_index_of(surface as int),
                        ).push(surface as usize));
                        let ln = old(self).ds.z_list.len() as int;
                        assert(cw_mid.ds.z_list@[ln] == surface as usize);
                        assert forall|k2: int| 0 <= k2 < ln implies (#[trigger] cw_mid.ds.z_list@[k2]) != surface as usize by {
                            assert(cw_mid.ds.z_list@[k2] == old(self).ds.z_list@[k2]);
                            assert(old(self).ds.live(old(self).ds.z_list@[k2] as int));
                        }
                        assert(cw_mid.ds.z_index_of(surface as int) == ln);
                        assert(cw_mid.ds.z_list@.remove(ln) =~= old(self).ds.z_list@);
                        assert(self.ds.z_list@ =~= old(self).ds.z_list@.push(
                            surface as usize,
                        ));
                    }
                    assert(self.ds.slots@ =~= old(self).ds.slots@.update(
                        surface as int,
                        Some(
                            Surface {
                                id: surface,
                                x,
                                y,
                                width,
                                height,
                                buffer: self.ds.surf(surface as int).buffer,
                                z_order: self.winv(slot as int).z_order,
                            },
                        ),
                    ));
                }
                return Some(slot as u32);
            }
            slot = slot + 1;
        }
        None
    }

    /// After installing a fresh window over a freshly created surface,
    /// the manager invariant holds again.
    proof fn lemma_wm_wf_create(self, pre: WindowManager, id: int, surf: int)
        requires
            pre.wf(),
            self.ds.wf(),
            0 <= id < N_WIN,
            pre.windows@[id] is None,
            self.windows.len() == N_WIN,
            self.windows@ == pre.windows@.update(id, Some(self.winv(id))),
            self.winv(id).wf(),
            self.winv(id).id == id,
            self.winv(id).surface == surf,
            0 <= surf < N_SURF,
            pre.ds.slots@[surf] is None,
            self.ds.slots@ == pre.ds.slots@.update(surf, Some(self.ds.surf(surf))),
            self.ds.surf(surf).x == self.winv(id).x,
            self.ds.surf(surf).y == self.winv(id).y,
            self.ds.surf(surf).width == self.winv(id).width,
            self.ds.surf(surf).height == self.winv(id).height,
            self.ds.surf(surf).z_order == self.winv(id).z_order,
            self.order@ == pre.order@.push(id as usize),
            self.focused == pre.focused,
            !self.winv(id).focused,
            !self.winv(id).minimized,
            0 <= self.winv(id).z_order,
            self.winv(id).z_order <= self.next_z_order,
            pre.next_z_order <= self.next_z_order,
            self.min_z_order == pre.min_z_order,
            self.pointer == pre.pointer,
            self.last_mouse_button == pre.last_mouse_button,
        ensures
            self.wf(),
    {
        assert forall|i: int|
            0 <= i < N_WIN && (#[trigger] self.windows@[i]) is Some implies {
            let w = self.winv(i);
            &&& w.wf()
            &&& w.id == i
            &&& self.ds.live(w.surface as int)
            &&& self.ds.surf(w.surface as int).x == w.x
            &&& self.ds.surf(w.surface as int).y == w.y
            &&& self.ds.surf(w.surface as int).width == w.width
            &&& self.ds.surf(w.surface as int).height == w.height
            &&& self.ds.surf(w.surface as int).z_order == w.z_order
        } by {
            if i != id {
                assert(pre.windows@[i] is Some);
                assert(pre.ds.live(pre.winv(i).surface as int));
                assert(pre.winv(i).surface != surf);
                assert(self.ds.slots@[self.winv(i).surface as int] == pre.ds.slots@[self.winv(
                    i,
                ).surface as int]);
            }
        }
        assert forall|i: int, j: int|
            0 <= i < j < N_WIN && (#[trigger] self.windows@[i]) is Some
                && (#[trigger] self.windows@[j]) is Some implies self.winv(i).surface
            != self.winv(j).surface by {
            if i != id && j != id {
                assert(pre.windows@[i] is Some && pre.windows@[j] is Some);
            } else {
                let o = if i == id {
                    j
                } else {
                    i
                };
                assert(pre.windows@[o] is Some);
                assert(pre.ds.live(pre.winv(o).surface as int));
            }
        }
        assert forall|sl: int|
            0 <= sl < N_SURF && (#[trigger] self.ds.slots@[sl]) is Some implies exists|i: int|
            0 <= i < N_WIN && (#[trigger] self.windows@[i]) is Some && self.winv(i).surface
                == sl by {
            if sl == surf {
                assert(self.windows@[id] is Some && self.winv(id).surface == sl);
            } else {
                assert(pre.ds.slots@[sl] is Some);
                let i0 = choose|i0: int|
                    0 <= i0 < N_WIN && (#[trigger] pre.windows@[i0]) is Some && pre.winv(
                        i0,
                    ).surface == sl;
                assert(self.windows@[i0] is Some && self.winv(i0).surface == sl);
            }
        }
        assert forall|k: int| 0 <= k < self.order.len() implies self.wlive(
            (#[trigger] self.order@[k]) as int,
        ) by {
            if k < pre.order.len() {
                assert(self.order@[k] == pre.order@[k]);
                assert(pre.wlive(pre.order@[k] as int));
            } else {
                assert(self.order@[k] == id as usize);
            }
        }
        assert forall|k1: int, k2: int|
            0 <= k1 < k2 < self.order.len() implies #[trigger] self.order@[k1]
            != #[trigger] self.order@[k2] by {
            if k2 < pre.order.len() {
                assert(self.order@[k1] == pre.order@[k1] && self.order@[k2] == pre.order@[k2]);
            } else {
                assert(self.order@[k2] == id as usize);
                assert(self.order@[k1] == pre.order@[k1]);
                assert(pre.wlive(pre.order@[k1] as int));
            }
        }
        assert forall|i: int|
            0 <= i < N_WIN && (#[trigger] self.windows@[i]) is Some implies exists|k: int|
            0 <= k < self.order.len() && #[trigger] self.order@[k] == i by {
            if i == id {
                assert(self.order@[self.order.len() - 1] == id as usize);
            } else {
                assert(pre.windows@[i] is Some);
                let k0 = choose|k0: int|
                    0 <= k0 < pre.order.len() && #[trigger] pre.order@[k0] == i;
                assert(self.order@[k0] == i);
            }
        }
        match self.focused {
            Some(f) => {
                assert(pre.winv(f as int).focused);
                assert(f != id);
                assert forall|i: int|
                    0 <= i < N_WIN && (#[trigger] self.windows@[i]) is Some && i != f implies !self.winv(
                    i,
                ).focused by {
                    if i != id {
                        assert(pre.windows@[i] is Some && !pre.winv(i).focused);
                    }
                }
            },
            None => {
                assert forall|i: int|
                    0 <= i < N_WIN && (#[trigger] self.windows@[i]) is Some implies !self.winv(
                    i,
                ).focused by {
                    if i != id {
                        assert(pre.windows@[i] is Some && !pre.winv(i).focused);
                    }
                }
            },
        }
        assert forall|i: int|
            0 <= i < N_WIN && (#[trigger] self.windows@[i]) is Some implies (if self.winv(
            i,
        ).minimized {
            self.winv(i).z_order < 0
        } else {
            0 <= self.winv(i).z_order <= self.next_z_order
        }) by {
            if i != id {
                assert(pre.windows@[i] is Some);
            }
        }
        match self.pointer {
            PointerState::Idle => {},
            PointerState::Dragging { window, .. } => {
                assert(pre.wlive(window as int));
            },
            PointerState::Resizing { window, .. } => {
                assert(pre.wlive(window as int));
            },
        }
    }

    /// Destroys a window: its surface is freed, its rectangle is marked
    /// damaged, its slot becomes free while every other pool cell keeps
    /// its value, and any focus, drag or resize reference to it is
    /// cleared.  A dead id changes nothing.
    #[verifier::loop_isolation(false)]
    #[verifier::rlimit(100)]
    #[verifier::spinoff_prover]
    pub fn destroy_window(&mut self, id: u32)
        requires
            old(self).wf(),
        ensures
            final(self).wf(),
            final(self).last_mouse_button == old(self).last_mouse_button,
            !old(self).wlive(id as int) ==> *final(self) == *old(self),
            old(self).wlive(id as int) ==> {
                let w = old(self).winv(id as int);
                &&& final(self).windows@ == old(self).windows@.update(id as int, None::<Window>)
                &&& final(self).order@ == old(self).order@.remove(
                    old(self).order_index_of(id as int),
                )
                &&& final(self).focused == (if old(self).focused == Some(id) {
                    None::<u32>
                } else {
                    old(self).focused
                })
                &&& final(self).pointer == (match old(self).pointer {
                    PointerState::Idle => old(self).pointer,
                    PointerState::Dragging { window, .. } => if window == id {
                        PointerState::Idle
                    } else {
                        old(self).pointer
                    },
                    PointerState::Resizing { window, .. } => if window == id {
                        PointerState::Idle
                    } else {
                        old(self).pointer
                    },
                })
                &&& final(self).ds.slots@ == old(self).ds.slots@.update(
                    w.surface as int,
                    None::<Surface>,
                )
                &&& final(self).ds.dirty_rect == DirtyRect::union_of(
                    old(self).ds.dirty_rect,
                    DirtyRect { x: w.x, y: w.y, width: w.width, height: w.height, valid: true },
                )
                &&& DisplayServer::pool_op_frame(old(self).ds, final(self).ds)
            },
    {
        if id >= N_WIN as u32 {
            return;
        }
        let (wx, wy, ww, wh, surface, was_focused): (i32, i32, u32, u32, u32, bool) = match &self
            .windows[id as usize] {
            Some(w) => (w.x, w.y, w.width, w.height, w.surface, w.focused),
            None => { return; },
        };
        self.ds.mark_dirty(wx, wy, ww, wh);
        self.ds.destroy_surface(surface);
        proof {
            let r = DirtyRect { x: wx, y: wy, width: ww, height: wh, valid: true };
            crate::rect::lemma_union_contains(old(self).ds.dirty_rect, r);
            crate::rect::lemma_union_absorbed(
                DirtyRect::union_of(old(self).ds.dirty_rect, r),
                r,
            );
        }
        self.windows[id as usize] = None;
        self.release_pointer_from(id);
        proof {
            match old(self).focused {
                Some(f) => {
                    if f == id {
                        assert(old(self).winv(id as int).focused);
                    } else {
                        assert(!old(self).winv(id as int).focused);
                    }
                },
                None => {
                    assert(!old(self).winv(id as int).focused);
                },
            }
        }
        if was_focused {
            self.focused = None;
        }
        let len: usize = self.order.len();
        let mut k: usize = 0;
        while k < len
            invariant
                len == self.order.len(),
                k <= len,
                self.order@ == old(self).order@,
                self.windows@ == old(self).windows@.update(id as int, None::<Window>),
                self.windows.len() == N_WIN,
                self.ds.wf(),
                self.ds.slots@ == old(self).ds.slots@.update(
                    old(self).winv(id as int).surface as int,
                    None::<Surface>,
                ),
                self.ds.dirty_rect == DirtyRect::union_of(
                    old(self).ds.dirty_rect,
                    DirtyRect { x: wx, y: wy, width: ww, height: wh, valid: true },
                ),
                DisplayServer::pool_op_frame(old(self).ds, self.ds),
                self.focused == (if old(self).focused == Some(id) {
                    None::<u32>
                } else {
                    old(self).focused
                }),
                self.pointer == (match old(self).pointer {
                    PointerState::Idle => old(self).pointer,
                    PointerState::Dragging { window, .. } => if window == id {
                        PointerState::Idle
                    } else {
                        old(self).pointer
                    },
                    PointerState::Resizing { window, .. } => if window == id {
                        PointerState::Idle
                    } else {
                        old(self).pointer
                    },
                }),
                self.next_z_order == old(self).next_z_order,
                self.min_z_order == old(self).min_z_order,
                self.last_mouse_button == old(self).last_mouse_button,
                forall|j: int| 0 <= j < k ==> #[trigger] self.order@[j] != id as usize,
            decreases len - k,
        {
            if self.order[k] == id as usize {
                proof {
                    assert(old(self).order_index_of(id as int) == k as int);
                }
                self.order.remove(k);
                proof {
                    self.lemma_wm_wf_destroy(*old(self), id as int, k as int);
                }
                return;
            }
            k = k + 1;
        }
        proof {
            let k0 = choose|k0: int|
                0 <= k0 < old(self).order.len() && #[trigger] old(self).order@[k0] == id as usize;
            assert(false);
        }
    }

    /// After a destroy, the manager invariant holds again.
    proof fn lemma_wm_wf_destroy(self, pre: WindowManager, id: int, k: int)
        requires
            pre.wf(),
            self.ds.wf(),
            0 <= id < N_WIN,
            pre.windows@[id] is Some,
            self.windows.len() == N_WIN,
            self.windows@ == pre.windows@.update(id, None::<Window>),
            self.ds.slots@ == pre.ds.slots@.update(pre.winv(id).surface as int, None::<Surface>),
            0 <= k < pre.order.len(),
            pre.order@[k] == id,
            self.order@ == pre.order@.remove(k),
            self.focused == (if pre.focused == Some(id as u32) {
                None::<u32>
            } else {
                pre.focused
            }),
            self.pointer == (match pre.pointer {
                PointerState::Idle => pre.pointer,
                PointerState::Dragging { window, .. } => if window == id as u32 {
                    PointerState::Idle
                } else {
                    pre.pointer
                },
                PointerState::Resizing { window, .. } => if window == id as u32 {
                    PointerState::Idle
                } else {
                    pre.pointer
                },
            }),
            self.next_z_order == pre.next_z_order,
            self.min_z_order == pre.min_z_order,
        ensures
            self.wf(),
    {
        let surf = pre.winv(id).surface as int;
        assert forall|i: int|
            0 <= i < N_WIN && (#[trigger] self.windows@[i]) is Some implies {
            let w = self.winv(i);
            &&& w.wf()
            &&& w.id == i
            &&& self.ds.live(w.surface as int)
            &&& self.ds.surf(w.surface as int).x == w.x
            &&& self.ds.surf(w.surface as int).y == w.y
            &&& self.ds.surf(w.surface as int).width == w.width
            &&& self.ds.surf(w.surface as int).height == w.height
            &&& self.ds.surf(w.surface as int).z_order == w.z_order
        } by {
            assert(i != id);
            assert(pre.windows@[i] is Some);
            assert(pre.winv(i).surface != pre.winv(id).surface);
            assert(self.ds.slots@[self.winv(i).surface as int] == pre.ds.slots@[self.winv(
                i,
            ).surface as int]);
        }
        assert forall|i: int, j: int|
            0 <= i < j < N_WIN && (#[trigger] self.windows@[i]) is Some
                && (#[trigger] self.windows@[j]) is Some implies self.winv(i).surface
            != self.winv(j).surface by {
            assert(pre.windows@[i] is Some && pre.windows@[j] is Some);
        }
        assert forall|sl: int|
            0 <= sl < N_SURF && (#[trigger] self.ds.slots@[sl]) is Some implies exists|i: int|
            0 <= i < N_WIN && (#[trigger] self.windows@[i]) is Some && self.winv(i).surface
                == sl by {
            assert(sl != surf);
            assert(pre.ds.slots@[sl] is Some);
            let i0 = choose|i0: int|
                0 <= i0 < N_WIN && (#[trigger] pre.windows@[i0]) is Some && pre.winv(i0).surface
                    == sl;
            assert(i0 != id);
            assert(self.windows@[i0] is Some && self.winv(i0).surface == sl);
        }
        let po = pre.order@;
        let so = self.order@;
        po.remove_ensures(k);
        assert forall|j: int| 0 <= j < so.len() implies self.wlive(
            (#[trigger] so[j]) as int,
        ) by {
            let j0 = if j < k {
                j
            } else {
                j + 1
            };
            assert(so[j] == po[j0]);
            assert(pre.wlive(po[j0] as int));
            assert(po[j0] != po[k]);
        }
        assert forall|a: int, b: int| 0 <= a < b < so.len() implies (#[trigger] so[a])
            != (#[trigger] so[b]) by {
            let a0 = if a < k {
                a
            } else {
                a + 1
            };
            let b0 = if b < k {
                b
            } else {
                b + 1
            };
            assert(so[a] == po[a0] && so[b] == po[b0]);
        }
        assert forall|i: int|
            0 <= i < N_WIN && (#[trigger] self.windows@[i]) is Some implies exists|j: int|
            0 <= j < so.len() && #[trigger] so[j] == i by {
            assert(i != id);
            assert(pre.windows@[i] is Some);
            let k0 = choose|k0: int| 0 <= k0 < po.len() && #[trigger] po[k0] == i;
            assert(k0 != k);
            if k0 < k {
                assert(so[k0] == i);
            } else {
                assert(so[k0 - 1] == i);
            }
        }
        match self.focused {
            Some(f) => {
                assert(pre.focused == Some(f));
                assert(f != id as u32);
                assert(pre.winv(f as int).focused);
                assert forall|i: int|
                    0 <= i < N_WIN && (#[trigger] self.windows@[i]) is Some && i != f implies !self.winv(
                    i,
                ).focused by {
                    assert(pre.windows@[i] is Some);
                }
            },
            None => {
                assert forall|i: int|
                    0 <= i < N_WIN && (#[trigger] self.windows@[i]) is Some implies !self.winv(
                    i,
                ).focused by {
                    assert(pre.windows@[i] is Some);
                    if pre.focused is Some && pre.focused->Some_0 as int != i {
                        assert(!pre.winv(i).focused);
                    }
                }
            },
        }
        assert forall|i: int|
            0 <= i < N_WIN && (#[trigger] self.windows@[i]) is Some implies (if self.winv(
            i,
        ).minimized {
            self.winv(i).z_order < 0
        } else {
            0 <= self.winv(i).z_order <= self.next_z_order
        }) by {
            assert(pre.windows@[i] is Some);
        }
        match self.pointer {
            PointerState::Idle => {},
            PointerState::Dragging { window, .. } => {
                assert(pre.pointer == self.pointer);
                assert(window != id as u32);
                assert(pre.wlive(window as int));
            },
            PointerState::Resizing { window, .. } => {
                assert(pre.pointer == self.pointer);
                assert(window != id as u32);
                assert(pre.wlive(window as int));
            },
        }
    }


    /// The largest geometry a maximize may use: the whole screen when
    /// it fits the surface buffer, else the largest aspect-preserving
    /// rectangle within the buffer capacity, centered.
    /// The size a maximize falls back to when the framebuffer itself
    /// exceeds the buffer capacity: the largest aspect-preserving
    /// rectangle whose area fits, tried with the capacity's long side
    /// first, then its short side, then the capacity box clipped to the
    /// screen.
    pub open spec fn max_fit_size(fb_w: int, fb_h: int) -> (int, int) {
        let cap_w: int = if fb_w < 800 {
            fb_w
        } else {
            800
        };
        let cap_h: int = if fb_h < 600 {
            fb_h
        } else {
            600
        };
        if fb_w > fb_h {
            let h1 = fb_h * 800 / fb_w;
            if 800 * h1 <= MAX_SURFACE_BUFFER {
                (800int, h1)
            } else {
                let w2 = fb_w * 600 / fb_h;
                if w2 * 600 <= MAX_SURFACE_BUFFER {
                    (w2, 600int)
                } else {
                    (cap_w, cap_h)
                }
            }
        } else {
            let w1 = fb_w * 600 / fb_h;
            if w1 * 600 <= MAX_SURFACE_BUFFER {
                (w1, 600int)
            } else {
                let h2 = fb_h * 800 / fb_w;
                if 800 * h2 <= MAX_SURFACE_BUFFER {
                    (800int, h2)
                } else {
                    (cap_w, cap_h)
                }
            }
        }
    }

    /// The geometry a maximize aims for: the whole framebuffer when its
    /// area fits the buffer capacity, else the largest aspect-preserving
    /// rectangle that fits, centered on the screen.
    pub open spec fn maximized_geometry_spec(fb_w: int, fb_h: int) -> (int, int, int, int) {
        if fb_w * fb_h <= MAX_SURFACE_BUFFER {
            (0int, 0int, fb_w, fb_h)
        } else {
            let s = Self::max_fit_size(fb_w, fb_h);
            let nx: int = if fb_w >= s.0 {
                (fb_w - s.0) / 2
            } else {
                0
            };
            let ny: int = if fb_h >= s.1 {
                (fb_h - s.1) / 2
            } else {
                0
            };
            (nx, ny, s.0, s.1)
        }
    }

    pub fn maximized_geometry(fb_w: u32, fb_h: u32) -> (r: (i32, i32, u32, u32))
        requires
            0 < fb_w <= MAX_FB_PITCH,
            0 < fb_h <= MAX_FB_HEIGHT,
        ensures
            r.2 * r.3 <= MAX_SURFACE_BUFFER,
            r.2 <= MAX_SURFACE_BUFFER,
            r.3 <= MAX_SURFACE_BUFFER,
            fb_w * fb_h <= MAX_SURFACE_BUFFER ==> r == (0i32, 0i32, fb_w, fb_h),
            0 <= r.0 <= fb_w,
            0 <= r.1 <= fb_h,
            (r.0 as int, r.1 as int, r.2 as int, r.3 as int) == Self::maximized_geometry_spec(
                fb_w as int,
                fb_h as int,
            ),
    {
        proof {
            assert(fb_w * fb_h <= 8192 * 4096) by (nonlinear_arith)
                requires
                    fb_w <= 8192,
                    fb_h <= 4096,
            ;
        }
        if fb_w as u64 * fb_h as u64 <= MAX_SURFACE_BUFFER as u64 {
            return (0, 0, fb_w, fb_h);
        }
        let mut nw: u32;
        let mut nh: u32;
        if fb_w > fb_h {
            nw = 800;
            nh = ((fb_h as u64 * 800) / fb_w as u64) as u32;
            proof {
                assert(fb_h * 800 <= 4096 * 800) by (nonlinear_arith)
                    requires
                        fb_h <= 4096,
                ;
            }
            if nw as u64 * nh as u64 > MAX_SURFACE_BUFFER as u64 {
                nh = 600;
                nw = ((fb_w as u64 * 600) / fb_h as u64) as u32;
                proof {
                    assert(fb_w * 600 <= 8192 * 600) by (nonlinear_arith)
                        requires
                            fb_w <= 8192,
                    ;
                }
                if nw as u64 * nh as u64 > MAX_SURFACE_BUFFER as u64 {
                    nw = if fb_w < 800 {
                        fb_w
                    } else {
                        800
                    };
                    nh = if fb_h < 600 {
                        fb_h
                    } else {
                        600
                    };
                    proof {
                        assert(nw * nh <= 800 * 600) by (nonlinear_arith)
                            requires
                                nw <= 800,
                                nh <= 600,
                        ;
                    }
                }
            }
        } else {
            nh = 600;
            nw = ((fb_w as u64 * 600) / fb_h as u64) as u32;
            proof {
                assert(fb_w * 600 <= 8192 * 600) by (nonlinear_arith)
                    requires
                        fb_w <= 8192,
                ;
            }
            if nw as u64 * nh as u64 > MAX_SURFACE_BUFFER as u64 {
                nw = 800;
                nh = ((fb_h as u64 * 800) / fb_w as u64) as u32;
                proof {
                    assert(fb_h * 800 <= 4096 * 800) by (nonlinear_arith)
                        requires
                            fb_h <= 4096,
                    ;
                }
                if nw as u64 * nh as u64 > MAX_SURFACE_BUFFER as u64 {
                    nw = if fb_w < 800 {
                        fb_w
                    } else {
                        800
                    };
                    nh = if fb_h < 600 {
                        fb_h
                    } else {
                        600
                    };
                    proof {
                        assert(nw * nh <= 800 * 600) by (nonlinear_arith)
                            requires
                                nw <= 800,
                                nh <= 600,
                        ;
                    }
                }
            }
        }
        let nx: i32 = if fb_w >= nw {
            ((fb_w - nw) / 2) as i32
        } else {
            0
        };
        let ny: i32 = if fb_h >= nh {
            ((fb_h - nh) / 2) as i32
        } else {
            0
        };
        (nx, ny, nw, nh)
    }

    /// Maximizes a window: its geometry is saved, it takes the largest
    /// geometry that fits the buffer capacity, comes to the front with
    /// the focus, and a frame is rendered.  Already-maximized windows
    /// and dead ids change nothing.
    #[verifier::rlimit(100)]
    #[verifier::spinoff_prover]
    pub fn maximize_window(&mut self, id: u32)
        requires
            old(self).wf(),
        ensures
            final(self).wf(),
            final(self).last_mouse_button == old(self).last_mouse_button,
            final(self).ds.mouse_x == old(self).ds.mouse_x,
            final(self).ds.mouse_y == old(self).ds.mouse_y,
            !old(self).wlive(id as int) || old(self).winv(id as int).maximized ==> *final(self)
                == *old(self),
            old(self).wlive(id as int) && !old(self).winv(id as int).maximized ==> {
                let w = old(self).winv(id as int);
                let g = final(self).winv(id as int);
                &&& final(self).wlive(id as int)
                &&& g.maximized
                &&& !g.minimized
                &&& g.focused
                &&& g.invalidated
                &&& final(self).focused == Some(id)
                &&& g.orig_x == w.x && g.orig_y == w.y && g.orig_width == w.width
                    && g.orig_height == w.height
                &&& g.width * g.height <= MAX_SURFACE_BUFFER
                &&& (old(self).ds.fb_width * old(self).ds.fb_height <= MAX_SURFACE_BUFFER ==> (
                g.x, g.y, g.width, g.height) == (0i32, 0i32, old(self).ds.fb_width, old(self).ds.fb_height))
                &&& (g.x as int, g.y as int, g.width as int, g.height as int)
                    == Self::maximized_geometry_spec(
                    old(self).ds.fb_width as int,
                    old(self).ds.fb_height as int,
                )
                &&& final(self).pointer == (match old(self).pointer {
                    PointerState::Idle => old(self).pointer,
                    PointerState::Dragging { window, .. } => if window == id {
                        PointerState::Idle
                    } else {
                        old(self).pointer
                    },
                    PointerState::Resizing { window, .. } => if window == id {
                        PointerState::Idle
                    } else {
                        old(self).pointer
                    },
                })
                &&& !final(self).ds.dirty_rect.valid
            },
    {
        if id >= N_WIN as u32 {
            return;
        }
        let (wx, wy, ww, wh, surface, maximized, minimized): (
            i32,
            i32,
            u32,
            u32,
            u32,
            bool,
            bool,
        ) = match &self.windows[id as usize] {
            Some(w) => (w.x, w.y, w.width, w.height, w.surface, w.maximized, w.minimized),
            None => { return; },
        };
        if maximized {
            return;
        }
        if minimized {
            self.restore_window(id);
        }
        self.release_pointer_from(id);
        let ghost pre2: WindowManager = *self;
        proof {
            assert(pre2.wf());
        }
        let (wx2, wy2, ww2, wh2): (i32, i32, u32, u32) = match &self.windows[id as usize] {
            Some(w) => (w.x, w.y, w.width, w.height),
            None => (wx, wy, ww, wh),
        };
        let (fbw, fbh, _p): (u32, u32, u32) = self.get_framebuffer();
        let (nx, ny, nw, nh): (i32, i32, u32, u32) = Self::maximized_geometry(fbw, fbh);
        self.ds.mark_dirty(wx2, wy2, ww2, wh2);
        let surface2: u32 = match &self.windows[id as usize] {
            Some(w) => w.surface,
            None => surface,
        };
        self.ds.set_surface_position(surface2, nx, ny);
        self.ds.set_surface_size(surface2, nw, nh);
        match &mut self.windows[id as usize] {
            Some(w) => {
                w.orig_x = wx2;
                w.orig_y = wy2;
                w.orig_width = ww2;
                w.orig_height = wh2;
                w.x = nx;
                w.y = ny;
                w.width = nw;
                w.height = nh;
                w.maximized = true;
                w.invalidated = true;
            },
            None => {},
        }
        proof {
            assert(self.windows@ =~= pre2.windows@.update(
                id as int,
                Some(self.winv(id as int)),
            ));
            assert(self.ds.slots@ =~= pre2.ds.slots@.update(
                self.winv(id as int).surface as int,
                Some(self.ds.surf(self.winv(id as int).surface as int)),
            ));
            self.lemma_wm_wf_one_window(pre2, id as int);
            self.lemma_wm_order_same(pre2);
        }
        self.focus_and_front(id);
        let (gx, gy, gw, gh): (i32, i32, u32, u32) = match &self.windows[id as usize] {
            Some(w) => (w.x, w.y, w.width, w.height),
            None => (0, 0, 0, 0),
        };
        self.ds.mark_dirty(gx, gy, gw, gh);
        let ghost pre3: WindowManager = *self;
        proof {
            assert(pre3.wf());
        }
        self.ds.render();
        proof {
            self.lemma_wm_wf_ds_same(pre3);
        }
    }

    /// A display-server step that keeps the surface pool (such as a
    /// rendered frame) preserves the manager invariant.
    proof fn lemma_wm_wf_ds_same(self, pre: WindowManager)
        requires
            pre.wf(),
            self.ds.wf(),
            self.ds.slots@ == pre.ds.slots@,
            self.windows@ == pre.windows@,
            self.windows.len() == pre.windows.len(),
            self.order@ == pre.order@,
            self.focused == pre.focused,
            self.pointer == pre.pointer,
            self.next_z_order == pre.next_z_order,
            self.min_z_order == pre.min_z_order,
        ensures
            self.wf(),
    {
        assert forall|i: int|
            0 <= i < N_WIN && (#[trigger] self.windows@[i]) is Some implies {
            let w = self.winv(i);
            &&& w.wf()
            &&& w.id == i
            &&& self.ds.live(w.surface as int)
            &&& self.ds.surf(w.surface as int).x == w.x
            &&& self.ds.surf(w.surface as int).y == w.y
            &&& self.ds.surf(w.surface as int).width == w.width
            &&& self.ds.surf(w.surface as int).height == w.height
            &&& self.ds.surf(w.surface as int).z_order == w.z_order
        } by {
            assert(pre.windows@[i] is Some);
        }
        assert forall|sl: int|
            0 <= sl < N_SURF && (#[trigger] self.ds.slots@[sl]) is Some implies exists|i: int|
            0 <= i < N_WIN && (#[trigger] self.windows@[i]) is Some && self.winv(i).surface
                == sl by {
            assert(pre.ds.slots@[sl] is Some);
            let i0 = choose|i0: int|
                0 <= i0 < N_WIN && (#[trigger] pre.windows@[i0]) is Some && pre.winv(i0).surface
                    == sl;
            assert(self.windows@[i0] is Some && self.winv(i0).surface == sl);
        }
        self.lemma_wm_order_same(pre);
        match self.pointer {
            PointerState::Idle => {},
            PointerState::Dragging { window, .. } => {
                assert(pre.wlive(window as int));
            },
            PointerState::Resizing { window, .. } => {
                assert(pre.wlive(window as int));
            },
        }
    }

    /// Which resize border region of a window the pointer grabs:
    /// the outer 8 pixels of any non-title edge, corners included, but
    /// only for resizable, unmaximized windows and below the title bar.
    pub open spec fn resize_edge_spec(w: Window, mx: int, my: int) -> ResizeEdge {
        if w.flags & WINDOW_RESIZABLE == 0 {
            ResizeEdge::NoEdge
        } else if w.maximized {
            ResizeEdge::NoEdge
        } else {
            let rel_x = mx - w.x;
            let rel_y = my - w.y;
            if rel_y < TITLE_BAR_HEIGHT {
                ResizeEdge::NoEdge
            } else {
                let on_left = rel_x < RESIZE_BORDER;
                let on_right = rel_x >= w.width - RESIZE_BORDER;
                let on_top = rel_y < RESIZE_BORDER;
                let on_bottom = rel_y >= w.height - RESIZE_BORDER;
                if on_top && !on_bottom && on_left && !on_right {
                    ResizeEdge::TopLeft
                } else if on_top && !on_bottom && !on_left && on_right {
                    ResizeEdge::TopRight
                } else if !on_top && on_bottom && on_left && !on_right {
                    ResizeEdge::BottomLeft
                } else if !on_top && on_bottom && !on_left && on_right {
                    ResizeEdge::BottomRight
                } else if on_top && !on_bottom && !on_left && !on_right {
                    ResizeEdge::Top
                } else if !on_top && on_bottom && !on_left && !on_right {
                    ResizeEdge::Bottom
                } else if !on_top && !on_bottom && on_left && !on_right {
                    ResizeEdge::Left
                } else if !on_top && !on_bottom && !on_left && on_right {
                    ResizeEdge::Right
                } else {
                    ResizeEdge::NoEdge
                }
            }
        }
    }

    /// Computes the resize border region under the pointer.  A dead id
    /// grabs nothing.
    pub fn get_resize_edge(&self, id: u32, mouse_x: i32, mouse_y: i32) -> (r: ResizeEdge)
        requires
            self.wf(),
            -MOUSE_MAX <= mouse_x <= MOUSE_MAX,
            -MOUSE_MAX <= mouse_y <= MOUSE_MAX,
        ensures
            !self.wlive(id as int) ==> r == ResizeEdge::NoEdge,
            self.wlive(id as int) ==> r == Self::resize_edge_spec(
                self.winv(id as int),
                mouse_x as int,
                mouse_y as int,
            ),
    {
        if id >= N_WIN as u32 {
            return ResizeEdge::NoEdge;
        }
        match &self.windows[id as usize] {
            Some(w) => {
                if w.flags & WINDOW_RESIZABLE == 0 {
                    return ResizeEdge::NoEdge;
                }
                if w.maximized {
                    return ResizeEdge::NoEdge;
                }
                let rel_x: i32 = mouse_x - w.x;
                let rel_y: i32 = mouse_y - w.y;
                if rel_y < TITLE_BAR_HEIGHT as i32 {
                    return ResizeEdge::NoEdge;
                }
                let on_left: bool = rel_x < RESIZE_BORDER;
                let on_right: bool = rel_x as i64 >= w.width as i64 - RESIZE_BORDER as i64;
                let on_top: bool = rel_y < RESIZE_BORDER;
                let on_bottom: bool = rel_y as i64 >= w.height as i64 - RESIZE_BORDER as i64;
                if on_top && !on_bottom && on_left && !on_right {
                    ResizeEdge::TopLeft
                } else if on_top && !on_bottom && !on_left && on_right {
                    ResizeEdge::TopRight
                } else if !on_top && on_bottom && on_left && !on_right {
                    ResizeEdge::BottomLeft
                } else if !on_top && on_bottom && !on_left && on_right {
                    ResizeEdge::BottomRight
                } else if on_top && !on_bottom && !on_left && !on_right {
                    ResizeEdge::Top
                } else if !on_top && on_bottom && !on_left && !on_right {
                    ResizeEdge::Bottom
                } else if !on_top && !on_bottom && on_left && !on_right {
                    ResizeEdge::Left
                } else if !on_top && !on_bottom && !on_left && on_right {
                    ResizeEdge::Right
                } else {
                    ResizeEdge::NoEdge
                }
            },
            None => ResizeEdge::NoEdge,
        }
    }

    /// Draws the one pixel outline of a rectangle into a window's
    /// buffer, clipped to the window: the cells of the four border
    /// strips take `color`.  A dead id changes nothing.
    #[verifier::rlimit(100)]
    #[verifier::spinoff_prover]
    pub fn draw_rect_to_window(&mut self, id: u32, x: i32, y: i32, w: u32, h: u32, color: u32)
        requires
            old(self).wf(),
            -COORD_MAX <= x <= COORD_MAX,
            -COORD_MAX <= y <= COORD_MAX,
            0 < w <= MAX_SURFACE_BUFFER,
            0 < h <= MAX_SURFACE_BUFFER,
        ensures
            final(self).wf(),
            !old(self).wlive(id as int) ==> *final(self) == *old(self),
            old(self).wlive(id as int) ==> {
                let win = old(self).winv(id as int);
                &&& final(self).windows@ == old(self).windows@
                &&& *final(self) == (WindowManager { ds: final(self).ds, ..*old(self) })
                &&& DisplayServer::draw_op_frame(old(self).ds, final(self).ds, win.surface as int)
                &&& forall|px: int, py: int|
                    0 <= px < win.width && 0 <= py < win.height ==> #[trigger] pix(
                        final(self).wbuf(id as int),
                        win.width as int,
                        px,
                        py,
                    ) == if (x <= px < x + w && (py == y || py == y + h - 1)) || (y <= py < y + h
                        && (px == x || px == x + w - 1)) {
                        color
                    } else {
                        pix(old(self).wbuf(id as int), win.width as int, px, py)
                    }
                &&& forall|i: int|
                    win.width * win.height <= i < MAX_SURFACE_BUFFER ==> final(self).wbuf(
                        id as int,
                    )[i] == old(self).wbuf(id as int)[i]
            },
    {
        let ghost win0: Window = old(self).winv(id as int);
        self.draw_filled_rect_to_window(id, x, y, w, 1, color);
        let ghost s1: WindowManager = *self;
        self.draw_filled_rect_to_window(id, x, y + h as i32 - 1, w, 1, color);
        let ghost s2: WindowManager = *self;
        self.draw_filled_rect_to_window(id, x, y, 1, h, color);
        let ghost s3: WindowManager = *self;
        self.draw_filled_rect_to_window(id, x + w as i32 - 1, y, 1, h, color);
        proof {
            if old(self).wlive(id as int) {
                let surf = win0.surface as int;
                assert(self.ds.slots@ =~= old(self).ds.slots@.update(
                    surf,
                    Some(
                        Surface {
                            buffer: self.ds.surf(surf).buffer,
                            ..old(self).ds.surf(surf)
                        },
                    ),
                ));
                assert forall|px: int, py: int|
                    0 <= px < win0.width && 0 <= py < win0.height implies #[trigger] pix(
                    self.wbuf(id as int),
                    win0.width as int,
                    px,
                    py,
                ) == if (x <= px < x + w && (py == y || py == y + h - 1)) || (y <= py < y + h && (
                px == x || px == x + w - 1)) {
                    color
                } else {
                    pix(old(self).wbuf(id as int), win0.width as int, px, py)
                } by {
                    assert(pix(s3.wbuf(id as int), win0.width as int, px, py) == pix(
                        s3.wbuf(id as int),
                        win0.width as int,
                        px,
                        py,
                    ));
                    assert(pix(s2.wbuf(id as int), win0.width as int, px, py) == pix(
                        s2.wbuf(id as int),
                        win0.width as int,
                        px,
                        py,
                    ));
                    assert(pix(s1.wbuf(id as int), win0.width as int, px, py) == pix(
                        s1.wbuf(id as int),
                        win0.width as int,
                        px,
                        py,
                    ));
                }
                assert forall|i: int|
                    win0.width * win0.height <= i < MAX_SURFACE_BUFFER implies self.wbuf(
                    id as int,
                )[i] == old(self).wbuf(id as int)[i] by {
                    assert(s3.wbuf(id as int)[i] == s2.wbuf(id as int)[i]);
                    assert(s2.wbuf(id as int)[i] == s1.wbuf(id as int)[i]);
                    assert(s1.wbuf(id as int)[i] == old(self).wbuf(id as int)[i]);
                }
            }
        }
    }

    /// The pen column before the character at index `k` of a text run
    /// starting at `x0`: printable characters advance it by 8, a line
    /// feed resets it, everything else leaves it.
    pub open spec fn pen_at(s: Seq<u8>, k: int, x0: int) -> int
        decreases k,
    {
        if k <= 0 {
            x0
        } else if s[k - 1] == 10 {
            x0
        } else if 32 <= s[k - 1] <= 126 {
            Self::pen_at(s, k - 1, x0) + 8
        } else {
            Self::pen_at(s, k - 1, x0)
        }
    }

    /// What a text run's first `k` characters leave at `(px, py)`: the
    /// text color where the glyph of a printable character covers the
    /// point, the base pixel elsewhere.
    pub open spec fn text_pix(
        base: Seq<u32>,
        sw: int,
        s: Seq<u8>,
        k: int,
        x0: int,
        y: int,
        color: u32,
        px: int,
        py: int,
    ) -> u32
        decreases k,
    {
        if k <= 0 {
            pix(base, sw, px, py)
        } else if 32 <= s[k - 1] <= 126 && glyph_lit(
            font_glyph(s[k - 1]),
            px - Self::pen_at(s, k - 1, x0),
            py - y,
        ) {
            color
        } else {
            Self::text_pix(base, sw, s, k - 1, x0, y, color, px, py)
        }
    }

    /// The pen stays within 8 columns per character of the start.
    proof fn lemma_pen_bounds(s: Seq<u8>, k: int, x0: int)
        requires
            0 <= k <= s.len(),
        ensures
            x0 <= Self::pen_at(s, k, x0) <= x0 + 8 * k,
        decreases k,
    {
        if k > 0 {
            Self::lemma_pen_bounds(s, k - 1, x0);
        }
    }

    /// Draws text into a window's buffer at `(x, y)`: 8 pixel advance
    /// per printable character, a line feed resets the column, other
    /// characters are skipped.  A dead id changes nothing.
    #[verifier::loop_isolation(false)]
    #[verifier::rlimit(100)]
    #[verifier::spinoff_prover]
    pub fn draw_text_to_window(&mut self, id: u32, text: &[u8], x: i32, y: i32, color: u32)
        requires
            old(self).wf(),
            x + 8 * text@.len() <= 0x0200_0000,
            -COORD_MAX <= x <= COORD_MAX,
            -COORD_MAX <= y <= COORD_MAX,
        ensures
            final(self).wf(),
            !old(self).wlive(id as int) ==> *final(self) == *old(self),
            old(self).wlive(id as int) ==> {
                let win = old(self).winv(id as int);
                &&& final(self).windows@ == old(self).windows@
                &&& *final(self) == (WindowManager { ds: final(self).ds, ..*old(self) })
                &&& DisplayServer::draw_op_frame(old(self).ds, final(self).ds, win.surface as int)
                &&& forall|px: int, py: int|
                    0 <= px < win.width && 0 <= py < win.height ==> #[trigger] pix(
                        final(self).wbuf(id as int),
                        win.width as int,
                        px,
                        py,
                    ) == Self::text_pix(
                        old(self).wbuf(id as int),
                        win.width as int,
                        text@,
                        text@.len() as int,
                        x as int,
                        y as int,
                        color,
                        px,
                        py,
                    )
                &&& forall|i: int|
                    win.width * win.height <= i < MAX_SURFACE_BUFFER ==> final(self).wbuf(
                        id as int,
                    )[i] == old(self).wbuf(id as int)[i]
            },
    {
        if id >= N_WIN as u32 {
            return;
        }
        if self.windows[id as usize].is_none() {
            return;
        }
        let ghost win: Window = self.winv(id as int);
        let ghost base: Seq<u32> = self.wbuf(id as int);
        proof {
            assert(self.ds.slots@ =~= old(self).ds.slots@.update(
                win.surface as int,
                Some(
                    Surface {
                        buffer: self.ds.surf(win.surface as int).buffer,
                        ..old(self).ds.surf(win.surface as int)
                    },
                ),
            ));
        }
        let mut pen: i32 = x;
        let mut i: usize = 0;
        let n: usize = text.len();
        while i < n
            invariant
                i <= n,
                n == text@.len(),
                pen == Self::pen_at(text@, i as int, x as int),
                x <= pen <= x + 8 * (i as int),
                self.wf(),
                old(self).wlive(id as int),
                self.windows@ == old(self).windows@,
                *self == (WindowManager { ds: self.ds, ..*old(self) }),
                DisplayServer::pool_op_frame(old(self).ds, self.ds),
                self.ds.dirty_rect == old(self).ds.dirty_rect,
                self.ds.z_list@ == old(self).ds.z_list@,
                self.ds.slots@ == old(self).ds.slots@.update(
                    win.surface as int,
                    Some(
                        Surface {
                            buffer: self.ds.surf(win.surface as int).buffer,
                            ..old(self).ds.surf(win.surface as int)
                        },
                    ),
                ),
                self.ds.surf(win.surface as int).buffer.len() == old(self).ds.surf(
                    win.surface as int,
                ).buffer.len(),
                forall|px: int, py: int|
                    0 <= px < win.width && 0 <= py < win.height ==> #[trigger] pix(
                        self.wbuf(id as int),
                        win.width as int,
                        px,
                        py,
                    ) == Self::text_pix(
                        base,
                        win.width as int,
                        text@,
                        i as int,
                        x as int,
                        y as int,
                        color,
                        px,
                        py,
                    ),
                forall|j: int|
                    win.width * win.height <= j < MAX_SURFACE_BUFFER ==> self.wbuf(id as int)[j]
                        == base[j],
            decreases n - i,
        {
            let ch: u8 = text[i];
            proof {
                Self::lemma_pen_bounds(text@, i as int, x as int);
            }
            if ch >= 32 && ch <= 126 {
                let ghost prev: WindowManager = *self;
                self.draw_char_to_window(id, ch, pen, y, color);
                pen = pen + 8;
                proof {
                    assert(self.ds.slots@ =~= old(self).ds.slots@.update(
                        win.surface as int,
                        Some(
                            Surface {
                                buffer: self.ds.surf(win.surface as int).buffer,
                                ..old(self).ds.surf(win.surface as int)
                            },
                        ),
                    ));
                    assert forall|px: int, py: int|
                        0 <= px < win.width && 0 <= py < win.height implies #[trigger] pix(
                        self.wbuf(id as int),
                        win.width as int,
                        px,
                        py,
                    ) == Self::text_pix(
                        base,
                        win.width as int,
                        text@,
                        i + 1,
                        x as int,
                        y as int,
                        color,
                        px,
                        py,
                    ) by {
                        assert(pix(prev.wbuf(id as int), win.width as int, px, py)
                            == Self::text_pix(
                            base,
                            win.width as int,
                            text@,
                            i as int,
                            x as int,
                            y as int,
                            color,
                            px,
                            py,
                        ));
                    }
                }
            } else if ch == 10 {
                pen = x;
            }
            i = i + 1;
        }
    }

    /// Moves a window to the front: to the tail of the bottom-to-top
    /// order and to a fresh topmost z-order, marking it for redraw and
    /// unioning its rectangle into the dirty region.  Afterwards no
    /// unminimized window has a greater z-order.  A dead id changes
    /// nothing.
    #[verifier::loop_isolation(false)]
    #[verifier::rlimit(100)]
    #[verifier::spinoff_prover]
    pub fn bring_to_front(&mut self, id: u32)
        requires
            old(self).wf(),
            old(self).wlive(id as int) ==> !old(self).winv(id as int).minimized,
        ensures
            final(self).wf(),
            !old(self).wlive(id as int) ==> *final(self) == *old(self),
            old(self).wlive(id as int) ==> {
                let w = old(self).winv(id as int);
                &&& final(self).windows@ == old(self).windows@.update(
                    id as int,
                    Some(Window { z_order: old(self).next_z_order, invalidated: true, ..w }),
                )
                &&& final(self).order@ == old(self).order@.remove(
                    old(self).order_index_of(id as int),
                ).push(id as usize)
                &&& final(self).next_z_order as int == (if old(self).next_z_order < 0x7FFF_FFFF {
                    old(self).next_z_order + 1
                } else {
                    old(self).next_z_order as int
                })
                &&& final(self).focused == old(self).focused
                &&& final(self).pointer == old(self).pointer
                &&& final(self).last_mouse_button == old(self).last_mouse_button
                &&& final(self).min_z_order == old(self).min_z_order
                &&& DisplayServer::pool_op_frame(old(self).ds, final(self).ds)
                &&& final(self).ds.slots@ == old(self).ds.slots@.update(
                    w.surface as int,
                    Some(
                        Surface {
                            z_order: old(self).next_z_order,
                            ..old(self).ds.surf(w.surface as int)
                        },
                    ),
                )
                &&& ({
                    let kk = old(self).ds.z_index_of(w.surface as int);
                    let mid = old(self).ds.z_list@.remove(kk);
                    final(self).ds.z_list@ == mid.insert(
                        final(self).ds.z_reinsert_pos(mid, kk, old(self).next_z_order as int),
                        w.surface as usize,
                    )
                })
                &&& (forall|j: int|
                    0 <= j < N_WIN && j != id && (#[trigger] old(self).windows@[j]) is Some
                        && !old(self).winv(j).minimized ==> old(self).winv(j).z_order < old(
                        self,
                    ).next_z_order) ==> final(self).ds.z_list@ == old(self).ds.z_list@.remove(
                    old(self).ds.z_index_of(w.surface as int),
                ).push(w.surface as usize)
                &&& final(self).ds.dirty_rect == DirtyRect::union_of(
                    old(self).ds.dirty_rect,
                    DirtyRect { x: w.x, y: w.y, width: w.width, height: w.height, valid: true },
                )
                &&& forall|j: int|
                    0 <= j < N_WIN && (#[trigger] final(self).windows@[j]) is Some && !final(self).winv(j).minimized ==> final(self).winv(j).z_order <= final(self).winv(
                        id as int,
                    ).z_order
                &&& (forall|j: int|
                    0 <= j < N_WIN && j != id && (#[trigger] old(self).windows@[j]) is Some
                        && !old(self).winv(j).minimized ==> old(self).winv(j).z_order < old(
                        self,
                    ).next_z_order) ==> forall|j: int|
                    0 <= j < N_WIN && j != id && (#[trigger] final(self).windows@[j]) is Some
                        && !final(self).winv(j).minimized ==> final(self).winv(j).z_order
                        < final(self).winv(id as int).z_order
            },
    {
        if id >= N_WIN as u32 {
            return;
        }
        let (wx, wy, ww, wh, surface): (i32, i32, u32, u32, u32) = match &self.windows[
            id as usize
        ] {
            Some(w) => (w.x, w.y, w.width, w.height, w.surface),
            None => { return; },
        };
        let len: usize = self.order.len();
        let mut k: usize = 0;
        while k < len
            invariant
                len == self.order.len(),
                k <= len,
                *self == *old(self),
                forall|j: int| 0 <= j < k ==> #[trigger] self.order@[j] != id as usize,
            decreases len - k,
        {
            if self.order[k] == id as usize {
                proof {
                    assert(old(self).order_index_of(id as int) == k as int);
                    old(self).order@.remove_ensures(k as int);
                }
                self.order.remove(k);
                self.order.push(id as usize);
                let nz: i32 = self.next_z_order;
                match &mut self.windows[id as usize] {
                    Some(w) => {
                        w.z_order = nz;
                        w.invalidated = true;
                    },
                    None => {},
                }
                proof {
                    assert(self.windows@ =~= old(self).windows@.update(
                        id as int,
                        Some(
                            Window {
                                z_order: nz,
                                invalidated: true,
                                ..old(self).winv(id as int)
                            },
                        ),
                    ));
                }
                if self.next_z_order < 0x7FFF_FFFF {
                    self.next_z_order = nz + 1;
                }
                let ghost before_ds: WindowManager = *self;
                self.ds.set_surface_z_order(surface, nz);
                proof {
                    let kk = old(self).ds.z_index_of(surface as int);
                    let mid = old(self).ds.z_list@.remove(kk);
                    old(self).ds.z_list@.remove_ensures(kk);
                    if forall|j: int|
                        0 <= j < N_WIN && j != id as int && (#[trigger] old(
                            self,
                        ).windows@[j]) is Some && !old(self).winv(j).minimized ==> old(self).winv(
                        j,
                    ).z_order < old(self).next_z_order {
                        assert forall|j: int| 0 <= j < mid.len() implies self.ds.slot_z(
                            (#[trigger] mid[j]) as int,
                        ) <= nz as int - 1 by {
                            let j0 = if j < kk {
                                j
                            } else {
                                j + 1
                            };
                            let sslot = old(self).ds.z_list@[j0];
                            assert(mid[j] == sslot);
                            assert(old(self).ds.live(sslot as int));
                            let wi = choose|wi: int|
                                0 <= wi < N_WIN && (#[trigger] old(self).windows@[wi]) is Some
                                    && old(self).winv(wi).surface == sslot;
                            assert(sslot != surface);
                            assert(wi != id as int);
                            if old(self).winv(wi).minimized {
                                assert(old(self).winv(wi).z_order < 0);
                            } else {
                                assert(old(self).winv(wi).z_order < old(self).next_z_order);
                            }
                            assert(self.ds.slots@[sslot as int] == old(self).ds.slots@[sslot as int]);
                            assert(old(self).ds.slot_z(sslot as int) == old(self).winv(
                                wi,
                            ).z_order as int);
                        }
                        assert(self.ds.z_insert_pos_in(mid, 0, nz as int - 1) == mid.len() as int)
                            by {
                            self.ds.lemma_z_insert_pos_in(mid, 0, nz as int - 1);
                        }
                        assert(self.ds.z_insert_pos_in(mid, 0, nz as int) == mid.len() as int) by {
                            self.ds.lemma_z_insert_pos_in(mid, 0, nz as int);
                        }
                        assert(self.ds.z_reinsert_pos(mid, kk, nz as int) == mid.len() as int);
                        assert(self.ds.z_list@ =~= mid.push(surface as usize));
                    }
                }
                self.ds.mark_dirty(wx, wy, ww, wh);
                proof {
                    let r = DirtyRect {
                        x: wx,
                        y: wy,
                        width: ww,
                        height: wh,
                        valid: true,
                    };
                    crate::rect::lemma_union_contains(old(self).ds.dirty_rect, r);
                    crate::rect::lemma_union_absorbed(
                        DirtyRect::union_of(old(self).ds.dirty_rect, r),
                        r,
                    );
                    self.lemma_wm_wf_one_window(*old(self), id as int);
                    self.lemma_wm_order_moved(*old(self), id as int, k as int);
                }
                return;
            }
            k = k + 1;
        }
        proof {
            let k0 = choose|k0: int|
                0 <= k0 < old(self).order.len() && #[trigger] old(self).order@[k0] == id as usize;
            assert(false);
        }
    }


    /// The new geometry a resize drag yields: per edge, the grabbed
    /// border follows the pointer, the size never drops below the
    /// minimum, right and bottom edges clamp against the framebuffer
    /// and left and top edges keep the origin inside the screen.
    /// The border regions that move a window's right edge.
    pub open spec fn edge_moves_right(edge: ResizeEdge) -> bool {
        edge == ResizeEdge::Right || edge == ResizeEdge::BottomRight || edge == ResizeEdge::TopRight
    }

    /// The border regions that move a window's left edge.
    pub open spec fn edge_moves_left(edge: ResizeEdge) -> bool {
        edge == ResizeEdge::Left || edge == ResizeEdge::TopLeft || edge == ResizeEdge::BottomLeft
    }

    /// The border regions that move a window's bottom edge.
    pub open spec fn edge_moves_bottom(edge: ResizeEdge) -> bool {
        edge == ResizeEdge::Bottom || edge == ResizeEdge::BottomRight || edge
            == ResizeEdge::BottomLeft
    }

    /// The border regions that move a window's top edge.
    pub open spec fn edge_moves_top(edge: ResizeEdge) -> bool {
        edge == ResizeEdge::Top || edge == ResizeEdge::TopLeft || edge == ResizeEdge::TopRight
    }

    /// The geometry a resize in progress aims for.  A right or bottom
    /// grab adds the pointer's travel to the starting size, holds the
    /// minimum, and clamps against the screen's far edge; a left or top
    /// grab anchors the opposite edge, keeps the origin at zero or
    /// beyond, and on hitting the minimum pins the far edge in place.
    /// The results are bounded by the buffer capacity and the coordinate
    /// range.
    pub open spec fn resize_geometry_spec(
        edge: ResizeEdge,
        wx: int,
        wy: int,
        ww: int,
        wh: int,
        start_w: int,
        start_h: int,
        start_x: int,
        start_y: int,
        mx: int,
        my: int,
        fb_w: int,
        fb_h: int,
    ) -> (int, int, int, int) {
        let dx = mx - start_x;
        let dy = my - start_y;
        let hpair: (int, int) = if Self::edge_moves_right(edge) {
            let wa = start_w + dx;
            let wb: int = if wa < MIN_WINDOW_DIM {
                MIN_WINDOW_DIM as int
            } else {
                wa
            };
            let wc: int = if wx + wb > fb_w {
                if fb_w - wx < 0 {
                    0
                } else {
                    fb_w - wx
                }
            } else {
                wb
            };
            (wx, wc)
        } else if Self::edge_moves_left(edge) {
            let pair: (int, int) = if mx < 0 {
                (0int, start_w - mx)
            } else {
                (mx, start_w - dx)
            };
            if pair.1 < MIN_WINDOW_DIM {
                (wx + ww - MIN_WINDOW_DIM, MIN_WINDOW_DIM as int)
            } else {
                pair
            }
        } else {
            (wx, start_w)
        };
        let vpair: (int, int) = if Self::edge_moves_bottom(edge) {
            let ha = start_h + dy;
            let hb: int = if ha < MIN_WINDOW_DIM {
                MIN_WINDOW_DIM as int
            } else {
                ha
            };
            let hc: int = if wy + hb > fb_h {
                if fb_h - wy < 0 {
                    0
                } else {
                    fb_h - wy
                }
            } else {
                hb
            };
            (wy, hc)
        } else if Self::edge_moves_top(edge) {
            let pair: (int, int) = if my < 0 {
                (0int, start_h - my)
            } else {
                (my, start_h - dy)
            };
            if pair.1 < MIN_WINDOW_DIM {
                (wy + wh - MIN_WINDOW_DIM, MIN_WINDOW_DIM as int)
            } else {
                pair
            }
        } else {
            (wy, start_h)
        };
        let fw: int = if hpair.1 > MAX_SURFACE_BUFFER {
            MAX_SURFACE_BUFFER as int
        } else {
            hpair.1
        };
        let fh: int = if vpair.1 > MAX_SURFACE_BUFFER {
            MAX_SURFACE_BUFFER as int
        } else {
            vpair.1
        };
        let fx: int = if hpair.0 > COORD_MAX {
            COORD_MAX as int
        } else if hpair.0 < -COORD_MAX {
            -COORD_MAX as int
        } else {
            hpair.0
        };
        let fy: int = if vpair.0 > COORD_MAX {
            COORD_MAX as int
        } else if vpair.0 < -COORD_MAX {
            -COORD_MAX as int
        } else {
            vpair.0
        };
        (fx, fy, fw, fh)
    }

    pub fn resize_geometry(
        edge: ResizeEdge,
        wx: i32,
        wy: i32,
        ww: u32,
        wh: u32,
        start_w: u32,
        start_h: u32,
        start_x: i32,
        start_y: i32,
        mouse_x: i32,
        mouse_y: i32,
        fb_w: u32,
        fb_h: u32,
    ) -> (r: (i32, i32, u32, u32))
        requires
            -COORD_MAX <= wx <= COORD_MAX,
            -COORD_MAX <= wy <= COORD_MAX,
            ww <= MAX_SURFACE_BUFFER,
            wh <= MAX_SURFACE_BUFFER,
            start_w <= MAX_SURFACE_BUFFER,
            start_h <= MAX_SURFACE_BUFFER,
            -MOUSE_MAX <= start_x <= MOUSE_MAX,
            -MOUSE_MAX <= start_y <= MOUSE_MAX,
            -MOUSE_MAX <= mouse_x <= MOUSE_MAX,
            -MOUSE_MAX <= mouse_y <= MOUSE_MAX,
            0 < fb_w <= MAX_FB_PITCH,
            0 < fb_h <= MAX_FB_HEIGHT,
        ensures
            -COORD_MAX <= r.0 <= COORD_MAX,
            -COORD_MAX <= r.1 <= COORD_MAX,
            r.2 <= MAX_SURFACE_BUFFER,
            r.3 <= MAX_SURFACE_BUFFER,
            (edge == ResizeEdge::Right || edge == ResizeEdge::BottomRight || edge
                == ResizeEdge::TopRight) && r.0 + MIN_WINDOW_DIM <= fb_w ==> r.2
                >= MIN_WINDOW_DIM,
            (edge == ResizeEdge::Bottom || edge == ResizeEdge::BottomRight || edge
                == ResizeEdge::BottomLeft) && r.1 + MIN_WINDOW_DIM <= fb_h ==> r.3
                >= MIN_WINDOW_DIM,
            (edge == ResizeEdge::Left || edge == ResizeEdge::TopLeft || edge
                == ResizeEdge::BottomLeft) ==> r.2 >= MIN_WINDOW_DIM,
            (edge == ResizeEdge::Top || edge == ResizeEdge::TopLeft || edge
                == ResizeEdge::TopRight) ==> r.3 >= MIN_WINDOW_DIM,
            edge == ResizeEdge::NoEdge ==> r == (wx, wy, start_w, start_h),
            (r.0 as int, r.1 as int, r.2 as int, r.3 as int) == Self::resize_geometry_spec(
                edge,
                wx as int,
                wy as int,
                ww as int,
                wh as int,
                start_w as int,
                start_h as int,
                start_x as int,
                start_y as int,
                mouse_x as int,
                mouse_y as int,
                fb_w as int,
                fb_h as int,
            ),
    {
        let mut new_x: i32 = wx;
        let mut new_y: i32 = wy;
        let mut new_w: i32 = start_w as i32;
        let mut new_h: i32 = start_h as i32;
        let delta_x: i32 = mouse_x - start_x;
        let delta_y: i32 = mouse_y - start_y;
        let grows_right: bool = matches!(
            edge,
            ResizeEdge::Right | ResizeEdge::BottomRight | ResizeEdge::TopRight
        );
        let grows_bottom: bool = matches!(
            edge,
            ResizeEdge::Bottom | ResizeEdge::BottomRight | ResizeEdge::BottomLeft
        );
        let grows_left: bool = matches!(
            edge,
            ResizeEdge::Left | ResizeEdge::TopLeft | ResizeEdge::BottomLeft
        );
        let grows_top: bool = matches!(
            edge,
            ResizeEdge::Top | ResizeEdge::TopLeft | ResizeEdge::TopRight
        );
        if grows_right {
            new_w = start_w as i32 + delta_x;
            if new_w < MIN_WINDOW_DIM as i32 {
                new_w = MIN_WINDOW_DIM as i32;
            }
            if new_x + new_w > fb_w as i32 {
                new_w = fb_w as i32 - new_x;
                if new_w < 0 {
                    new_w = 0;
                }
            }
        }
        if grows_bottom {
            new_h = start_h as i32 + delta_y;
            if new_h < MIN_WINDOW_DIM as i32 {
                new_h = MIN_WINDOW_DIM as i32;
            }
            if new_y + new_h > fb_h as i32 {
                new_h = fb_h as i32 - new_y;
                if new_h < 0 {
                    new_h = 0;
                }
            }
        }
        if grows_left {
            let new_left: i32 = start_x + delta_x;
            if new_left < 0 {
                new_w = start_w as i32 - new_left;
                new_x = 0;
            } else {
                new_w = start_w as i32 - delta_x;
                new_x = new_left;
            }
            if new_w < MIN_WINDOW_DIM as i32 {
                new_w = MIN_WINDOW_DIM as i32;
                new_x = wx + ww as i32 - MIN_WINDOW_DIM as i32;
            }
        }
        if grows_top {
            let new_top: i32 = start_y + delta_y;
            if new_top < 0 {
                new_h = start_h as i32 - new_top;
                new_y = 0;
            } else {
                new_h = start_h as i32 - delta_y;
                new_y = new_top;
            }
            if new_h < MIN_WINDOW_DIM as i32 {
                new_h = MIN_WINDOW_DIM as i32;
                new_y = wy + wh as i32 - MIN_WINDOW_DIM as i32;
            }
        }
        if new_w > MAX_SURFACE_BUFFER as i32 {
            new_w = MAX_SURFACE_BUFFER as i32;
        }
        if new_h > MAX_SURFACE_BUFFER as i32 {
            new_h = MAX_SURFACE_BUFFER as i32;
        }
        if new_x > COORD_MAX {
            new_x = COORD_MAX;
        }
        if new_x < -COORD_MAX {
            new_x = -COORD_MAX;
        }
        if new_y > COORD_MAX {
            new_y = COORD_MAX;
        }
        if new_y < -COORD_MAX {
            new_y = -COORD_MAX;
        }
        (new_x, new_y, new_w as u32, new_h as u32)
    }

    /// Where a drag places a window: the pointer position less the grab
    /// offset, clamped so the window stays fully on screen unless it is
    /// maximized.
    pub fn drag_position(
        mouse_x: i32,
        mouse_y: i32,
        off_x: i32,
        off_y: i32,
        ww: u32,
        wh: u32,
        fb_w: u32,
        fb_h: u32,
        maximized: bool,
    ) -> (r: (i32, i32))
        requires
            -MOUSE_MAX <= mouse_x <= MOUSE_MAX,
            -MOUSE_MAX <= mouse_y <= MOUSE_MAX,
            0 <= off_x <= MAX_SURFACE_BUFFER,
            0 <= off_y <= MAX_SURFACE_BUFFER,
            ww <= MAX_SURFACE_BUFFER,
            wh <= MAX_SURFACE_BUFFER,
            0 < fb_w <= MAX_FB_PITCH,
            0 < fb_h <= MAX_FB_HEIGHT,
        ensures
            -COORD_MAX <= r.0 <= COORD_MAX,
            -COORD_MAX <= r.1 <= COORD_MAX,
            !maximized ==> r.0 == ({
                let x0 = mouse_x - off_x;
                let x1: int = if x0 + ww > fb_w {
                    fb_w - ww
                } else {
                    x0 as int
                };
                if x1 < 0 {
                    0int
                } else {
                    x1
                }
            }),
            !maximized ==> r.1 == ({
                let y0 = mouse_y - off_y;
                let y1: int = if y0 + wh > fb_h {
                    fb_h - wh
                } else {
                    y0 as int
                };
                if y1 < 0 {
                    0int
                } else {
                    y1
                }
            }),
            !maximized && ww <= fb_w ==> 0 <= r.0 && r.0 + ww <= fb_w,
            !maximized && wh <= fb_h ==> 0 <= r.1 && r.1 + wh <= fb_h,
            maximized ==> r.0 == mouse_x - off_x && r.1 == mouse_y - off_y,
    {
        let mut nx: i32 = mouse_x - off_x;
        let mut ny: i32 = mouse_y - off_y;
        if !maximized {
            if nx + ww as i32 > fb_w as i32 {
                nx = fb_w as i32 - ww as i32;
            }
            if ny + wh as i32 > fb_h as i32 {
                ny = fb_h as i32 - wh as i32;
            }
            if nx < 0 {
                nx = 0;
            }
            if ny < 0 {
                ny = 0;
            }
        }
        (nx, ny)
    }

    /// A copy of a window's title bytes.
    fn title_of(&self, id: u32) -> (r: Vec<u8>)
        requires
            self.wf(),
            self.wlive(id as int),
        ensures
            r@ == self.winv(id as int).title@,
    {
        let mut title: Vec<u8> = Vec::new();
        match &self.windows[id as usize] {
            Some(w) => {
                let mut i: usize = 0;
                while i < w.title.len()
                    invariant
                        i <= w.title.len(),
                        title@ == w.title@.take(i as int),
                    decreases w.title.len() - i,
                {
                    title.push(w.title[i]);
                    proof {
                        assert(title@ =~= w.title@.take(i + 1));
                    }
                    i = i + 1;
                }
                proof {
                    assert(title@ =~= w.title@);
                }
            },
            None => {},
        }
        title
    }

    /// The window slot a fresh press lands in when scanning the first
    /// `k` entries of the bottom-to-top order from the top down: the
    /// topmost unminimized window containing the pointer, or -1.
    pub open spec fn hit_from(self, k: int, mx: int, my: int) -> int
        decreases k,
    {
        if k <= 0 {
            -1
        } else {
            let id = self.order@[k - 1] as int;
            if self.wlive(id) && !self.winv(id).minimized && self.winv(id).contains(mx, my) {
                id
            } else {
                self.hit_from(k - 1, mx, my)
            }
        }
    }

    /// The window slot a fresh press lands in: the topmost unminimized
    /// window containing the pointer, or -1 when the press hits the
    /// desktop.
    pub open spec fn hit_window(self, mx: int, my: int) -> int {
        self.hit_from(self.order.len() as int, mx, my)
    }

    /// Two managers with the same pool and order route a press to the
    /// same window.
    proof fn lemma_hit_same(a: WindowManager, b: WindowManager, k: int, mx: int, my: int)
        requires
            a.order@ == b.order@,
            a.windows@ == b.windows@,
        ensures
            a.hit_from(k, mx, my) == b.hit_from(k, mx, my),
        decreases k,
    {
        if k > 0 {
            Self::lemma_hit_same(a, b, k - 1, mx, my);
        }
    }

    /// Whether the pointer at `(mx, my)` lands in the control button
    /// whose left edge sits at column `bx` of window `w`.
    pub open spec fn in_button(w: Window, bx: int, mx: int, my: int) -> bool {
        &&& w.x + bx <= mx < w.x + bx + BUTTON_SIZE
        &&& w.y + 2 <= my < w.y + 2 + BUTTON_SIZE
    }

    /// What a fresh press while idle does, by the region of the topmost
    /// unminimized window under the pointer: the resize border of a
    /// resizable window starts a resize, the close button destroys, the
    /// maximize button toggles maximize, the minimize button minimizes,
    /// the title bar focuses, fronts and (for movable unmaximized
    /// windows) starts a drag with the grab offset, and the content
    /// area focuses and fronts.  A press outside every window changes
    /// no window, no order, no focus and no surface.
    pub open spec fn press_outcome(pre: WindowManager, post: WindowManager, mx: i32, my: i32) -> bool {
        let h = pre.hit_window(mx as int, my as int);
        if h < 0 {
            &&& post.windows@ == pre.windows@
            &&& post.order@ == pre.order@
            &&& post.focused == pre.focused
            &&& post.pointer == PointerState::Idle
            &&& post.ds.slots@ == pre.ds.slots@
        } else {
            let w = pre.winv(h);
            let hid = h as u32;
            let edge = Self::resize_edge_spec(w, mx as int, my as int);
            let ffw = (match pre.focused {
                Some(f) => if f == hid {
                    pre.windows@
                } else {
                    pre.windows@.update(
                        f as int,
                        Some(Window { focused: false, invalidated: true, ..pre.winv(f as int) }),
                    )
                },
                None => pre.windows@,
            }).update(
                h,
                Some(
                    Window {
                        focused: true,
                        invalidated: true,
                        z_order: pre.next_z_order,
                        ..w
                    },
                ),
            );
            if edge != ResizeEdge::NoEdge {
                &&& post.pointer == (PointerState::Resizing {
                    window: hid,
                    edge,
                    start_x: mx,
                    start_y: my,
                    start_w: w.width,
                    start_h: w.height,
                })
                &&& post.focused == Some(hid)
                &&& post.windows@ == ffw
                &&& forall|j: int|
                    0 <= j < N_WIN && (#[trigger] post.windows@[j]) is Some && !post.winv(
                        j,
                    ).minimized ==> post.winv(j).z_order <= post.winv(h).z_order
            } else if w.flags & WINDOW_CLOSABLE != 0 && Self::in_button(
                w,
                Self::close_col(w),
                mx as int,
                my as int,
            ) {
                &&& post.windows@ == pre.windows@.update(h, None::<Window>)
                &&& post.focused == (if pre.focused == Some(hid) {
                    None::<u32>
                } else {
                    pre.focused
                })
                &&& post.pointer == PointerState::Idle
            } else if Self::in_button(w, Self::max_col(w), mx as int, my as int) {
                &&& (w.maximized ==> {
                    &&& post.windows@ == pre.windows@.update(
                        h,
                        Some(
                            Window {
                                x: w.orig_x,
                                y: w.orig_y,
                                width: w.orig_width,
                                height: w.orig_height,
                                maximized: false,
                                invalidated: true,
                                ..w
                            },
                        ),
                    )
                    &&& post.focused == pre.focused
                })
                &&& (!w.maximized ==> {
                    let g = post.winv(h);
                    &&& post.wlive(h)
                    &&& g.maximized
                    &&& g.focused
                    &&& g.invalidated
                    &&& post.focused == Some(hid)
                    &&& g.orig_x == w.x && g.orig_y == w.y && g.orig_width == w.width
                        && g.orig_height == w.height
                    &&& (g.x as int, g.y as int, g.width as int, g.height as int)
                        == Self::maximized_geometry_spec(
                        pre.ds.fb_width as int,
                        pre.ds.fb_height as int,
                    )
                })
                &&& post.pointer == PointerState::Idle
            } else if Self::in_button(w, Self::min_col(w), mx as int, my as int) {
                &&& post.windows@ == pre.windows@.update(
                    h,
                    Some(Window { minimized: true, z_order: pre.min_z_order, focused: false, ..w }),
                )
                &&& post.focused == (if pre.focused == Some(hid) {
                    None::<u32>
                } else {
                    pre.focused
                })
                &&& post.pointer == PointerState::Idle
            } else if w.y <= my < w.y + TITLE_BAR_HEIGHT {
                &&& post.windows@ == ffw
                &&& post.focused == Some(hid)
                &&& post.pointer == (if w.flags & WINDOW_MOVABLE != 0 && !w.maximized {
                    PointerState::Dragging {
                        window: hid,
                        off_x: (mx - w.x) as i32,
                        off_y: (my - w.y) as i32,
                    }
                } else {
                    PointerState::Idle
                })
                &&& forall|j: int|
                    0 <= j < N_WIN && (#[trigger] post.windows@[j]) is Some && !post.winv(
                        j,
                    ).minimized ==> post.winv(j).z_order <= post.winv(h).z_order
            } else {
                &&& post.windows@ == ffw
                &&& post.focused == Some(hid)
                &&& post.pointer == PointerState::Idle
                &&& forall|j: int|
                    0 <= j < N_WIN && (#[trigger] post.windows@[j]) is Some && !post.winv(
                        j,
                    ).minimized ==> post.winv(j).z_order <= post.winv(h).z_order
            }
        }
    }

    /// Translates one pointer event into window semantics.  A drag in
    /// progress moves its window with the pointer, clamped to the
    /// screen; a resize in progress reshapes its window by the grabbed
    /// edge; releasing the button returns to the idle state.  When idle,
    /// a fresh press is routed to the topmost unminimized window under
    /// the pointer: resize borders start a resize, the control buttons
    /// close, toggle maximize or minimize, the title bar focuses,
    /// fronts and (for movable windows) starts a drag, and the content
    /// area focuses and fronts.  An idle event without a fresh press
    /// only moves the cursor.
    #[verifier::loop_isolation(false)]
    #[verifier::rlimit(100)]
    #[verifier::spinoff_prover]
    pub fn handle_mouse(&mut self, mouse_x: i32, mouse_y: i32, left_button: bool)
        requires
            old(self).wf(),
            -MOUSE_MAX <= mouse_x <= MOUSE_MAX,
            -MOUSE_MAX <= mouse_y <= MOUSE_MAX,
        ensures
            final(self).wf(),
            final(self).last_mouse_button == left_button,
            old(self).pointer == PointerState::Idle && !(left_button && !old(self).last_mouse_button) ==> {
                &&& final(self).windows@ == old(self).windows@
                &&& final(self).order@ == old(self).order@
                &&& final(self).focused == old(self).focused
                &&& final(self).pointer == PointerState::Idle
                &&& final(self).ds.slots@ == old(self).ds.slots@
                &&& final(self).ds.backbuffer@ == old(self).ds.backbuffer@
                &&& final(self).ds.framebuffer@ == old(self).ds.framebuffer@
                &&& final(self).ds.mouse_x == mouse_x
                &&& final(self).ds.mouse_y == mouse_y
            },
            (old(self).pointer matches PointerState::Dragging { .. } || old(self).pointer matches PointerState::Resizing { .. }) && !left_button ==> {
                &&& final(self).pointer == PointerState::Idle
                &&& final(self).windows@ == old(self).windows@
                &&& final(self).ds.mouse_x == mouse_x
                &&& final(self).ds.mouse_y == mouse_y
            },
            (old(self).pointer matches PointerState::Dragging { window, off_x, off_y })
                && left_button ==> {
                let window = old(self).pointer->Dragging_window;
                let off_x = old(self).pointer->Dragging_off_x;
                let off_y = old(self).pointer->Dragging_off_y;
                let w = old(self).winv(window as int);
                &&& final(self).pointer == old(self).pointer
                &&& final(self).winv(window as int).x == ({
                    let x0 = mouse_x - off_x;
                    let x1: int = if x0 + w.width > old(self).ds.fb_width {
                        old(self).ds.fb_width - w.width
                    } else {
                        x0 as int
                    };
                    if x1 < 0 {
                        0int
                    } else {
                        x1
                    }
                })
                &&& final(self).winv(window as int).y == ({
                    let y0 = mouse_y - off_y;
                    let y1: int = if y0 + w.height > old(self).ds.fb_height {
                        old(self).ds.fb_height - w.height
                    } else {
                        y0 as int
                    };
                    if y1 < 0 {
                        0int
                    } else {
                        y1
                    }
                })
                &&& final(self).winv(window as int) == (Window {
                    x: final(self).winv(window as int).x,
                    y: final(self).winv(window as int).y,
                    ..w
                })
            },
            (old(self).pointer matches PointerState::Resizing { .. }) && left_button ==> {
                let window = old(self).pointer->Resizing_window;
                let edge = old(self).pointer->Resizing_edge;
                let start_x = old(self).pointer->Resizing_start_x;
                let start_y = old(self).pointer->Resizing_start_y;
                let start_w = old(self).pointer->Resizing_start_w;
                let start_h = old(self).pointer->Resizing_start_h;
                let w = old(self).winv(window as int);
                let g = Self::resize_geometry_spec(
                    edge,
                    w.x as int,
                    w.y as int,
                    w.width as int,
                    w.height as int,
                    start_w as int,
                    start_h as int,
                    start_x as int,
                    start_y as int,
                    mouse_x as int,
                    mouse_y as int,
                    old(self).ds.fb_width as int,
                    old(self).ds.fb_height as int,
                );
                &&& final(self).pointer == old(self).pointer
                &&& (g.2 * g.3 <= MAX_SURFACE_BUFFER ==> {
                    &&& final(self).winv(window as int).x as int == g.0
                    &&& final(self).winv(window as int).y as int == g.1
                    &&& final(self).winv(window as int).width as int == g.2
                    &&& final(self).winv(window as int).height as int == g.3
                    &&& final(self).winv(window as int) == (Window {
                        x: final(self).winv(window as int).x,
                        y: final(self).winv(window as int).y,
                        width: final(self).winv(window as int).width,
                        height: final(self).winv(window as int).height,
                        invalidated: final(self).winv(window as int).invalidated,
                        ..w
                    })
                })
                &&& (g.2 * g.3 > MAX_SURFACE_BUFFER ==> final(self).windows@ == old(
                    self,
                ).windows@)
            },
            old(self).pointer == PointerState::Idle && left_button && !old(self).last_mouse_button
                ==> {
                &&& Self::press_outcome(*old(self), *final(self), mouse_x, mouse_y)
                &&& final(self).ds.mouse_x == mouse_x
                &&& final(self).ds.mouse_y == mouse_y
            },
    {
        let pressed: bool = left_button && !self.last_mouse_button;
        self.last_mouse_button = left_button;
        let (fbw, fbh, _p): (u32, u32, u32) = self.get_framebuffer();
        match self.pointer {
            PointerState::Resizing { window, edge, start_x, start_y, start_w, start_h } => {
                if left_button {
                    let (wx, wy, ww, wh, surface): (i32, i32, u32, u32, u32) = match &self
                        .windows[window as usize] {
                        Some(w) => (w.x, w.y, w.width, w.height, w.surface),
                        None => (0, 0, 0, 0, 0),
                    };
                    let (nx, ny, nw, nh): (i32, i32, u32, u32) = Self::resize_geometry(
                        edge,
                        wx,
                        wy,
                        ww,
                        wh,
                        start_w,
                        start_h,
                        start_x,
                        start_y,
                        mouse_x,
                        mouse_y,
                        fbw,
                        fbh,
                    );
                    proof {
                        assert(nw * nh <= 480000 * 480000) by (nonlinear_arith)
                            requires
                                nw <= 480000,
                                nh <= 480000,
                        ;
                    }
                    if (nx != wx || ny != wy || nw != ww || nh != wh) && nw as u64 * nh as u64
                        <= MAX_SURFACE_BUFFER as u64 {
                        self.ds.mark_dirty(wx, wy, ww, wh);
                        self.ds.set_surface_size(surface, nw, nh);
                        self.ds.set_surface_position(surface, nx, ny);
                        match &mut self.windows[window as usize] {
                            Some(w) => {
                                w.x = nx;
                                w.y = ny;
                                w.width = nw;
                                w.height = nh;
                                w.invalidated = true;
                            },
                            None => {},
                        }
                        self.ds.mark_dirty(nx, ny, nw, nh);
                        proof {
                            assert(self.windows@ =~= old(self).windows@.update(
                                window as int,
                                Some(self.winv(window as int)),
                            ));
                            assert(self.ds.slots@ =~= old(self).ds.slots@.update(
                                surface as int,
                                Some(self.ds.surf(surface as int)),
                            ));
                            self.lemma_wm_wf_one_window(*old(self), window as int);
                            self.lemma_wm_order_same(*old(self));
                        }
                        let ghost pre3: WindowManager = *self;
                        self.ds.render();
                        proof {
                            self.lemma_wm_wf_ds_same(pre3);
                        }
                    }
                } else {
                    self.pointer = PointerState::Idle;
                    self.ds.update_cursor_position(mouse_x, mouse_y);
                }
            },
            PointerState::Dragging { window, off_x, off_y } => {
                if left_button {
                    let (wx, wy, ww, wh, surface, maximized): (i32, i32, u32, u32, u32, bool) =
                        match &self.windows[window as usize] {
                        Some(w) => (w.x, w.y, w.width, w.height, w.surface, w.maximized),
                        None => (0, 0, 0, 0, 0, false),
                    };
                    let (nx, ny): (i32, i32) = Self::drag_position(
                        mouse_x,
                        mouse_y,
                        off_x,
                        off_y,
                        ww,
                        wh,
                        fbw,
                        fbh,
                        maximized,
                    );
                    if nx != wx || ny != wy {
                        self.ds.set_surface_position(surface, nx, ny);
                        match &mut self.windows[window as usize] {
                            Some(w) => {
                                w.x = nx;
                                w.y = ny;
                            },
                            None => {},
                        }
                        proof {
                            assert(self.windows@ =~= old(self).windows@.update(
                                window as int,
                                Some(self.winv(window as int)),
                            ));
                            assert(self.ds.slots@ =~= old(self).ds.slots@.update(
                                surface as int,
                                Some(self.ds.surf(surface as int)),
                            ));
                            self.lemma_wm_wf_one_window(*old(self), window as int);
                            self.lemma_wm_order_same(*old(self));
                        }
                        let ghost pre3: WindowManager = *self;
                        self.ds.render();
                        proof {
                            self.lemma_wm_wf_ds_same(pre3);
                        }
                    } else {
                        proof {
                            assert(self.windows@ =~= old(self).windows@.update(
                                window as int,
                                Some(old(self).winv(window as int)),
                            ));
                        }
                    }
                } else {
                    self.pointer = PointerState::Idle;
                    self.ds.update_cursor_position(mouse_x, mouse_y);
                }
            },
            PointerState::Idle => {
                self.ds.update_cursor_position(mouse_x, mouse_y);
                if pressed {
                    let ghost pre_route: WindowManager = *self;
                    self.route_press(mouse_x, mouse_y);
                    proof {
                        Self::lemma_hit_same(
                            *old(self),
                            pre_route,
                            old(self).order.len() as int,
                            mouse_x as int,
                            mouse_y as int,
                        );
                        assert(Self::press_outcome(*old(self), *self, mouse_x, mouse_y));
                    }
                }
            },
        }
    }

    /// Routes a fresh press to the topmost unminimized window under the
    /// pointer and dispatches by region: resize border, close button,
    /// maximize toggle, minimize button, title bar or content.
    #[verifier::loop_isolation(false)]
    #[verifier::rlimit(100)]
    #[verifier::spinoff_prover]
    fn route_press(&mut self, mouse_x: i32, mouse_y: i32)
        requires
            old(self).wf(),
            old(self).pointer == PointerState::Idle,
            -MOUSE_MAX <= mouse_x <= MOUSE_MAX,
            -MOUSE_MAX <= mouse_y <= MOUSE_MAX,
        ensures
            final(self).wf(),
            final(self).last_mouse_button == old(self).last_mouse_button,
            final(self).ds.mouse_x == old(self).ds.mouse_x,
            final(self).ds.mouse_y == old(self).ds.mouse_y,
            Self::press_outcome(*old(self), *final(self), mouse_x, mouse_y),
    {
        let ghost mxi: int = mouse_x as int;
        let ghost myi: int = mouse_y as int;
        let n: usize = self.order.len();
        let mut k: usize = n;
        while k > 0
            invariant
                k <= n,
                n == self.order.len(),
                *self == *old(self),
                old(self).hit_window(mxi, myi) == old(self).hit_from(k as int, mxi, myi),
            decreases k,
        {
            k = k - 1;
            let id: usize = self.order[k];
            let (wx, wy, ww, wh, flags, minimized, maximized): (
                i32,
                i32,
                u32,
                u32,
                u32,
                bool,
                bool,
            ) = match &self.windows[id] {
                Some(w) => (w.x, w.y, w.width, w.height, w.flags, w.minimized, w.maximized),
                None => { continue; },
            };
            if minimized {
                proof {
                    assert(old(self).hit_from(k as int + 1, mxi, myi) == old(self).hit_from(
                        k as int,
                        mxi,
                        myi,
                    ));
                }
                continue;
            }
            if !(mouse_x >= wx && mouse_x < wx + ww as i32 && mouse_y >= wy && mouse_y < wy
                + wh as i32) {
                proof {
                    assert(!old(self).winv(id as int).contains(mxi, myi));
                    assert(old(self).hit_from(k as int + 1, mxi, myi) == old(self).hit_from(
                        k as int,
                        mxi,
                        myi,
                    ));
                }
                continue;
            }
            proof {
                assert(old(self).hit_from(k as int + 1, mxi, myi) == id as int);
                assert(old(self).hit_window(mxi, myi) == id as int);
            }
            let ghost hw: Window = old(self).winv(id as int);
            if mouse_y >= wy + TITLE_BAR_HEIGHT as i32 {
                let edge: ResizeEdge = self.get_resize_edge(id as u32, mouse_x, mouse_y);
                if !matches!(edge, ResizeEdge::NoEdge) {
                    proof {
                        assert(old(self).wlive(id as int));
                        assert(!old(self).winv(id as int).maximized);
                    }
                    self.pointer = PointerState::Resizing {
                        window: id as u32,
                        edge,
                        start_x: mouse_x,
                        start_y: mouse_y,
                        start_w: ww,
                        start_h: wh,
                    };
                    proof {
                        self.lemma_wm_order_same(*old(self));
                        assert(self.wf());
                    }
                    self.focus_and_front(id as u32);
                    proof {
                        assert(Self::press_outcome(*old(self), *self, mouse_x, mouse_y));
                    }
                    return;
                }
            }
            proof {
                assert(Self::resize_edge_spec(hw, mxi, myi) == ResizeEdge::NoEdge);
            }
            let mut button_x: i32 = wx + ww as i32 - 18;
            if flags & WINDOW_CLOSABLE != 0 {
                if mouse_x >= button_x && mouse_x < button_x + BUTTON_SIZE as i32 && mouse_y
                    >= wy + 2 && mouse_y < wy + 2 + BUTTON_SIZE as i32 {
                    self.destroy_window(id as u32);
                    proof {
                        assert(Self::in_button(hw, Self::close_col(hw), mxi, myi));
                        assert(Self::press_outcome(*old(self), *self, mouse_x, mouse_y));
                    }
                    return;
                }
                button_x = button_x - 20;
            }
            proof {
                assert(!(hw.flags & WINDOW_CLOSABLE != 0 && Self::in_button(
                    hw,
                    Self::close_col(hw),
                    mxi,
                    myi,
                )));
                assert(button_x == hw.x + Self::max_col(hw));
            }
            if mouse_x >= button_x && mouse_x < button_x + BUTTON_SIZE as i32 && mouse_y >= wy
                + 2 && mouse_y < wy + 2 + BUTTON_SIZE as i32 {
                if maximized {
                    self.unmaximize_window(id as u32);
                } else {
                    self.maximize_window(id as u32);
                }
                proof {
                    assert(Self::in_button(hw, Self::max_col(hw), mxi, myi));
                    assert(Self::press_outcome(*old(self), *self, mouse_x, mouse_y));
                }
                return;
            }
            button_x = button_x - 20;
            if mouse_x >= button_x && mouse_x < button_x + BUTTON_SIZE as i32 && mouse_y >= wy
                + 2 && mouse_y < wy + 2 + BUTTON_SIZE as i32 {
                self.minimize_window(id as u32);
                proof {
                    assert(Self::in_button(hw, Self::min_col(hw), mxi, myi));
                    assert(Self::press_outcome(*old(self), *self, mouse_x, mouse_y));
                }
                return;
            }
            proof {
                assert(!Self::in_button(hw, Self::max_col(hw), mxi, myi));
                assert(!Self::in_button(hw, Self::min_col(hw), mxi, myi));
            }
            if mouse_y >= wy && mouse_y < wy + TITLE_BAR_HEIGHT as i32 {
                self.focus_and_front(id as u32);
                let ghost pf: WindowManager = *self;
                if flags & WINDOW_MOVABLE != 0 && !maximized {
                    proof {
                        assert(self.wlive(id as int));
                        assert(!self.winv(id as int).minimized);
                        assert(!self.winv(id as int).maximized);
                        assert(0 <= mouse_x - wx <= MAX_SURFACE_BUFFER);
                        assert(0 <= mouse_y - wy <= MAX_SURFACE_BUFFER);
                    }
                    self.pointer = PointerState::Dragging {
                        window: id as u32,
                        off_x: mouse_x - wx,
                        off_y: mouse_y - wy,
                    };
                    proof {
                        self.lemma_wm_order_same(pf);
                        assert(self.wf());
                    }
                }
                proof {
                    assert(Self::press_outcome(*old(self), *self, mouse_x, mouse_y));
                }
            } else {
                self.focus_and_front(id as u32);
                proof {
                    assert(Self::press_outcome(*old(self), *self, mouse_x, mouse_y));
                }
            }
            return;
        }
        proof {
            assert(old(self).hit_window(mxi, myi) == -1);
        }
    }


    /// Whether any of a text run's first `k` characters puts a glyph
    /// pixel at `(px, py)` when drawn from column `x0` at row `y`.
    pub open spec fn text_lit(s: Seq<u8>, k: int, x0: int, y: int, px: int, py: int) -> bool
        decreases k,
    {
        if k <= 0 {
            false
        } else if 32 <= s[k - 1] <= 126 && glyph_lit(
            font_glyph(s[k - 1]),
            px - Self::pen_at(s, k - 1, x0),
            py - y,
        ) {
            true
        } else {
            Self::text_lit(s, k - 1, x0, y, px, py)
        }
    }

    /// A text run leaves the text color exactly on its lit glyph pixels
    /// and the base pixel everywhere else.
    proof fn lemma_text_pix_lit(
        base: Seq<u32>,
        sw: int,
        s: Seq<u8>,
        k: int,
        x0: int,
        y: int,
        color: u32,
        px: int,
        py: int,
    )
        ensures
            Self::text_pix(base, sw, s, k, x0, y, color, px, py) == (if Self::text_lit(
                s,
                k,
                x0,
                y,
                px,
                py,
            ) {
                color
            } else {
                pix(base, sw, px, py)
            }),
        decreases k,
    {
        if k > 0 {
            Self::lemma_text_pix_lit(base, sw, s, k - 1, x0, y, color, px, py);
        }
    }

    /// A text run drawn at row `y` lights pixels in rows `y..y + 8`
    /// only.
    proof fn lemma_text_lit_rows(s: Seq<u8>, k: int, x0: int, y: int, px: int, py: int)
        requires
            !(0 <= py - y < 8),
        ensures
            !Self::text_lit(s, k, x0, y, px, py),
        decreases k,
    {
        if k > 0 {
            Self::lemma_text_lit_rows(s, k - 1, x0, y, px, py);
        }
    }

    /// The column of the close button's left edge within its window.
    pub open spec fn close_col(w: Window) -> int {
        w.width as int - 18
    }

    /// The column of the maximize button's left edge within its window:
    /// buttons pack from the right, so it sits left of the close button
    /// when one is shown.
    pub open spec fn max_col(w: Window) -> int {
        if w.flags & WINDOW_CLOSABLE != 0 {
            w.width as int - 38
        } else {
            w.width as int - 18
        }
    }

    /// The column of the minimize button's left edge within its window.
    pub open spec fn min_col(w: Window) -> int {
        Self::max_col(w) - 20
    }

    /// What a window's chrome leaves at a title-bar cell `(px, py)`,
    /// `0 <= py < TITLE_BAR_HEIGHT`: the minimize, maximize and (for
    /// closable windows) close buttons with their glyph labels, over
    /// the title text, over the title bar in the focus color.  Chrome
    /// covers the title bar only; content rows below it are the
    /// client's and are left alone.
    pub open spec fn chrome_pix(w: Window, px: int, py: int) -> u32 {
        let title_color = if w.focused {
            TITLE_FOCUSED_COLOR
        } else {
            TITLE_UNFOCUSED_COLOR
        };
        let max_label: u8 = if w.maximized {
            82
        } else {
            77
        };
        if glyph_lit(font_glyph(95), px - (Self::min_col(w) + 2), py - 4) {
            LABEL_COLOR
        } else if Self::min_col(w) <= px < Self::min_col(w) + BUTTON_SIZE && 2 <= py < 2
            + BUTTON_SIZE {
            MIN_BUTTON_COLOR
        } else if glyph_lit(font_glyph(max_label), px - (Self::max_col(w) + 2), py - 4) {
            LABEL_COLOR
        } else if Self::max_col(w) <= px < Self::max_col(w) + BUTTON_SIZE && 2 <= py < 2
            + BUTTON_SIZE {
            MAX_BUTTON_COLOR
        } else if w.flags & WINDOW_CLOSABLE != 0 && glyph_lit(
            font_glyph(88),
            px - (Self::close_col(w) + 2),
            py - 4,
        ) {
            LABEL_COLOR
        } else if w.flags & WINDOW_CLOSABLE != 0 && Self::close_col(w) <= px < Self::close_col(w)
            + BUTTON_SIZE && 2 <= py < 2 + BUTTON_SIZE {
            CLOSE_BUTTON_COLOR
        } else if Self::text_lit(w.title@, w.title@.len() as int, 4, 4, px, py) {
            LABEL_COLOR
        } else {
            title_color
        }
    }

    /// Draws a window's chrome into its buffer: the title bar in the
    /// focus color, the title text and the control buttons packed from
    /// the right - close (when closable), maximize or restore,
    /// minimize.  Afterwards the title-bar rows hold exactly the chrome
    /// pixel map and every content row is untouched.
    #[verifier::rlimit(100)]
    #[verifier::spinoff_prover]
    pub fn draw_window_chrome(&mut self, id: u32)
        requires
            old(self).wf(),
            old(self).wlive(id as int),
        ensures
            final(self).wf(),
            final(self).windows@ == old(self).windows@,
            *final(self) == (WindowManager { ds: final(self).ds, ..*old(self) }),
            DisplayServer::pool_op_frame(old(self).ds, final(self).ds),
            final(self).ds.dirty_rect == old(self).ds.dirty_rect,
            final(self).ds.z_list@ == old(self).ds.z_list@,
            final(self).ds.slots@ == old(self).ds.slots@.update(
                old(self).winv(id as int).surface as int,
                Some(
                    Surface {
                        buffer: final(self).ds.surf(
                            old(self).winv(id as int).surface as int,
                        ).buffer,
                        ..old(self).ds.surf(old(self).winv(id as int).surface as int)
                    },
                ),
            ),
            ({
                let w = old(self).winv(id as int);
                &&& forall|px: int, py: int|
                    0 <= px < w.width && 0 <= py < w.height && py < TITLE_BAR_HEIGHT
                        ==> #[trigger] pix(
                        final(self).wbuf(id as int),
                        w.width as int,
                        px,
                        py,
                    ) == Self::chrome_pix(w, px, py)
                &&& forall|px: int, py: int|
                    0 <= px < w.width && TITLE_BAR_HEIGHT <= py < w.height ==> #[trigger] pix(
                        final(self).wbuf(id as int),
                        w.width as int,
                        px,
                        py,
                    ) == pix(old(self).wbuf(id as int), w.width as int, px, py)
                &&& forall|i: int|
                    w.width * w.height <= i < MAX_SURFACE_BUFFER ==> final(self).wbuf(
                        id as int,
                    )[i] == old(self).wbuf(id as int)[i]
            }),
    {
        let ghost surf: int = old(self).winv(id as int).surface as int;
        let ghost w0: Window = old(self).winv(id as int);
        let (ww, flags, maximized, focused): (u32, u32, bool, bool) = match &self.windows[
            id as usize
        ] {
            Some(w) => (w.width, w.flags, w.maximized, w.focused),
            None => (0, 0, false, false),
        };
        let title_color: u32 = if focused {
            TITLE_FOCUSED_COLOR
        } else {
            TITLE_UNFOCUSED_COLOR
        };
        self.draw_filled_rect_to_window(id, 0, 0, ww, TITLE_BAR_HEIGHT, title_color);
        let ghost s2: WindowManager = *self;
        let title: Vec<u8> = self.title_of(id);
        self.draw_text_to_window(id, title.as_slice(), 4, 4, LABEL_COLOR);
        let ghost s3: WindowManager = *self;
        let mut button_x: i32 = ww as i32 - 18;
        if flags & WINDOW_CLOSABLE != 0 {
            self.draw_filled_rect_to_window(
                id,
                button_x,
                2,
                BUTTON_SIZE,
                BUTTON_SIZE,
                CLOSE_BUTTON_COLOR,
            );
            self.draw_char_to_window(id, 88, button_x + 2, 4, LABEL_COLOR);
            button_x = button_x - 20;
        }
        let ghost s5: WindowManager = *self;
        self.draw_filled_rect_to_window(
            id,
            button_x,
            2,
            BUTTON_SIZE,
            BUTTON_SIZE,
            MAX_BUTTON_COLOR,
        );
        let ghost s6: WindowManager = *self;
        let max_label: u8 = if maximized {
            82
        } else {
            77
        };
        self.draw_char_to_window(id, max_label, button_x + 2, 4, LABEL_COLOR);
        let ghost s7: WindowManager = *self;
        button_x = button_x - 20;
        self.draw_filled_rect_to_window(
            id,
            button_x,
            2,
            BUTTON_SIZE,
            BUTTON_SIZE,
            MIN_BUTTON_COLOR,
        );
        let ghost s8: WindowManager = *self;
        self.draw_char_to_window(id, 95, button_x + 2, 4, LABEL_COLOR);
        proof {
            assert(self.ds.slots@ =~= old(self).ds.slots@.update(
                surf,
                Some(
                    Surface {
                        buffer: self.ds.surf(surf).buffer,
                        ..old(self).ds.surf(surf)
                    },
                ),
            ));
            let wdt = w0.width as int;
            assert forall|px: int, py: int|
                0 <= px < w0.width && 0 <= py < w0.height implies #[trigger] pix(
                self.wbuf(id as int),
                wdt,
                px,
                py,
            ) == (if py < TITLE_BAR_HEIGHT {
                Self::chrome_pix(w0, px, py)
            } else {
                pix(old(self).wbuf(id as int), wdt, px, py)
            }) by {
                assert(0 <= py * wdt + px < w0.width * w0.height) by (nonlinear_arith)
                    requires
                        0 <= px < w0.width,
                        0 <= py < w0.height,
                        wdt == w0.width,
                ;
                assert(pix(s2.wbuf(id as int), wdt, px, py) == (if 0 <= px < ww && 0 <= py
                    < TITLE_BAR_HEIGHT {
                    title_color
                } else {
                    pix(old(self).wbuf(id as int), wdt, px, py)
                }));
                Self::lemma_text_pix_lit(
                    s2.wbuf(id as int),
                    wdt,
                    w0.title@,
                    w0.title@.len() as int,
                    4,
                    4,
                    LABEL_COLOR,
                    px,
                    py,
                );
                assert(pix(s3.wbuf(id as int), wdt, px, py) == (if Self::text_lit(
                    w0.title@,
                    w0.title@.len() as int,
                    4,
                    4,
                    px,
                    py,
                ) {
                    LABEL_COLOR
                } else {
                    pix(s2.wbuf(id as int), wdt, px, py)
                }));
                assert(pix(s5.wbuf(id as int), wdt, px, py) == (if w0.flags & WINDOW_CLOSABLE
                    != 0 && glyph_lit(font_glyph(88), px - (Self::close_col(w0) + 2), py - 4) {
                    LABEL_COLOR
                } else if w0.flags & WINDOW_CLOSABLE != 0 && Self::close_col(w0) <= px
                    < Self::close_col(w0) + BUTTON_SIZE && 2 <= py < 2 + BUTTON_SIZE {
                    CLOSE_BUTTON_COLOR
                } else {
                    pix(s3.wbuf(id as int), wdt, px, py)
                }));
                assert(pix(s6.wbuf(id as int), wdt, px, py) == (if Self::max_col(w0) <= px
                    < Self::max_col(w0) + BUTTON_SIZE && 2 <= py < 2 + BUTTON_SIZE {
                    MAX_BUTTON_COLOR
                } else {
                    pix(s5.wbuf(id as int), wdt, px, py)
                }));
                assert(pix(s7.wbuf(id as int), wdt, px, py) == (if glyph_lit(
                    font_glyph(max_label),
                    px - (Self::max_col(w0) + 2),
                    py - 4,
                ) {
                    LABEL_COLOR
                } else {
                    pix(s6.wbuf(id as int), wdt, px, py)
                }));
                assert(pix(s8.wbuf(id as int), wdt, px, py) == (if Self::min_col(w0) <= px
                    < Self::min_col(w0) + BUTTON_SIZE && 2 <= py < 2 + BUTTON_SIZE {
                    MIN_BUTTON_COLOR
                } else {
                    pix(s7.wbuf(id as int), wdt, px, py)
                }));
                assert(pix(self.wbuf(id as int), wdt, px, py) == (if glyph_lit(
                    font_glyph(95),
                    px - (Self::min_col(w0) + 2),
                    py - 4,
                ) {
                    LABEL_COLOR
                } else {
                    pix(s8.wbuf(id as int), wdt, px, py)
                }));
                if py >= TITLE_BAR_HEIGHT {
                    Self::lemma_text_lit_rows(w0.title@, w0.title@.len() as int, 4, 4, px, py);
                }
            }
        }
    }

    /// Renders the chrome of every damaged, unminimized window into its
    /// buffer - title bar in the focus color, title text and the
    /// control buttons, leaving client-drawn content rows alone -
    /// clears its damage flag and marks its rectangle, then renders a
    /// frame.  Afterwards no unminimized window is left damaged, each
    /// redrawn buffer holds exactly the chrome pixel map on its
    /// title-bar rows and its previous content below them, minimized
    /// and undamaged windows are untouched, and within the frame's
    /// region the backbuffer shows the overlay of the redrawn surfaces
    /// and the framebuffer equals the backbuffer.
    #[verifier::loop_isolation(false)]
    #[verifier::rlimit(100)]
    #[verifier::spinoff_prover]
    pub fn update(&mut self)
        requires
            old(self).wf(),
        ensures
            final(self).wf(),
            !final(self).ds.dirty_rect.valid,
            final(self).order@ == old(self).order@,
            final(self).focused == old(self).focused,
            final(self).pointer == old(self).pointer,
            final(self).last_mouse_button == old(self).last_mouse_button,
            forall|i: int|
                0 <= i < N_WIN ==> ((#[trigger] final(self).windows@[i]) is Some <==> old(self).windows@[i] is Some),
            forall|i: int|
                0 <= i < N_WIN && (#[trigger] final(self).windows@[i]) is Some ==> final(self).winv(i) == (Window {
                    invalidated: final(self).winv(i).invalidated,
                    ..old(self).winv(i)
                }),
            forall|i: int|
                0 <= i < N_WIN && (#[trigger] final(self).windows@[i]) is Some && !final(self).winv(i).minimized ==> !final(self).winv(i).invalidated,
            forall|i: int|
                0 <= i < N_WIN && (#[trigger] old(self).windows@[i]) is Some && (old(self).winv(
                    i,
                ).minimized || !old(self).winv(i).invalidated) ==> final(self).winv(i) == old(
                    self,
                ).winv(i) && final(self).wbuf(i) == old(self).wbuf(i),
            forall|i: int|
                0 <= i < N_WIN && (#[trigger] old(self).windows@[i]) is Some && !old(self).winv(
                    i,
                ).minimized && old(self).winv(i).invalidated ==> forall|px: int, py: int|
                    0 <= px < old(self).winv(i).width && 0 <= py < old(self).winv(i).height
                        ==> #[trigger] pix(
                        final(self).wbuf(i),
                        old(self).winv(i).width as int,
                        px,
                        py,
                    ) == (if py < TITLE_BAR_HEIGHT {
                        Self::chrome_pix(old(self).winv(i), px, py)
                    } else {
                        pix(old(self).wbuf(i), old(self).winv(i).width as int, px, py)
                    }),
            forall|qx: int, qy: int|
                0 <= qx < old(self).ds.fb_width && 0 <= qy < old(self).ds.fb_height && (old(
                    self,
                ).ds.frame_dirty().covers(qx, qy) || exists|i: int|
                    0 <= i < N_WIN && (#[trigger] old(self).windows@[i]) is Some && !old(
                        self,
                    ).winv(i).minimized && old(self).winv(i).invalidated && old(self).winv(
                        i,
                    ).contains(qx, qy)) && !(old(self).ds.cursor_restore_happens() && cursor_env(
                    old(self).ds.last_cursor_x as int,
                    old(self).ds.last_cursor_y as int,
                ).covers(qx, qy)) && !(old(self).ds.cursor_on_screen() && (cursor_lit(
                    qx - old(self).ds.mouse_x,
                    qy - old(self).ds.mouse_y,
                ) || cursor_outlined(qx - old(self).ds.mouse_x, qy - old(self).ds.mouse_y)))
                    ==> #[trigger] pix(
                    final(self).ds.backbuffer@,
                    old(self).ds.fb_width as int,
                    qx,
                    qy,
                ) == final(self).ds.composite(qx, qy),
            forall|px: int, py: int|
                0 <= px < old(self).ds.fb_width && 0 <= py < old(self).ds.fb_height && (old(
                    self,
                ).ds.frame_dirty().covers(px, py) || exists|i: int|
                    0 <= i < N_WIN && (#[trigger] old(self).windows@[i]) is Some && !old(
                        self,
                    ).winv(i).minimized && old(self).winv(i).invalidated && old(self).winv(
                        i,
                    ).contains(px, py)) ==> #[trigger] pix(
                    final(self).ds.framebuffer@,
                    old(self).ds.fb_pitch as int,
                    px,
                    py,
                ) == pix(final(self).ds.backbuffer@, old(self).ds.fb_width as int, px, py),
    {
        let n: usize = self.order.len();
        let mut k: usize = 0;
        while k < n
            invariant
                k <= n,
                n == self.order.len(),
                self.wf(),
                self.order@ == old(self).order@,
                self.focused == old(self).focused,
                self.pointer == old(self).pointer,
                self.last_mouse_button == old(self).last_mouse_button,
                self.next_z_order == old(self).next_z_order,
                self.min_z_order == old(self).min_z_order,
                DisplayServer::pool_op_frame(old(self).ds, self.ds),
                self.ds.z_list@ == old(self).ds.z_list@,
                self.ds.dirty_rect.contains(old(self).ds.dirty_rect),
                forall|i: int|
                    0 <= i < N_WIN ==> ((#[trigger] self.windows@[i]) is Some <==> old(self).windows@[i] is Some),
                forall|i: int|
                    0 <= i < N_WIN && (#[trigger] self.windows@[i]) is Some ==> self.winv(i)
                        == (Window { invalidated: self.winv(i).invalidated, ..old(self).winv(i) }),
                forall|j: int|
                    0 <= j < k ==> {
                        let id = (#[trigger] self.order@[j]) as int;
                        &&& ((old(self).winv(id).minimized || !old(self).winv(id).invalidated)
                            ==> self.winv(id) == old(self).winv(id) && self.wbuf(id) == old(
                            self,
                        ).wbuf(id))
                        &&& ((!old(self).winv(id).minimized && old(self).winv(id).invalidated)
                            ==> {
                            &&& !self.winv(id).invalidated
                            &&& forall|px: int, py: int|
                                0 <= px < old(self).winv(id).width && 0 <= py < old(self).winv(
                                    id,
                                ).height ==> #[trigger] pix(
                                    self.wbuf(id),
                                    old(self).winv(id).width as int,
                                    px,
                                    py,
                                ) == (if py < TITLE_BAR_HEIGHT {
                                    Self::chrome_pix(old(self).winv(id), px, py)
                                } else {
                                    pix(
                                        old(self).wbuf(id),
                                        old(self).winv(id).width as int,
                                        px,
                                        py,
                                    )
                                })
                            &&& self.ds.dirty_rect.contains(
                                DirtyRect {
                                    x: old(self).winv(id).x,
                                    y: old(self).winv(id).y,
                                    width: old(self).winv(id).width,
                                    height: old(self).winv(id).height,
                                    valid: true,
                                },
                            )
                        })
                    },
                forall|j: int|
                    k <= j < n ==> {
                        let id = (#[trigger] self.order@[j]) as int;
                        self.winv(id) == old(self).winv(id) && self.wbuf(id) == old(self).wbuf(
                            id,
                        )
                    },
            decreases n - k,
        {
            let id: usize = self.order[k];
            let (ww, wh, flags, minimized, maximized, focused, invalidated): (
                u32,
                u32,
                u32,
                bool,
                bool,
                bool,
                bool,
            ) = match &self.windows[id] {
                Some(w) => (
                    w.width,
                    w.height,
                    w.flags,
                    w.minimized,
                    w.maximized,
                    w.focused,
                    w.invalidated,
                ),
                None => { continue; },
            };
            if minimized || !invalidated {
                k = k + 1;
                continue;
            }
            let ghost before_draw: WindowManager = *self;
            self.draw_window_chrome(id as u32);
            proof {
                assert forall|i: int|
                    0 <= i < N_WIN && (#[trigger] self.windows@[i]) is Some && i != id implies
                    self.wbuf(i) == before_draw.wbuf(i) by {
                    assert(before_draw.windows@[i] is Some);
                    assert(self.winv(i).surface != self.winv(id as int).surface);
                }
            }
            let (wx2, wy2): (i32, i32) = match &self.windows[id] {
                Some(w) => (w.x, w.y),
                None => (0, 0),
            };
            let ghost before_flag: WindowManager = *self;
            match &mut self.windows[id] {
                Some(w) => {
                    w.invalidated = false;
                },
                None => {},
            }
            proof {
                assert(forall|i: int|
                    0 <= i < N_WIN && i != id ==> self.windows@[i] == before_flag.windows@[i]);
                self.lemma_wm_wf_after_flags(before_flag);
            }
            let ghost before_mark: WindowManager = *self;
            self.ds.mark_dirty(wx2, wy2, ww, wh);
            proof {
                let r = DirtyRect { x: wx2, y: wy2, width: ww, height: wh, valid: true };
                crate::rect::lemma_union_contains(before_mark.ds.dirty_rect, r);
                let idd = id as int;
                let wold = old(self).winv(idd);
                assert(before_draw.winv(idd) == wold);
                assert(wx2 == wold.x && wy2 == wold.y && ww == wold.width && wh == wold.height);
                assert(self.wbuf(idd) == before_flag.wbuf(idd));
                assert forall|px: int, py: int|
                    0 <= px < wold.width && 0 <= py < wold.height implies #[trigger] pix(
                    self.wbuf(idd),
                    wold.width as int,
                    px,
                    py,
                ) == (if py < TITLE_BAR_HEIGHT {
                    Self::chrome_pix(wold, px, py)
                } else {
                    pix(old(self).wbuf(idd), wold.width as int, px, py)
                }) by {
                    assert(pix(before_flag.wbuf(idd), wold.width as int, px, py) == (if py
                        < TITLE_BAR_HEIGHT {
                        Self::chrome_pix(wold, px, py)
                    } else {
                        pix(before_draw.wbuf(idd), wold.width as int, px, py)
                    }));
                    assert(before_draw.wbuf(idd) == old(self).wbuf(idd));
                }
                assert(!self.winv(idd).invalidated);
                assert(self.ds.dirty_rect.contains(
                    DirtyRect {
                        x: wold.x,
                        y: wold.y,
                        width: wold.width,
                        height: wold.height,
                        valid: true,
                    },
                ));
                assert forall|j: int| 0 <= j < k implies {
                    let jd = (#[trigger] self.order@[j]) as int;
                    &&& ((old(self).winv(jd).minimized || !old(self).winv(jd).invalidated)
                        ==> self.winv(jd) == old(self).winv(jd) && self.wbuf(jd) == old(
                        self,
                    ).wbuf(jd))
                    &&& ((!old(self).winv(jd).minimized && old(self).winv(jd).invalidated)
                        ==> {
                        &&& !self.winv(jd).invalidated
                        &&& forall|px: int, py: int|
                            0 <= px < old(self).winv(jd).width && 0 <= py < old(self).winv(
                                jd,
                            ).height ==> #[trigger] pix(
                                self.wbuf(jd),
                                old(self).winv(jd).width as int,
                                px,
                                py,
                            ) == (if py < TITLE_BAR_HEIGHT {
                                Self::chrome_pix(old(self).winv(jd), px, py)
                            } else {
                                pix(old(self).wbuf(jd), old(self).winv(jd).width as int, px, py)
                            })
                        &&& self.ds.dirty_rect.contains(
                            DirtyRect {
                                x: old(self).winv(jd).x,
                                y: old(self).winv(jd).y,
                                width: old(self).winv(jd).width,
                                height: old(self).winv(jd).height,
                                valid: true,
                            },
                        )
                    })
                } by {
                    let jd = self.order@[j] as int;
                    assert(jd != idd);
                    assert(before_draw.windows@[jd] is Some);
                    assert(self.winv(jd) == before_draw.winv(jd));
                    assert(self.wbuf(jd) == before_draw.wbuf(jd));
                }
            }
            k = k + 1;
        }
        let ghost pre3: WindowManager = *self;
        self.ds.render();
        proof {
            self.lemma_wm_wf_ds_same(pre3);
            let fbw = old(self).ds.fb_width as int;
            let fbh = old(self).ds.fb_height as int;
            let pitch = old(self).ds.fb_pitch as int;
            assert forall|i: int|
                0 <= i < N_WIN && (#[trigger] old(self).windows@[i]) is Some implies {
                &&& ((old(self).winv(i).minimized || !old(self).winv(i).invalidated)
                    ==> self.winv(i) == old(self).winv(i) && self.wbuf(i) == old(self).wbuf(i))
                &&& ((!old(self).winv(i).minimized && old(self).winv(i).invalidated) ==> forall|
                    px: int,
                    py: int,
                |
                    0 <= px < old(self).winv(i).width && 0 <= py < old(self).winv(i).height
                        ==> #[trigger] pix(
                        self.wbuf(i),
                        old(self).winv(i).width as int,
                        px,
                        py,
                    ) == (if py < TITLE_BAR_HEIGHT {
                        Self::chrome_pix(old(self).winv(i), px, py)
                    } else {
                        pix(old(self).wbuf(i), old(self).winv(i).width as int, px, py)
                    }))
            } by {
                let j = choose|j: int|
                    0 <= j < old(self).order.len() && #[trigger] old(self).order@[j] == i;
                assert(pre3.order@[j] == i);
                assert(self.windows@ == pre3.windows@);
                assert(self.winv(i) == pre3.winv(i));
                assert(self.wbuf(i) == pre3.wbuf(i));
            }
            assert forall|qx: int, qy: int|
                0 <= qx < fbw && 0 <= qy < fbh && (old(self).ds.frame_dirty().covers(qx, qy)
                    || exists|i: int|
                    0 <= i < N_WIN && (#[trigger] old(self).windows@[i]) is Some && !old(
                        self,
                    ).winv(i).minimized && old(self).winv(i).invalidated && old(self).winv(
                        i,
                    ).contains(qx, qy)) implies pre3.ds.frame_dirty().covers(qx, qy) by {
                if !(old(self).ds.full_redraw || !old(self).ds.desktop_cleared) {
                    if !old(self).ds.frame_dirty().covers(qx, qy) {
                        let i = choose|i: int|
                            0 <= i < N_WIN && (#[trigger] old(self).windows@[i]) is Some && !old(
                                self,
                            ).winv(i).minimized && old(self).winv(i).invalidated && old(
                                self,
                            ).winv(i).contains(qx, qy);
                        let j = choose|j: int|
                            0 <= j < old(self).order.len() && #[trigger] old(self).order@[j]
                                == i;
                        assert(pre3.order@[j] == i);
                        assert(pre3.ds.dirty_rect.contains(
                            DirtyRect {
                                x: old(self).winv(i).x,
                                y: old(self).winv(i).y,
                                width: old(self).winv(i).width,
                                height: old(self).winv(i).height,
                                valid: true,
                            },
                        ));
                    }
                }
            }
            assert forall|qx: int, qy: int|
                0 <= qx < fbw && 0 <= qy < fbh && pre3.ds.frame_dirty().covers(qx, qy) && !(old(
                    self,
                ).ds.cursor_restore_happens() && cursor_env(
                    old(self).ds.last_cursor_x as int,
                    old(self).ds.last_cursor_y as int,
                ).covers(qx, qy)) && !(old(self).ds.cursor_on_screen() && (cursor_lit(
                    qx - old(self).ds.mouse_x,
                    qy - old(self).ds.mouse_y,
                ) || cursor_outlined(qx - old(self).ds.mouse_x, qy - old(self).ds.mouse_y)))
                    implies #[trigger] pix(self.ds.backbuffer@, fbw, qx, qy) == self.ds.composite(
                qx,
                qy,
            ) by {
                assert(pix(self.ds.backbuffer@, fbw, qx, qy) == pre3.ds.composite(qx, qy));
                DisplayServer::lemma_composite_same(
                    self.ds,
                    pre3.ds,
                    pre3.ds.z_list.len() as int,
                    qx,
                    qy,
                );
            }
            assert forall|px: int, py: int|
                0 <= px < fbw && 0 <= py < fbh && pre3.ds.frame_dirty().covers(px, py)
                    implies #[trigger] pix(self.ds.framebuffer@, pitch, px, py) == pix(
                self.ds.backbuffer@,
                fbw,
                px,
                py,
            ) by {
                if pre3.ds.cursor_on_screen() {
                    crate::rect::lemma_union_contains(
                        pre3.ds.frame_dirty(),
                        DirtyRect {
                            x: if pre3.ds.mouse_x >= 1 {
                                (pre3.ds.mouse_x - 1) as i32
                            } else {
                                0
                            },
                            y: if pre3.ds.mouse_y >= 1 {
                                (pre3.ds.mouse_y - 1) as i32
                            } else {
                                0
                            },
                            width: crate::display::CURSOR_BACKUP_W,
                            height: crate::display::CURSOR_BACKUP_H,
                            valid: true,
                        },
                    );
                }
                assert(pre3.ds.flush_rect().covers(px, py));
            }
        }
    }

    /// After updating windows in ways that keep geometry, surfaces,
    /// z-orders, the order list, focus agreement and pointer targets,
    /// the manager invariant holds again.  The caller must have shown
    /// the parts this cannot see.
    proof fn lemma_wm_wf_after_flags(self, pre: WindowManager)
        requires
            pre.wf(),
            self.ds.wf(),
            self.ds.slots@ == pre.ds.slots@,
            self.windows.len() == N_WIN,
            self.order@ == pre.order@,
            self.focused == pre.focused,
            self.pointer == pre.pointer,
            self.next_z_order == pre.next_z_order,
            self.min_z_order == pre.min_z_order,
            forall|i: int|
                0 <= i < N_WIN ==> ((#[trigger] self.windows@[i]) is Some <==> pre.windows@[i] is Some),
            forall|i: int|
                0 <= i < N_WIN && (#[trigger] self.windows@[i]) is Some ==> {
                    let w = self.winv(i);
                    let p = pre.winv(i);
                    &&& w == (Window { invalidated: w.invalidated, ..p })
                },
        ensures
            self.wf(),
    {
        assert forall|i: int|
            0 <= i < N_WIN && (#[trigger] self.windows@[i]) is Some implies {
            let w = self.winv(i);
            &&& w.wf()
            &&& w.id == i
            &&& self.ds.live(w.surface as int)
            &&& self.ds.surf(w.surface as int).x == w.x
            &&& self.ds.surf(w.surface as int).y == w.y
            &&& self.ds.surf(w.surface as int).width == w.width
            &&& self.ds.surf(w.surface as int).height == w.height
            &&& self.ds.surf(w.surface as int).z_order == w.z_order
        } by {
            assert(pre.windows@[i] is Some);
        }
        assert forall|i: int, j: int|
            0 <= i < j < N_WIN && (#[trigger] self.windows@[i]) is Some
                && (#[trigger] self.windows@[j]) is Some implies self.winv(i).surface
            != self.winv(j).surface by {
            assert(pre.windows@[i] is Some && pre.windows@[j] is Some);
        }
        assert forall|s: int|
            0 <= s < N_SURF && (#[trigger] self.ds.slots@[s]) is Some implies exists|i: int|
            0 <= i < N_WIN && (#[trigger] self.windows@[i]) is Some && self.winv(i).surface
                == s by {
            assert(pre.ds.slots@[s] is Some);
            let i0 = choose|i0: int|
                0 <= i0 < N_WIN && (#[trigger] pre.windows@[i0]) is Some && pre.winv(i0).surface
                    == s;
            assert(self.windows@[i0] is Some && self.winv(i0).surface == s);
        }
        assert forall|k: int| 0 <= k < self.order.len() implies self.wlive(
            (#[trigger] self.order@[k]) as int,
        ) by {
            assert(pre.wlive(pre.order@[k] as int));
        }
        assert forall|i: int|
            0 <= i < N_WIN && (#[trigger] self.windows@[i]) is Some implies exists|k: int|
            0 <= k < self.order.len() && #[trigger] self.order@[k] == i by {
            assert(pre.windows@[i] is Some);
            let k0 = choose|k0: int| 0 <= k0 < pre.order.len() && #[trigger] pre.order@[k0] == i;
            assert(self.order@[k0] == i);
        }
        match self.focused {
            Some(f) => {
                assert(pre.winv(f as int).focused);
                assert forall|i: int|
                    0 <= i < N_WIN && (#[trigger] self.windows@[i]) is Some && i != f implies !self.winv(
                    i,
                ).focused by {
                    assert(pre.windows@[i] is Some && !pre.winv(i).focused);
                }
            },
            None => {
                assert forall|i: int|
                    0 <= i < N_WIN && (#[trigger] self.windows@[i]) is Some implies !self.winv(
                    i,
                ).focused by {
                    assert(pre.windows@[i] is Some && !pre.winv(i).focused);
                }
            },
        }
        assert forall|i: int|
            0 <= i < N_WIN && (#[trigger] self.windows@[i]) is Some implies (if self.winv(
            i,
        ).minimized {
            self.winv(i).z_order < 0
        } else {
            0 <= self.winv(i).z_order <= self.next_z_order
        }) by {
            assert(pre.windows@[i] is Some);
        }
        match self.pointer {
            PointerState::Idle => {},
            PointerState::Dragging { window, .. } => {
                assert(pre.wlive(window as int));
            },
            PointerState::Resizing { window, .. } => {
                assert(pre.wlive(window as int));
            },
        }
    }
}


/// Maximize then unmaximize is the identity on geometry: the saved
/// pre-maximize rectangle is restored exactly.
pub proof fn lemma_maximize_round_trip(
    pre: WindowManager,
    mid: WindowManager,
    post: WindowManager,
    id: int,
)
    requires
        pre.wlive(id),
        mid.wlive(id),
        mid.winv(id).orig_x == pre.winv(id).x,
        mid.winv(id).orig_y == pre.winv(id).y,
        mid.winv(id).orig_width == pre.winv(id).width,
        mid.winv(id).orig_height == pre.winv(id).height,
        post.windows@ == mid.windows@.update(
            id,
            Some(
                Window {
                    x: mid.winv(id).orig_x,
                    y: mid.winv(id).orig_y,
                    width: mid.winv(id).orig_width,
                    height: mid.winv(id).orig_height,
                    maximized: false,
                    invalidated: true,
                    ..mid.winv(id)
                },
            ),
        ),
        0 <= id < N_WIN,
        mid.windows.len() == N_WIN,
    ensures
        post.winv(id).x == pre.winv(id).x,
        post.winv(id).y == pre.winv(id).y,
        post.winv(id).width == pre.winv(id).width,
        post.winv(id).height == pre.winv(id).height,
{
}

} // verus!