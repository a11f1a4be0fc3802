//! Bulk pixel primitives and the acceleration shim.
//!
//! Every buffer is a flat sequence of 32-bit `0x00RRGGBB` cells addressed
//! row by row with a stride (`pitch`) measured in pixels.  The primitives
//! here are the only place where per-pixel copy and fill loops are
//! written; the display server routes its bulk work through them.
//!
//! The shim also carries an "accelerated backend present" flag and a small
//! fixed ring of queued commands reserved for future engine offload; when
//! the flag is set a bulk copy may take the accelerated entry, whose
//! observable pixel result is identical to the scalar path.

use vstd::prelude::*;
use vstd::arithmetic::mul::lemma_mul_inequality;
use vstd::arithmetic::div_mod::{lemma_div_by_multiple, lemma_div_is_ordered, lemma_fundamental_div_mod, lemma_mod_bound, lemma_multiply_divide_lt};

verus! {

/// The pixel of `buf` at column `x` of row `y` under stride `pitch`.
pub open spec fn pix(buf: Seq<u32>, pitch: int, x: int, y: int) -> u32 {
    buf[y * pitch + x]
}

/// How many whole rows of stride `pitch` fit in a buffer of `len` cells.
pub open spec fn full_rows(len: int, pitch: int) -> int {
    len / pitch
}

/// The cell `(x, y)` lies inside the whole-row grid of the buffer.
pub open spec fn grid(len: int, pitch: int, x: int, y: int) -> bool {
    &&& 0 <= x < pitch
    &&& 0 <= y
    &&& (y + 1) * pitch <= len
}

/// A grid cell's flat index is inside the buffer.
pub proof fn lemma_cell_in_range(len: int, pitch: int, x: int, y: int)
    by (nonlinear_arith)
    requires
        0 < pitch,
        grid(len, pitch, x, y),
    ensures
        0 <= y * pitch + x < len,
{
}

/// Two grid cells with the same flat index are the same cell.
pub proof fn lemma_same_row(pitch: int, px: int, py: int, r: int)
    by (nonlinear_arith)
    requires
        0 < pitch,
        0 <= px < pitch,
        r * pitch <= py * pitch + px < (r + 1) * pitch,
    ensures
        py == r,
{
}

/// A row that ends inside the buffer is one of its whole rows.
pub proof fn lemma_row_complete(len: int, pitch: int, y: int)
    requires
        0 < pitch,
        0 <= y,
        (y + 1) * pitch <= len,
    ensures
        y + 1 <= full_rows(len, pitch),
{
    lemma_div_is_ordered((y + 1) * pitch, len, pitch);
    lemma_div_by_multiple(y + 1, pitch);
}


/// Every flat index of a whole row decomposes into its grid cell.
pub proof fn lemma_flat_cell(len: int, pitch: int, i: int)
    requires
        0 < pitch,
        0 <= i,
        i < full_rows(len, pitch) * pitch,
    ensures
        grid(len, pitch, i % pitch, i / pitch),
        i == (i / pitch) * pitch + i % pitch,
{
    lemma_fundamental_div_mod(i, pitch);
    lemma_mod_bound(i, pitch);
    lemma_div_is_ordered(0, i, pitch);
    assert(full_rows(len, pitch) * pitch == pitch * full_rows(len, pitch)) by (nonlinear_arith);
    lemma_multiply_divide_lt(i, pitch, full_rows(len, pitch));
    lemma_mul_inequality(i / pitch + 1, full_rows(len, pitch), pitch);
    lemma_fundamental_div_mod(len, pitch);
    lemma_mod_bound(len, pitch);
    assert((len / pitch) * pitch == pitch * (len / pitch)) by (nonlinear_arith);
    assert((i / pitch) * pitch == pitch * (i / pitch)) by (nonlinear_arith);
}


/// Writing one grid cell of a buffer moves exactly that cell's pixel.
pub proof fn lemma_pointwise_update(pre: Seq<u32>, post: Seq<u32>, pitch: int, idx: int, px: int, py: int)
    requires
        0 < pitch,
        grid(pre.len() as int, pitch, px, py),
        idx == py * pitch + px,
        post == pre.update(idx, post[idx]),
    ensures
        post.len() == pre.len(),
        forall|qx: int, qy: int|
            grid(pre.len() as int, pitch, qx, qy) && !(qx == px && qy == py) ==> #[trigger] pix(
                post,
                pitch,
                qx,
                qy,
            ) == pix(pre, pitch, qx, qy),
        pix(post, pitch, px, py) == post[idx],
        forall|i: int| 0 <= i < pre.len() && i != idx ==> post[i] == pre[i],
{
    lemma_cell_in_range(pre.len() as int, pitch, px, py);
    assert forall|qx: int, qy: int|
        grid(pre.len() as int, pitch, qx, qy) && !(qx == px && qy == py) implies #[trigger] pix(
        post,
        pitch,
        qx,
        qy,
    ) == pix(pre, pitch, qx, qy) by {
        lemma_cell_in_range(pre.len() as int, pitch, qx, qy);
        if qy * pitch + qx == idx {
            assert((py + 1) * pitch == py * pitch + pitch) by (nonlinear_arith);
            assert(0 <= py * pitch) by (nonlinear_arith)
                requires
                    0 <= py,
                    0 <= pitch,
            ;
            lemma_same_row(pitch, qx, qy, py);
        }
    }
}

/// A flat index past the used rows decomposes into a grid cell below
/// them.
pub proof fn lemma_tail_cell(len: int, pitch: int, rows: int, i: int)
    requires
        0 < pitch,
        0 <= rows,
        rows * pitch <= i < full_rows(len, pitch) * pitch,
    ensures
        grid(len, pitch, i % pitch, i / pitch),
        i == (i / pitch) * pitch + i % pitch,
        i / pitch >= rows,
{
    lemma_flat_cell(len, pitch, i);
    assert(rows * pitch == pitch * rows) by (nonlinear_arith);
    lemma_div_is_ordered(rows * pitch, i, pitch);
    lemma_div_by_multiple(rows, pitch);
}

/// Writes `color` to the flat span `[start, start + w)`.
fn fill_span(buf: &mut Vec<u32>, start: usize, w: usize, color: u32)
    requires
        start + w <= old(buf).len(),
    ensures
        final(buf).len() == old(buf).len(),
        forall|i: int|
            0 <= i < old(buf).len() ==> final(buf)@[i] == if start <= i < start + w {
                color
            } else {
                old(buf)@[i]
            },
{
    let mut c: usize = 0;
    while c < w
        invariant
            start + w <= buf.len(),
            buf.len() == old(buf).len(),
            c <= w,
            forall|i: int|
                0 <= i < buf.len() ==> buf@[i] == if start <= i < start + c {
                    color
                } else {
                    old(buf)@[i]
                },
        decreases w - c,
    {
        buf[start + c] = color;
        c = c + 1;
    }
}

/// Copies `w` cells from `src[src_start..]` to the flat span of `buf`
/// starting at `start`.
fn copy_span(buf: &mut Vec<u32>, start: usize, src: &Vec<u32>, src_start: usize, w: usize)
    requires
        start + w <= old(buf).len(),
        src_start + w <= src.len(),
    ensures
        final(buf).len() == old(buf).len(),
        forall|i: int|
            0 <= i < old(buf).len() ==> final(buf)@[i] == if start <= i < start + w {
                src@[src_start + (i - start)]
            } else {
                old(buf)@[i]
            },
{
    let mut c: usize = 0;
    while c < w
        invariant
            start + w <= buf.len(),
            buf.len() == old(buf).len(),
            src_start + w <= src.len(),
            c <= w,
            forall|i: int|
                0 <= i < buf.len() ==> buf@[i] == if start <= i < start + c {
                    src@[src_start + (i - start)]
                } else {
                    old(buf)@[i]
                },
        decreases w - c,
    {
        buf[start + c] = src[src_start + c];
        c = c + 1;
    }
}

/// Row-by-row copy of a `w x h` region between two buffers with
/// independent strides and origins.  Callers clip first: every addressed
/// row must lie inside its buffer.
pub fn copy_rect(
    dst: &mut Vec<u32>,
    dst_pitch: u32,
    dst_x: u32,
    dst_y: u32,
    src: &Vec<u32>,
    src_pitch: u32,
    src_x: u32,
    src_y: u32,
    w: u32,
    h: u32,
)
    requires
        0 < dst_pitch,
        0 < src_pitch,
        dst_x + w <= dst_pitch,
        src_x + w <= src_pitch,
        (dst_y + h) * dst_pitch <= old(dst).len(),
        (src_y + h) * src_pitch <= src.len(),
    ensures
        final(dst).len() == old(dst).len(),
        forall|px: int, py: int|
            grid(old(dst).len() as int, dst_pitch as int, px, py) ==> #[trigger] pix(
                final(dst)@,
                dst_pitch as int,
                px,
                py,
            ) == if dst_x <= px < dst_x + w && dst_y <= py < dst_y + h {
                pix(src@, src_pitch as int, src_x + (px - dst_x), src_y + (py - dst_y))
            } else {
                pix(old(dst)@, dst_pitch as int, px, py)
            },
        forall|i: int|
            full_rows(old(dst).len() as int, dst_pitch as int) * dst_pitch <= i < old(dst).len() ==> final(dst)@[i] == old(dst)@[i],
{
    let ghost dlen: int = dst.len() as int;
    let ghost dp: int = dst_pitch as int;
    let ghost sp: int = src_pitch as int;
    let mut r: u32 = 0;
    while r < h
        invariant
            dst.len() == old(dst).len(),
            r <= h,
            0 < dst_pitch,
            0 < src_pitch,
            dst_x + w <= dst_pitch,
            src_x + w <= src_pitch,
            (dst_y + h) * dp <= dst.len(),
            (src_y + h) * sp <= src.len(),
            dlen == dst.len() as int,
            dp == dst_pitch as int,
            sp == src_pitch as int,
            forall|px: int, py: int|
                grid(dlen, dp, px, py) ==> #[trigger] pix(dst@, dp, px, py) == if dst_x <= px
                    < dst_x + w && dst_y <= py < dst_y + r {
                    pix(src@, sp, src_x + (px - dst_x), src_y + (py - dst_y))
                } else {
                    pix(old(dst)@, dp, px, py)
                },
            forall|i: int| full_rows(dlen, dp) * dp <= i < dlen ==> dst@[i] == old(dst)@[i],
        decreases h - r,
    {
        proof {
            lemma_mul_inequality(dst_y + r + 1, dst_y + h, dp);
            lemma_mul_inequality(src_y + r + 1, src_y + h, sp);
            assert((dst_y + r) * dp + dp == (dst_y + r + 1) * dp) by (nonlinear_arith);
            assert((src_y + r) * sp + sp == (src_y + r + 1) * sp) by (nonlinear_arith);
            assert(0 <= (dst_y + r) * dp) by (nonlinear_arith)
                requires
                    0 <= dst_y + r,
                    0 <= dp,
            ;
            assert(0 <= (src_y + r) * sp) by (nonlinear_arith)
                requires
                    0 <= src_y + r,
                    0 <= sp,
            ;
            assert(dst_y + r + 1 <= (dst_y + r + 1) * dp) by (nonlinear_arith)
                requires
                    0 <= dst_y + r,
                    1 <= dp,
            ;
            assert(src_y + r + 1 <= (src_y + r + 1) * sp) by (nonlinear_arith)
                requires
                    0 <= src_y + r,
                    1 <= sp,
            ;
        }
        let dstart: usize = (dst_y as usize + r as usize) * dst_pitch as usize + dst_x as usize;
        let sstart: usize = (src_y as usize + r as usize) * src_pitch as usize + src_x as usize;
        let ghost prev: Seq<u32> = dst@;
        copy_span(dst, dstart, src, sstart, w as usize);
        proof {
            let row: int = dst_y as int + r as int;
            assert forall|px: int, py: int| grid(dlen, dp, px, py) implies #[trigger] pix(
                dst@,
                dp,
                px,
                py,
            ) == if dst_x <= px < dst_x + w && dst_y <= py < dst_y + r + 1 {
                pix(src@, sp, src_x + (px - dst_x), src_y + (py - dst_y))
            } else {
                pix(old(dst)@, dp, px, py)
            } by {
                lemma_cell_in_range(dlen, dp, px, py);
                let i: int = py * dp + px;
                assert(pix(prev, dp, px, py) == prev[i]);
                if py == row {
                    assert(py * dp == row * dp);
                    assert((src_y + (py - dst_y)) * sp == (src_y + r) * sp);
                } else if py < row {
                    assert((py + 1) * dp == py * dp + dp) by (nonlinear_arith);
                    lemma_mul_inequality(py + 1, row, dp);
                    assert(i < dstart);
                } else {
                    assert((row + 1) * dp == row * dp + dp) by (nonlinear_arith);
                    lemma_mul_inequality(row + 1, py, dp);
                    assert(i >= dstart + w);
                }
            }
            assert forall|i: int| full_rows(dlen, dp) * dp <= i < dlen implies dst@[i] == old(dst)@[i] by {
                lemma_row_complete(dlen, dp, row);
                lemma_mul_inequality(row + 1, full_rows(dlen, dp), dp);
                assert((row + 1) * dp == row * dp + dp) by (nonlinear_arith);
            }
        }
        r = r + 1;
    }
}

/// Writes `color` to a `w x h` rectangle at `(x, y)`.  A negative origin
/// is refused silently; otherwise the rectangle must lie inside the
/// buffer's rows.
pub fn fill_rect(buf: &mut Vec<u32>, pitch: u32, x: i32, y: i32, w: u32, h: u32, color: u32)
    requires
        0 < pitch,
        x >= 0 && y >= 0 ==> x + w <= pitch && (y + h) * pitch <= old(buf).len(),
    ensures
        final(buf).len() == old(buf).len(),
        x < 0 || y < 0 ==> final(buf)@ == old(buf)@,
        x >= 0 && y >= 0 ==> forall|px: int, py: int|
            grid(old(buf).len() as int, pitch as int, px, py) ==> #[trigger] pix(
                final(buf)@,
                pitch as int,
                px,
                py,
            ) == if x <= px < x + w && y <= py < y + h {
                color
            } else {
                pix(old(buf)@, pitch as int, px, py)
            },
        x >= 0 && y >= 0 ==> forall|i: int|
            full_rows(old(buf).len() as int, pitch as int) * pitch <= i < old(buf).len() ==> final(buf)@[i] == old(buf)@[i],
{
    if x < 0 || y < 0 {
        return;
    }
    let ghost blen: int = buf.len() as int;
    let ghost p: int = pitch as int;
    let xs: u32 = x as u32;
    let ys: u32 = y as u32;
    let mut r: u32 = 0;
    while r < h
        invariant
            buf.len() == old(buf).len(),
            r <= h,
            0 < pitch,
            xs == x,
            ys == y,
            xs + w <= pitch,
            (ys + h) * p <= buf.len(),
            blen == buf.len() as int,
            p == pitch as int,
            forall|px: int, py: int|
                grid(blen, p, px, py) ==> #[trigger] pix(buf@, p, px, py) == if xs <= px < xs + w
                    && ys <= py < ys + r {
                    color
                } else {
                    pix(old(buf)@, p, px, py)
                },
            forall|i: int| full_rows(blen, p) * p <= i < blen ==> buf@[i] == old(buf)@[i],
        decreases h - r,
    {
        proof {
            lemma_mul_inequality(ys + r + 1, ys + h, p);
            assert((ys + r) * p + p == (ys + r + 1) * p) by (nonlinear_arith);
            assert(0 <= (ys + r) * p) by (nonlinear_arith)
                requires
                    0 <= ys + r,
                    0 <= p,
            ;
            assert(ys + r + 1 <= (ys + r + 1) * p) by (nonlinear_arith)
                requires
                    0 <= ys + r,
                    1 <= p,
            ;
        }
        let start: usize = (ys as usize + r as usize) * pitch as usize + xs as usize;
        let ghost prev: Seq<u32> = buf@;
        fill_span(buf, start, w as usize, color);
        proof {
            let row: int = ys as int + r as int;
            assert forall|px: int, py: int| grid(blen, p, px, py) implies #[trigger] pix(
                buf@,
                p,
                px,
                py,
            ) == if xs <= px < xs + w && ys <= py < ys + r + 1 {
                color
            } else {
                pix(old(buf)@, p, px, py)
            } by {
                lemma_cell_in_range(blen, p, px, py);
                let i: int = py * p + px;
                assert(pix(prev, p, px, py) == prev[i]);
                if py == row {
                    assert(py * p == row * p);
                } else if py < row {
                    assert((py + 1) * p == py * p + p) by (nonlinear_arith);
                    lemma_mul_inequality(py + 1, row, p);
                    assert(i < start);
                } else {
                    assert((row + 1) * p == row * p + p) by (nonlinear_arith);
                    lemma_mul_inequality(row + 1, py, p);
                    assert(i >= start + w);
                }
            }
            assert forall|i: int| full_rows(blen, p) * p <= i < blen implies buf@[i] == old(buf)@[i] by {
                lemma_row_complete(blen, p, row);
                lemma_mul_inequality(row + 1, full_rows(blen, p), p);
                assert((row + 1) * p == row * p + p) by (nonlinear_arith);
            }
        }
        r = r + 1;
    }
}

/// Fills the contiguous region of the first `w * h` cells with `color`.
pub fn clear(buf: &mut Vec<u32>, w: u32, h: u32, color: u32)
    requires
        w * h <= old(buf).len(),
    ensures
        final(buf).len() == old(buf).len(),
        forall|i: int|
            0 <= i < old(buf).len() ==> final(buf)@[i] == if i < w * h {
                color
            } else {
                old(buf)@[i]
            },
{
    let size: usize = w as usize * h as usize;
    fill_span(buf, 0, size, color);
}

/// The blended channel value `(s * a + d * (255 - a)) / 255`.
pub open spec fn blend_channel(s: int, d: int, a: int) -> int {
    (s * a + d * (255 - a)) / 255
}

/// The alpha blend of two `0x00RRGGBB` pixels, channel by channel.
pub open spec fn blend_pixel(s: u32, d: u32, a: u8) -> u32 {
    let sr = (s >> 16) & 0xFF;
    let sg = (s >> 8) & 0xFF;
    let sb = s & 0xFF;
    let dr = (d >> 16) & 0xFF;
    let dg = (d >> 8) & 0xFF;
    let db = d & 0xFF;
    let r = blend_channel(sr as int, dr as int, a as int) as u32;
    let g = blend_channel(sg as int, dg as int, a as int) as u32;
    let b = blend_channel(sb as int, db as int, a as int) as u32;
    (r << 16) | (g << 8) | b
}

/// Blends the first `w * h` cells of `src` over `dst` with the given
/// alpha.  Reserved for transparency support; bit-exact per channel.
pub fn alpha_blend(dst: &mut Vec<u32>, src: &Vec<u32>, w: u32, h: u32, alpha: u8)
    requires
        w * h <= old(dst).len(),
        w * h <= src.len(),
    ensures
        final(dst).len() == old(dst).len(),
        forall|i: int|
            0 <= i < old(dst).len() ==> final(dst)@[i] == if i < w * h {
                blend_pixel(src@[i], old(dst)@[i], alpha)
            } else {
                old(dst)@[i]
            },
{
    let alpha_f: u32 = alpha as u32;
    let inv_alpha_f: u32 = 255 - alpha_f;
    let size: usize = w as usize * h as usize;
    let mut i: usize = 0;
    while i < size
        invariant
            size == w * h,
            size <= dst.len(),
            size <= src.len(),
            dst.len() == old(dst).len(),
            i <= size,
            alpha_f == alpha,
            inv_alpha_f == 255 - alpha,
            forall|j: int|
                0 <= j < dst.len() ==> dst@[j] == if j < i {
                    blend_pixel(src@[j], old(dst)@[j], alpha)
                } else {
                    old(dst)@[j]
                },
        decreases size - i,
    {
        let s: u32 = src[i];
        let d: u32 = dst[i];
        let sr: u32 = (s >> 16) & 0xFF;
        let sg: u32 = (s >> 8) & 0xFF;
        let sb: u32 = s & 0xFF;
        let dr: u32 = (d >> 16) & 0xFF;
        let dg: u32 = (d >> 8) & 0xFF;
        let db: u32 = d & 0xFF;
        assert(sr <= 255 && sg <= 255 && sb <= 255 && dr <= 255 && dg <= 255 && db <= 255)
            by (bit_vector)
            requires
                sr == (s >> 16) & 0xFF,
                sg == (s >> 8) & 0xFF,
                sb == s & 0xFF,
                dr == (d >> 16) & 0xFF,
                dg == (d >> 8) & 0xFF,
                db == d & 0xFF,
        ;
        proof {
            assert(sr * alpha_f <= 255 * 255 && dr * inv_alpha_f <= 255 * 255 && sg * alpha_f
                <= 255 * 255 && dg * inv_alpha_f <= 255 * 255 && sb * alpha_f <= 255 * 255 && db
                * inv_alpha_f <= 255 * 255) by (nonlinear_arith)
                requires
                    sr <= 255,
                    sg <= 255,
                    sb <= 255,
                    dr <= 255,
                    dg <= 255,
                    db <= 255,
                    alpha_f <= 255,
                    inv_alpha_f <= 255,
            ;
        }
        let r: u32 = (sr * alpha_f + dr * inv_alpha_f) / 255;
        let g: u32 = (sg * alpha_f + dg * inv_alpha_f) / 255;
        let b: u32 = (sb * alpha_f + db * inv_alpha_f) / 255;
        let out: u32 = (r << 16) | (g << 8) | b;
        assert(out == blend_pixel(s, d, alpha));
        dst[i] = out;
        i = i + 1;
    }
}

/// The acceleration shim's context: output dimensions and whether an
/// accelerated backend is present.
pub struct GpuContext {
    pub width: u32,
    pub height: u32,
    pub pitch: u32,
    pub gpu_available: bool,
}

impl GpuContext {
    /// Records the output geometry and marks the backend present.
    pub fn new(width: u32, height: u32, pitch: u32) -> (r: GpuContext)
        ensures
            r == (GpuContext { width, height, pitch, gpu_available: true }),
    {
        GpuContext { width, height, pitch, gpu_available: true }
    }

    /// Whether the accelerated path may be taken.
    pub fn is_available(&self) -> (r: bool)
        ensures
            r == self.gpu_available,
    {
        self.gpu_available
    }
}

/// One queued engine command: a tag and its payload words.
#[derive(Clone, Copy)]
pub struct GpuCommand {
    pub command_type: u32,
    pub data: [u32; 16],
}

/// A fixed ring of queued commands, single producer and single consumer.
pub struct CommandQueue {
    pub slots: Vec<Option<GpuCommand>>,
    pub head: usize,
    pub tail: usize,
}

/// Capacity of the command ring.
pub const COMMAND_QUEUE_CAP: usize = 64;

impl CommandQueue {
    /// The ring's indices stay inside its fixed capacity.
    pub open spec fn wf(self) -> bool {
        &&& self.slots.len() == COMMAND_QUEUE_CAP
        &&& self.head < COMMAND_QUEUE_CAP
        &&& self.tail < COMMAND_QUEUE_CAP
    }

    /// An empty ring.
    pub fn new() -> (r: CommandQueue)
        ensures
            r.wf(),
            r.head == 0,
            r.tail == 0,
    {
        let mut slots: Vec<Option<GpuCommand>> = Vec::new();
        let mut i: usize = 0;
        while i < COMMAND_QUEUE_CAP
            invariant
                slots.len() == i,
                i <= COMMAND_QUEUE_CAP,
            decreases COMMAND_QUEUE_CAP - i,
        {
            slots.push(None);
            i = i + 1;
        }
        CommandQueue { slots, head: 0, tail: 0 }
    }

    /// Queues a command.  Refused (returning false, changing nothing) when
    /// the ring is full, that is when advancing the tail would meet the
    /// head.
    pub fn submit(&mut self, cmd: &GpuCommand) -> (r: bool)
        requires
            old(self).wf(),
        ensures
            final(self).wf(),
            r == ((old(self).tail + 1) % (COMMAND_QUEUE_CAP as int) != old(self).head),
            !r ==> *final(self) == *old(self),
            r ==> {
                &&& final(self).slots@ == old(self).slots@.update(
                    old(self).tail as int,
                    Some(*cmd),
                )
                &&& final(self).tail == (old(self).tail + 1) % (COMMAND_QUEUE_CAP as int)
                &&& final(self).head == old(self).head
            },
    {
        let next_tail: usize = (self.tail + 1) % COMMAND_QUEUE_CAP;
        if next_tail == self.head {
            return false;
        }
        self.slots[self.tail] = Some(*cmd);
        self.tail = next_tail;
        true
    }

    /// Whether ring index `i` lies in the interval from `head`
    /// (inclusive) to `tail` (exclusive), wrapping at the capacity.
    pub open spec fn in_ring(head: int, tail: int, i: int) -> bool {
        if head <= tail {
            head <= i < tail
        } else {
            head <= i < COMMAND_QUEUE_CAP || 0 <= i < tail
        }
    }

    /// Drains the ring: every slot between the head and the tail is
    /// emptied, every other slot is untouched, and the head meets the
    /// tail.
    pub fn process(&mut self)
        requires
            old(self).wf(),
        ensures
            final(self).wf(),
            final(self).head == final(self).tail,
            final(self).tail == old(self).tail,
            forall|i: int|
                0 <= i < COMMAND_QUEUE_CAP ==> final(self).slots@[i] == (if Self::in_ring(
                    old(self).head as int,
                    old(self).tail as int,
                    i,
                ) {
                    None::<GpuCommand>
                } else {
                    old(self).slots@[i]
                }),
    {
        while self.head != self.tail
            invariant
                self.wf(),
                self.tail == old(self).tail,
                self.head == old(self).tail || Self::in_ring(
                    old(self).head as int,
                    old(self).tail as int,
                    self.head as int,
                ),
                forall|i: int|
                    0 <= i < COMMAND_QUEUE_CAP ==> self.slots@[i] == (if Self::in_ring(
                        old(self).head as int,
                        self.head as int,
                        i,
                    ) {
                        None::<GpuCommand>
                    } else {
                        old(self).slots@[i]
                    }),
            decreases if self.head <= self.tail {
                self.tail - self.head
            } else {
                COMMAND_QUEUE_CAP + self.tail - self.head
            },
    	{
            self.slots[self.head] = None;
            self.head = (self.head + 1) % COMMAND_QUEUE_CAP;
        }
    }
}

} // verus!
