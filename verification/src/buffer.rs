//! The histogram buffer: a width x height grid of per-channel counts, with
//! the projection from the complex plane to pixel coordinates, bounds-checked
//! increments, and the element-wise merge the aggregator uses.

use vstd::prelude::*;
use crate::complex::{Complex, CMAX};
use crate::fixed::{SCALE, div_trunc, div_scale};

verus! {

/// Number of color channels (iteration-limit bands).
pub const CHANNELS: usize = 3;

/// Largest accepted canvas dimension.
pub const DIM_MAX: u32 = 16384;

/// Zoom bounds: 1/1024 to 1024.
pub const ZOOM_MIN: i64 = 0x4000;

pub const ZOOM_MAX: i64 = 0x4_0000_0000;

/// Saturate an integer into the u32 range, as a float-to-u32 cast would.
pub open spec fn clamp_u32_spec(v: int) -> int {
    if v < 0 {
        0
    } else if v > 0xffff_ffff {
        0xffff_ffff
    } else {
        v
    }
}

/// One histogram cell: a count per channel.
#[derive(Clone, Copy, PartialEq, Eq, Structural, Debug)]
pub struct Cell {
    pub r: u32,
    pub g: u32,
    pub b: u32,
}

/// Saturating 32-bit sum of two counts.
pub open spec fn sat32(a: int, b: int) -> u32 {
    if a + b > 0xffff_ffff {
        0xffff_ffffu32
    } else {
        (a + b) as u32
    }
}

impl Cell {
    pub open spec fn chan(self, ch: int) -> u32 {
        if ch == 0 {
            self.r
        } else if ch == 1 {
            self.g
        } else {
            self.b
        }
    }

    /// The cell with the count of one channel raised by one (saturating).
    pub open spec fn bump_spec(self, ch: int) -> Cell {
        if ch == 0 {
            Cell { r: sat32(self.r as int, 1), ..self }
        } else if ch == 1 {
            Cell { g: sat32(self.g as int, 1), ..self }
        } else {
            Cell { b: sat32(self.b as int, 1), ..self }
        }
    }

    /// Channel-wise saturating sum of two cells.
    pub open spec fn sat_add_spec(self, other: Cell) -> Cell {
        Cell {
            r: sat32(self.r as int, other.r as int),
            g: sat32(self.g as int, other.g as int),
            b: sat32(self.b as int, other.b as int),
        }
    }

    pub fn zero() -> (c: Cell)
        ensures
            c.r == 0 && c.g == 0 && c.b == 0,
    {
        Cell { r: 0, g: 0, b: 0 }
    }

    pub fn get(&self, ch: usize) -> (v: u32)
        requires
            ch < CHANNELS,
        ensures
            v == self.chan(ch as int),
    {
        if ch == 0 {
            self.r
        } else if ch == 1 {
            self.g
        } else {
            self.b
        }
    }
}

/// Element-wise, channel-wise saturating sum of two equal-length grids.
pub open spec fn cells_sum(a: Seq<Cell>, b: Seq<Cell>) -> Seq<Cell> {
    Seq::new(a.len(), |k: int| a[k].sat_add_spec(b[k]))
}

/// The histogram: a grid of cells plus the viewport that maps plane
/// coordinates to pixels.
pub struct Buffer {
    pub buffer: Vec<Cell>,
    pub width: u32,
    pub height: u32,
    pub origin: Complex,
    pub zoom: i64,
}

impl Buffer {
    pub open spec fn wf(self) -> bool {
        &&& 1 <= self.width <= DIM_MAX
        &&& 1 <= self.height <= DIM_MAX
        &&& self.buffer@.len() == (self.width as int) * (self.height as int)
        &&& ZOOM_MIN <= self.zoom <= ZOOM_MAX
        &&& self.origin.bounded(CMAX)
    }

    /// Same viewport and dimensions (contents may differ).
    pub open spec fn same_frame(self, other: Buffer) -> bool {
        &&& self.width == other.width
        &&& self.height == other.height
        &&& self.origin == other.origin
        &&& self.zoom == other.zoom
    }

    /// The smaller canvas dimension scales both axes.
    pub open spec fn size_spec(self) -> int {
        if self.width > self.height {
            self.height as int
        } else {
            self.width as int
        }
    }

    /// Half the aspect ratio (width/height) in Q24, the x centering offset.
    pub open spec fn aspect_half_spec(self) -> int {
        (((self.width as int) * (SCALE as int)) / (self.height as int)) / 2
    }

    /// Unclamped projected x coordinate:
    /// trunc((trunc(offset.r * zoom) + aspect/2) * size).
    pub open spec fn proj_x_spec(self, p: Complex) -> int {
        let off = p.r - self.origin.r;
        let t = div_trunc(off * (self.zoom as int), SCALE as int) + self.aspect_half_spec();
        div_trunc(t * self.size_spec(), SCALE as int)
    }

    /// Unclamped projected y coordinate.
    pub open spec fn proj_y_spec(self, p: Complex) -> int {
        let off = p.i - self.origin.i;
        let t = div_trunc(off * (self.zoom as int), SCALE as int) + (SCALE as int) / 2;
        div_trunc(t * self.size_spec(), SCALE as int)
    }

    /// Pixel coordinates saturate like a float-to-u32 conversion: negatives
    /// land on 0, overly large values on u32::MAX.
    pub open spec fn px_spec(self, p: Complex) -> int {
        clamp_u32_spec(self.proj_x_spec(p))
    }

    pub open spec fn py_spec(self, p: Complex) -> int {
        clamp_u32_spec(self.proj_y_spec(p))
    }

    /// A point is in frame iff its truncated projection lies on the
    /// canvas: a negative coordinate (left of or above the viewport) is
    /// outside, as is one at or past the far edge.
    pub open spec fn in_frame(self, p: Complex) -> bool {
        &&& 0 <= self.proj_x_spec(p) < self.width
        &&& 0 <= self.proj_y_spec(p) < self.height
    }

    /// The cell index of an in-frame point.
    pub open spec fn pos_spec(self, p: Complex) -> int {
        self.proj_x_spec(p) + self.proj_y_spec(p) * (self.width as int)
    }

    /// A fresh all-zero histogram for the given viewport.
    pub fn new(width: u32, height: u32, origin: Complex, zoom: i64) -> (b: Buffer)
        requires
            1 <= width <= DIM_MAX,
            1 <= height <= DIM_MAX,
            ZOOM_MIN <= zoom <= ZOOM_MAX,
            origin.bounded(CMAX),
        ensures
            b.wf(),
            b.width == width,
            b.height == height,
            b.origin == origin,
            b.zoom == zoom,
            forall|k: int| 0 <= k < b.buffer@.len() ==> #[trigger] b.buffer@[k] == zero_cell(),
    {
        proof {
            assert((width as int) * (height as int) <= (DIM_MAX as int) * (DIM_MAX as int))
                by (nonlinear_arith)
                requires
                    1 <= width <= DIM_MAX,
                    1 <= height <= DIM_MAX,
            ;
            assert((width as int) * (height as int) >= 0) by (nonlinear_arith)
                requires
                    1 <= width,
                    1 <= height,
            ;
        }
        let n: usize = (width as usize) * (height as usize);
        let mut cells: Vec<Cell> = Vec::new();
        let mut k: usize = 0;
        while k < n
            invariant
                k <= n,
                cells@.len() == k,
                forall|j: int| 0 <= j < k ==> #[trigger] cells@[j] == zero_cell(),
            decreases n - k,
        {
            cells.push(Cell { r: 0, g: 0, b: 0 });
            k = k + 1;
        }
        Buffer { buffer: cells, width, height, origin, zoom }
    }

    /// Project a point to signed (unclamped) pixel coordinates.
    pub fn project_signed(&self, point: Complex) -> (xy: (i64, i64))
        requires
            self.wf(),
            point.bounded(CMAX),
        ensures
            xy.0 == self.proj_x_spec(point),
            xy.1 == self.proj_y_spec(point),
    {
        let size: u32 = if self.width > self.height {
            self.height
        } else {
            self.width
        };
        let aspect: i64 = (((self.width as u64) * (SCALE as u64)) / (self.height as u64)) as i64;
        let half_aspect: i64 = ((aspect as u64) / 2) as i64;
        let off_r: i64 = point.r - self.origin.r;
        let off_i: i64 = point.i - self.origin.i;
        proof {
            assert(-0x8_0000_0000int * 0x4_0000_0000 <= (off_r as int) * (self.zoom as int)
                <= 0x8_0000_0000int * 0x4_0000_0000) by (nonlinear_arith)
                requires
                    -0x8_0000_0000 <= off_r <= 0x8_0000_0000,
                    0 < self.zoom <= 0x4_0000_0000,
            ;
            assert(-0x8_0000_0000int * 0x4_0000_0000 <= (off_i as int) * (self.zoom as int)
                <= 0x8_0000_0000int * 0x4_0000_0000) by (nonlinear_arith)
                requires
                    -0x8_0000_0000 <= off_i <= 0x8_0000_0000,
                    0 < self.zoom <= 0x4_0000_0000,
            ;
            crate::fixed::lemma_div_trunc_scale_bound(
                (off_r as int) * (self.zoom as int),
                0x2_0000_0000_0000int,
            );
            crate::fixed::lemma_div_trunc_scale_bound(
                (off_i as int) * (self.zoom as int),
                0x2_0000_0000_0000int,
            );
        }
        let qx: i64 = div_scale((off_r as i128) * (self.zoom as i128));
        let qy: i64 = div_scale((off_i as i128) * (self.zoom as i128));
        let tx: i64 = qx + half_aspect;
        let ty: i64 = qy + (SCALE / 2);
        proof {
            assert(-0x4_0000_0000_0000int * 0x4000 <= (tx as int) * (size as int)
                <= 0x4_0000_0000_0000int * 0x4000) by (nonlinear_arith)
                requires
                    -0x4_0000_0000_0000 <= tx <= 0x4_0000_0000_0000,
                    0 <= size <= 0x4000,
            ;
            assert(-0x4_0000_0000_0000int * 0x4000 <= (ty as int) * (size as int)
                <= 0x4_0000_0000_0000int * 0x4000) by (nonlinear_arith)
                requires
                    -0x4_0000_0000_0000 <= ty <= 0x4_0000_0000_0000,
                    0 <= size <= 0x4000,
            ;
        }
        let pxw: i64 = div_scale((tx as i128) * (size as i128));
        let pyw: i64 = div_scale((ty as i128) * (size as i128));
        (pxw, pyw)
    }

    /// Project a point to saturated pixel coordinates, as a float-to-u32
    /// conversion would: negatives land on 0, overly large values on
    /// u32::MAX.
    pub fn project(&self, point: Complex) -> (xy: (u32, u32))
        requires
            self.wf(),
            point.bounded(CMAX),
        ensures
            xy.0 == self.px_spec(point),
            xy.1 == self.py_spec(point),
    {
        let (pxw, pyw) = self.project_signed(point);
        let px: u32 = if pxw < 0 {
            0
        } else if pxw > 0xffff_ffffi64 {
            0xffff_ffffu32
        } else {
            pxw as u32
        };
        let py: u32 = if pyw < 0 {
            0
        } else if pyw > 0xffff_ffffi64 {
            0xffff_ffffu32
        } else {
            pyw as u32
        };
        (px, py)
    }

    /// Bounds test without mutation: would this point land on the canvas?
    pub fn check(&self, point: Complex) -> (ok: bool)
        requires
            self.wf(),
            point.bounded(CMAX),
        ensures
            ok == self.in_frame(point),
    {
        let (x, y) = self.project_signed(point);
        0 <= x && x < self.width as i64 && 0 <= y && y < self.height as i64
    }

    /// Count one orbit point: project it, and raise the channel's count at
    /// that cell iff the channel index is valid and the point is in frame.
    pub fn increment(&mut self, idx: usize, point: Complex) -> (ok: bool)
        requires
            old(self).wf(),
            point.bounded(CMAX),
        ensures
            final(self).wf(),
            final(self).same_frame(*old(self)),
            ok == (idx < CHANNELS && old(self).in_frame(point)),
            final(self).buffer@ == if ok {
                old(self).buffer@.update(
                    old(self).pos_spec(point),
                    old(self).buffer@[old(self).pos_spec(point)].bump_spec(idx as int),
                )
            } else {
                old(self).buffer@
            },
    {
        if idx >= CHANNELS {
            return false;
        }
        let (xs, ys) = self.project_signed(point);
        if xs < 0 || xs >= self.width as i64 || ys < 0 || ys >= self.height as i64 {
            return false;
        }
        let x: u32 = xs as u32;
        let y: u32 = ys as u32;
        proof {
            assert((y as int) * (self.width as int) <= ((self.height as int) - 1) * (
            self.width as int) && (y as int) * (self.width as int) <= 0x1000_0000)
                by (nonlinear_arith)
                requires
                    0 <= y <= (self.height as int) - 1,
                    0 < self.width <= 0x4000,
                    self.height <= 0x4000,
            ;
            assert((x as int) + (y as int) * (self.width as int) < (self.width as int) * (
            self.height as int)) by (nonlinear_arith)
                requires
                    0 <= x < self.width,
                    (y as int) * (self.width as int) <= ((self.height as int) - 1) * (
                    self.width as int),
                    0 < self.width,
                    0 < self.height,
            ;
        }
        let pos: usize = (x as usize) + (y as usize) * (self.width as usize);
        let cell = self.buffer[pos];
        let bumped = if idx == 0 {
            Cell { r: if cell.r < 0xffff_ffffu32 { cell.r + 1 } else { cell.r }, ..cell }
        } else if idx == 1 {
            Cell { g: if cell.g < 0xffff_ffffu32 { cell.g + 1 } else { cell.g }, ..cell }
        } else {
            Cell { b: if cell.b < 0xffff_ffffu32 { cell.b + 1 } else { cell.b }, ..cell }
        };
        self.buffer.set(pos, bumped);
        true
    }

    /// Add another histogram of the same dimensions into this one,
    /// channel-wise and cell-wise, saturating.
    pub fn merge(&mut self, other: &Buffer)
        requires
            old(self).wf(),
            other.wf(),
            old(self).width == other.width,
            old(self).height == other.height,
        ensures
            final(self).wf(),
            final(self).same_frame(*old(self)),
            final(self).buffer@ == cells_sum(old(self).buffer@, other.buffer@),
    {
        let n: usize = self.buffer.len();
        let mut k: usize = 0;
        while k < n
            invariant
                k <= n,
                n == self.buffer@.len(),
                self.wf(),
                self.same_frame(*old(self)),
                other.wf(),
                self.buffer@.len() == old(self).buffer@.len(),
                other.buffer@.len() == old(self).buffer@.len(),
                forall|j: int|
                    0 <= j < k ==> #[trigger] self.buffer@[j] == old(self).buffer@[j].sat_add_spec(
                        other.buffer@[j],
                    ),
                forall|j: int| k <= j < n ==> #[trigger] self.buffer@[j] == old(self).buffer@[j],
            decreases n - k,
        {
            let a = self.buffer[k];
            let b = other.buffer[k];
            let summed = Cell {
                r: if a.r > 0xffff_ffffu32 - b.r { 0xffff_ffffu32 } else { a.r + b.r },
                g: if a.g > 0xffff_ffffu32 - b.g { 0xffff_ffffu32 } else { a.g + b.g },
                b: if a.b > 0xffff_ffffu32 - b.b { 0xffff_ffffu32 } else { a.b + b.b },
            };
            self.buffer.set(k, summed);
            k = k + 1;
        }
        proof {
            assert(self.buffer@ =~= cells_sum(old(self).buffer@, other.buffer@));
        }
    }
}

/// The four little-endian bytes of a 32-bit count.
pub open spec fn le_bytes(v: u32) -> Seq<u8> {
    seq![
        (v % 256) as u8,
        ((v / 256) % 256) as u8,
        ((v / 0x1_0000) % 256) as u8,
        ((v / 0x100_0000) % 256) as u8,
    ]
}

/// The cells of a grid, channel by channel, little-endian.
pub open spec fn cells_bytes(s: Seq<Cell>) -> Seq<u8>
    decreases s.len(),
{
    if s.len() == 0 {
        Seq::empty()
    } else {
        cells_bytes(s.drop_last()) + le_bytes(s.last().r) + le_bytes(s.last().g) + le_bytes(
            s.last().b,
        )
    }
}

/// The raw-dump image of a histogram: width, height, then every cell's
/// three counts, all 32-bit little-endian.
pub open spec fn raw_bytes_spec(b: Buffer) -> Seq<u8> {
    le_bytes(b.width) + le_bytes(b.height) + cells_bytes(b.buffer@)
}

/// Append the four little-endian bytes of one count.
fn push_le32(out: &mut Vec<u8>, v: u32)
    ensures
        final(out)@ == old(out)@ + le_bytes(v),
{
    out.push((v % 256) as u8);
    out.push(((v / 256) % 256) as u8);
    out.push(((v / 0x1_0000) % 256) as u8);
    out.push(((v / 0x100_0000) % 256) as u8);
    proof {
        assert(out@ =~= old(out)@ + le_bytes(v));
    }
}

impl Buffer {
    /// Serialize the histogram for a raw dump: width, height, and the full
    /// per-cell, per-channel counts, little-endian.  (Compression and the
    /// file write happen outside the core.)
    pub fn to_raw_bytes(&self) -> (out: Vec<u8>)
        ensures
            out@ == raw_bytes_spec(*self),
    {
        let mut out: Vec<u8> = Vec::new();
        push_le32(&mut out, self.width);
        push_le32(&mut out, self.height);
        proof {
            assert(out@ =~= le_bytes(self.width) + le_bytes(self.height) + cells_bytes(
                self.buffer@.take(0),
            ));
        }
        let n = self.buffer.len();
        let mut k: usize = 0;
        while k < n
            invariant
                k <= n,
                n == self.buffer@.len(),
                out@ == le_bytes(self.width) + le_bytes(self.height) + cells_bytes(
                    self.buffer@.take(k as int),
                ),
            decreases n - k,
        {
            proof {
                assert(self.buffer@.take(k as int + 1).drop_last() =~= self.buffer@.take(
                    k as int,
                ));
                assert(self.buffer@.take(k as int + 1).last() == self.buffer@[k as int]);
            }
            let c = self.buffer[k];
            push_le32(&mut out, c.r);
            push_le32(&mut out, c.g);
            push_le32(&mut out, c.b);
            proof {
                assert(out@ =~= le_bytes(self.width) + le_bytes(self.height) + cells_bytes(
                    self.buffer@.take(k as int + 1),
                ));
            }
            k = k + 1;
        }
        proof {
            assert(self.buffer@.take(n as int) =~= self.buffer@);
        }
        out
    }
}

/// The all-zero cell.
pub open spec fn zero_cell() -> Cell {
    Cell { r: 0, g: 0, b: 0 }
}

/// A point exactly at the origin projects to the canvas center:
/// x = trunc((aspect/2) * size), y = size/2 (both rounded toward zero).
pub proof fn lemma_project_origin(b: Buffer)
    requires
        b.wf(),
    ensures
        b.proj_x_spec(b.origin) == (b.aspect_half_spec() * b.size_spec()) / (SCALE as int),
        b.proj_y_spec(b.origin) == b.size_spec() / 2,
{
    let s = SCALE as int;
    assert(0 * (b.zoom as int) == 0) by (nonlinear_arith);
    assert(div_trunc(0, s) == 0);
    let ha = b.aspect_half_spec();
    let size = b.size_spec();
    assert(0 <= ha) by (nonlinear_arith)
        requires
            ha == (((b.width as int) * (SCALE as int)) / (b.height as int)) / 2,
            1 <= b.width,
            1 <= b.height,
            SCALE == 0x100_0000,
    ;
    assert(0 <= ha * size) by (nonlinear_arith)
        requires
            0 <= ha,
            0 <= size,
    ;
    assert(b.proj_x_spec(b.origin) == (ha * size) / s);
    assert(((s / 2) * size) / s == size / 2) by (nonlinear_arith)
        requires
            0 <= size,
            s == 0x100_0000,
    ;
    assert(0 <= (s / 2) * size) by (nonlinear_arith)
        requires
            0 <= size,
            s > 0,
    ;
    assert(b.proj_y_spec(b.origin) == ((s / 2) * size) / s);
}

/// A cell count never decreases when another histogram is merged in.
pub proof fn lemma_cells_sum_monotone(a: Seq<Cell>, b: Seq<Cell>, k: int, ch: int)
    requires
        a.len() == b.len(),
        0 <= k < a.len(),
    ensures
        cells_sum(a, b)[k].chan(ch) >= a[k].chan(ch),
{
}

/// Merging histograms is commutative: the aggregate does not depend on the
/// order in which two batches arrive.
pub proof fn lemma_cells_sum_comm(a: Seq<Cell>, b: Seq<Cell>)
    requires
        a.len() == b.len(),
    ensures
        cells_sum(a, b) == cells_sum(b, a),
{
    assert(cells_sum(a, b) =~= cells_sum(b, a));
}

/// Merging histograms is associative: batches may be grouped arbitrarily.
/// Together with commutativity, the aggregate of any finite set of batch
/// histograms is the same for every arrival order.
pub proof fn lemma_cells_sum_assoc(a: Seq<Cell>, b: Seq<Cell>, c: Seq<Cell>)
    requires
        a.len() == b.len(),
        b.len() == c.len(),
    ensures
        cells_sum(cells_sum(a, b), c) == cells_sum(a, cells_sum(b, c)),
{
    assert(cells_sum(cells_sum(a, b), c) =~= cells_sum(a, cells_sum(b, c)));
}

} // verus!
