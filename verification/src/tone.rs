//! The tone mapper: normalize each channel's counts by the channel maximum
//! and press them through a perceptual gain curve into 8-bit samples,
//! optionally downsampling by a fixed stride per axis.

use vstd::prelude::*;
use crate::buffer::{Cell, DIM_MAX};
use crate::fixed::{SCALE, pow_frac, pow_frac_spec, lemma_pow_frac_range, lemma_pow_frac_monotone,
    lemma_pow_frac_zero};

verus! {

/// The gain curve's exponent log(0.8)/log(0.5) in Q24 (the bias parameter
/// is fixed at 0.2).
pub const GAIN_EXP_Q: i64 = 5401057;

pub open spec fn min255(v: int) -> int {
    if v > 255 {
        255
    } else {
        v
    }
}

/// One 8-bit output sample from a raw count `n` and its channel maximum
/// `m`: normalize to x = n/m, then
///   bias(2x)            scaled to [0, 255]  for x < 1/2,
///   2 - bias(2 - 2x)    scaled and clamped  otherwise,
/// with bias(x) = x^(log 0.8 / log 0.5).  An all-zero channel (m == 0)
/// maps to black.
pub open spec fn gain_spec(n: int, m: int) -> int {
    if m == 0 {
        0
    } else {
        let x = (n * SCALE) / m;
        if 2 * x < SCALE {
            let t = pow_frac_spec(2 * x, GAIN_EXP_Q as int);
            min255((t * 256) / (SCALE as int))
        } else {
            let t = pow_frac_spec(2 * SCALE - 2 * x, GAIN_EXP_Q as int);
            min255(((2 * SCALE - t) * 256) / (SCALE as int))
        }
    }
}

/// An all-zero channel maps to black: no division by zero, no undefined
/// output.
pub proof fn lemma_gain_black(n: int)
    ensures
        gain_spec(n, 0) == 0,
{
}

/// A zero count maps to black whenever the channel has any counts at all.
pub proof fn lemma_gain_zero_count(m: int)
    requires
        m >= 1,
    ensures
        gain_spec(0, m) == 0,
{
    assert((0 * SCALE) / m == 0) by (nonlinear_arith)
        requires
            m >= 1,
    ;
    lemma_pow_frac_zero(GAIN_EXP_Q as int);
}

/// On the upper half of the normalized range the curve saturates at 255.
proof fn lemma_gain_upper_saturates(n: int, m: int)
    requires
        m >= 1,
        0 <= n <= m,
        2 * ((n * SCALE) / m) >= SCALE,
    ensures
        gain_spec(n, m) == 255,
{
    let x = (n * SCALE) / m;
    let t = pow_frac_spec(2 * SCALE - 2 * x, GAIN_EXP_Q as int);
    assert(0 <= x <= SCALE) by (nonlinear_arith)
        requires
            m >= 1,
            0 <= n <= m,
            x == (n * SCALE) / m,
            SCALE == 0x100_0000,
    ;
    lemma_pow_frac_range(2 * SCALE - 2 * x, GAIN_EXP_Q as int);
    assert(((2 * SCALE - t) * 256) / (SCALE as int) >= 256) by (nonlinear_arith)
        requires
            t <= SCALE,
            2 * SCALE - t >= SCALE,
            SCALE == 0x100_0000,
    ;
}

/// The tone curve is monotone non-decreasing in the raw count (that is, in
/// the normalized input n/m), for any fixed channel maximum.
pub proof fn lemma_gain_monotone(n1: int, n2: int, m: int)
    requires
        0 <= n1 <= n2 <= m,
    ensures
        gain_spec(n1, m) <= gain_spec(n2, m),
{
    if m == 0 {
    } else {
        let x1 = (n1 * SCALE) / m;
        let x2 = (n2 * SCALE) / m;
        assert(0 <= x1 <= x2 <= SCALE) by (nonlinear_arith)
            requires
                m >= 1,
                0 <= n1 <= n2 <= m,
                x1 == (n1 * SCALE) / m,
                x2 == (n2 * SCALE) / m,
                SCALE == 0x100_0000,
        ;
        if 2 * x2 < SCALE {
            let t1 = pow_frac_spec(2 * x1, GAIN_EXP_Q as int);
            let t2 = pow_frac_spec(2 * x2, GAIN_EXP_Q as int);
            lemma_pow_frac_monotone(2 * x1, 2 * x2, GAIN_EXP_Q as int);
            lemma_pow_frac_range(2 * x1, GAIN_EXP_Q as int);
            lemma_pow_frac_range(2 * x2, GAIN_EXP_Q as int);
            assert((t1 * 256) / (SCALE as int) <= (t2 * 256) / (SCALE as int))
                by (nonlinear_arith)
                requires
                    0 <= t1 <= t2,
                    SCALE == 0x100_0000,
            ;
        } else if 2 * x1 < SCALE {
            let t1 = pow_frac_spec(2 * x1, GAIN_EXP_Q as int);
            lemma_pow_frac_range(2 * x1, GAIN_EXP_Q as int);
            assert((t1 * 256) / (SCALE as int) <= 256) by (nonlinear_arith)
                requires
                    0 <= t1 <= SCALE,
                    SCALE == 0x100_0000,
            ;
            lemma_gain_upper_saturates(n2, m);
        } else {
            lemma_gain_upper_saturates(n1, m);
            lemma_gain_upper_saturates(n2, m);
        }
    }
}

/// Executable gain curve.
pub fn gain(n: u32, m: u32) -> (r: u8)
    requires
        n <= m,
    ensures
        r == gain_spec(n as int, m as int),
{
    if m == 0 {
        return 0;
    }
    proof {
        assert(0 <= ((n as int) * (SCALE as int)) / (m as int) <= SCALE) by (nonlinear_arith)
            requires
                1 <= m,
                0 <= n <= m,
                SCALE == 0x100_0000,
        ;
    }
    let x: u64 = ((n as u64) * (SCALE as u64)) / (m as u64);
    let x2: i64 = (2 * x) as i64;
    if x2 < SCALE {
        let t = pow_frac(x2, GAIN_EXP_Q);
        let b: u64 = ((t as u64) * 256) / (SCALE as u64);
        if b > 255 {
            255
        } else {
            b as u8
        }
    } else {
        let t = pow_frac(2 * SCALE - x2, GAIN_EXP_Q);
        let v: u64 = (((2 * SCALE - t) as u64) * 256) / (SCALE as u64);
        if v > 255 {
            255
        } else {
            v as u8
        }
    }
}

/// The largest count of one channel over the whole grid.
pub open spec fn chan_max(s: Seq<Cell>, ch: int) -> int
    decreases s.len(),
{
    if s.len() == 0 {
        0
    } else {
        let m = chan_max(s.drop_last(), ch);
        if s.last().chan(ch) > m {
            s.last().chan(ch) as int
        } else {
            m
        }
    }
}

pub proof fn lemma_chan_max_bounds(s: Seq<Cell>, ch: int)
    ensures
        0 <= chan_max(s, ch) <= 0xffff_ffff,
    decreases s.len(),
{
    if s.len() > 0 {
        lemma_chan_max_bounds(s.drop_last(), ch);
    }
}

/// Every cell's count is below its channel maximum.
pub proof fn lemma_chan_max_ge(s: Seq<Cell>, ch: int, i: int)
    requires
        0 <= i < s.len(),
    ensures
        s[i].chan(ch) <= chan_max(s, ch),
    decreases s.len(),
{
    if i == s.len() - 1 {
    } else {
        lemma_chan_max_ge(s.drop_last(), ch, i);
    }
}

/// Compute the three channel maxima in one pass.
pub fn channel_maxes(in_buf: &Vec<Cell>) -> (m: (u32, u32, u32))
    ensures
        m.0 == chan_max(in_buf@, 0),
        m.1 == chan_max(in_buf@, 1),
        m.2 == chan_max(in_buf@, 2),
{
    let mut mr: u32 = 0;
    let mut mg: u32 = 0;
    let mut mb: u32 = 0;
    let len = in_buf.len();
    let mut k: usize = 0;
    while k < len
        invariant
            k <= len,
            len == in_buf@.len(),
            mr == chan_max(in_buf@.take(k as int), 0),
            mg == chan_max(in_buf@.take(k as int), 1),
            mb == chan_max(in_buf@.take(k as int), 2),
        decreases len - k,
    {
        proof {
            assert(in_buf@.take(k as int + 1).drop_last() =~= in_buf@.take(k as int));
            assert(in_buf@.take(k as int + 1).last() == in_buf@[k as int]);
        }
        let c = in_buf[k];
        if c.r > mr {
            mr = c.r;
        }
        if c.g > mg {
            mg = c.g;
        }
        if c.b > mb {
            mb = c.b;
        }
        k = k + 1;
    }
    proof {
        assert(in_buf@.take(len as int) =~= in_buf@);
    }
    (mr, mg, mb)
}

/// The cell sampled for output pixel index p (row-major over the window):
/// nearest-pixel downsampling with stride width/window_width per column and
/// height/window_height per row.
pub open spec fn sample_pos(width: int, height: int, ww: int, wh: int, p: int) -> int {
    let oy = p / ww;
    let ox = p % ww;
    (oy * (height / wh)) * width + ox * (width / ww)
}

/// Map a histogram to an 8-bit RGB buffer: for each output pixel, each
/// channel's count at the sampled cell is normalized by that channel's
/// maximum and pressed through the gain curve.
pub fn color_map_buffer(
    width: u32,
    height: u32,
    window_width: u32,
    window_height: u32,
    in_buf: &Vec<Cell>,
    out_buf: &mut Vec<u8>,
)
    requires
        1 <= window_width <= width <= DIM_MAX,
        1 <= window_height <= height <= DIM_MAX,
        in_buf@.len() == (width as int) * (height as int),
        old(out_buf)@.len() == 3 * (window_width as int) * (window_height as int),
    ensures
        final(out_buf)@.len() == old(out_buf)@.len(),
        forall|p: int, ch: int|
            0 <= p < (window_width as int) * (window_height as int) && 0 <= ch < 3
                ==> #[trigger] final(out_buf)@[3 * p + ch] == gain_spec(
                in_buf@[sample_pos(
                    width as int,
                    height as int,
                    window_width as int,
                    window_height as int,
                    p,
                )].chan(ch) as int,
                chan_max(in_buf@, ch),
            ),
{
    let (mr, mg, mb) = channel_maxes(in_buf);
    let skip_x: usize = (width / window_width) as usize;
    let skip_y: usize = (height / window_height) as usize;
    let ww: usize = window_width as usize;
    let wh: usize = window_height as usize;
    proof {
        assert((ww as int) * (wh as int) <= 0x1000_0000 && (width as int) * (height as int)
            <= 0x1000_0000) by (nonlinear_arith)
            requires
                1 <= ww <= 0x4000,
                1 <= wh <= 0x4000,
                1 <= width <= 0x4000,
                1 <= height <= 0x4000,
        ;
        assert(3 * (ww as int) * (wh as int) == 3 * ((ww as int) * (wh as int)))
            by (nonlinear_arith);
    }
    let total: usize = ww * wh;
    let mut p: usize = 0;
    while p < total
        invariant
            p <= total,
            total == (window_width as int) * (window_height as int),
            ww == window_width,
            wh == window_height,
            skip_x == (width as int) / (window_width as int),
            skip_y == (height as int) / (window_height as int),
            1 <= window_width <= width <= DIM_MAX,
            1 <= window_height <= height <= DIM_MAX,
            total <= 0x1000_0000,
            (width as int) * (height as int) <= 0x1000_0000,
            in_buf@.len() == (width as int) * (height as int),
            out_buf@.len() == 3 * (total as int),
            out_buf@.len() == 3 * (window_width as int) * (window_height as int),
            mr == chan_max(in_buf@, 0),
            mg == chan_max(in_buf@, 1),
            mb == chan_max(in_buf@, 2),
            forall|q: int, ch: int|
                0 <= q < p && 0 <= ch < 3 ==> #[trigger] out_buf@[3 * q + ch] == gain_spec(
                    in_buf@[sample_pos(
                        width as int,
                        height as int,
                        window_width as int,
                        window_height as int,
                        q,
                    )].chan(ch) as int,
                    chan_max(in_buf@, ch),
                ),
        decreases total - p,
    {
        let oy: usize = p / ww;
        let ox: usize = p % ww;
        proof {
            assert((p as int) / (ww as int) < wh as int) by (nonlinear_arith)
                requires
                    0 <= p < (ww as int) * (wh as int),
                    1 <= ww,
                    1 <= wh,
            ;
            lemma_sample_pos_in_range(
                width as int,
                height as int,
                window_width as int,
                window_height as int,
                p as int,
            );
        }
        let row: usize = oy * skip_y;
        let col: usize = ox * skip_x;
        proof {
            assert((row as int) * (width as int) <= ((height as int) - 1) * (width as int))
                by (nonlinear_arith)
                requires
                    0 <= row <= (height as int) - 1,
                    1 <= width,
            ;
        }
        let pos: usize = row * (width as usize) + col;
        let cell = in_buf[pos];
        proof {
            assert(pos as int == sample_pos(
                width as int,
                height as int,
                window_width as int,
                window_height as int,
                p as int,
            ));
        }
        proof {
            lemma_chan_max_ge(in_buf@, 0, pos as int);
            lemma_chan_max_ge(in_buf@, 1, pos as int);
            lemma_chan_max_ge(in_buf@, 2, pos as int);
            lemma_chan_max_bounds(in_buf@, 0);
            lemma_chan_max_bounds(in_buf@, 1);
            lemma_chan_max_bounds(in_buf@, 2);
        }
        let vr = gain(cell.r, mr);
        let vg = gain(cell.g, mg);
        let vb = gain(cell.b, mb);
        out_buf.set(3 * p, vr);
        out_buf.set(3 * p + 1, vg);
        out_buf.set(3 * p + 2, vb);
        proof {
            assert(cell.chan(0) == cell.r && cell.chan(1) == cell.g && cell.chan(2) == cell.b);
            assert forall|q: int, ch: int| 0 <= q < p + 1 && 0 <= ch < 3 implies #[trigger] out_buf@[3
                * q + ch] == gain_spec(
                in_buf@[sample_pos(
                    width as int,
                    height as int,
                    window_width as int,
                    window_height as int,
                    q,
                )].chan(ch) as int,
                chan_max(in_buf@, ch),
            ) by {
                if q == p {
                    assert(out_buf@[3 * q + ch] == if ch == 0 {
                        vr
                    } else if ch == 1 {
                        vg
                    } else {
                        vb
                    });
                }
            }
        }
        p = p + 1;
    }
}

/// The sampled cell index lies inside the grid, and the row/column products
/// stay small.
proof fn lemma_sample_pos_in_range(width: int, height: int, ww: int, wh: int, p: int)
    requires
        1 <= ww <= width <= DIM_MAX,
        1 <= wh <= height <= DIM_MAX,
        0 <= p < ww * wh,
        p / ww < wh,
    ensures
        0 <= sample_pos(width, height, ww, wh, p) < width * height,
        (p / ww) * (height / wh) < height,
        (p % ww) * (width / ww) < width,
        ((p / ww) * (height / wh)) * width + (p % ww) * (width / ww) < width * height,
        0 <= (p / ww) * (height / wh),
        0 <= (p % ww) * (width / ww),
        ((p / ww) * (height / wh)) * width <= (height - 1) * width,
{
    let oy = p / ww;
    let ox = p % ww;
    assert(0 <= oy <= wh - 1 && 0 <= ox <= ww - 1) by (nonlinear_arith)
        requires
            0 <= p < ww * wh,
            1 <= ww,
            1 <= wh,
            oy == p / ww,
            ox == p % ww,
            oy < wh,
    ;
    assert(oy * (height / wh) <= (wh - 1) * (height / wh) && (wh - 1) * (height / wh) < height
        && 0 <= oy * (height / wh)) by (nonlinear_arith)
        requires
            0 <= oy <= wh - 1,
            1 <= wh <= height,
    ;
    assert(ox * (width / ww) <= (ww - 1) * (width / ww) && (ww - 1) * (width / ww) < width && 0
        <= ox * (width / ww)) by (nonlinear_arith)
        requires
            0 <= ox <= ww - 1,
            1 <= ww <= width,
    ;
    assert((oy * (height / wh)) * width + ox * (width / ww) < width * height && (oy * (height
        / wh)) * width <= (height - 1) * width) by (nonlinear_arith)
        requires
            0 <= oy * (height / wh) < height,
            0 <= ox * (width / ww) < width,
            1 <= width,
            1 <= height,
    ;
}

} // verus!
