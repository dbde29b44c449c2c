//! Q24 cosine and sine for the mutation kernel's polar step, by quadrant
//! reduction and a fixed-degree Taylor polynomial on [0, pi/2].

use vstd::prelude::*;
use crate::fixed::{SCALE, div_nn, mod_nn};

verus! {

/// 2*pi and pi/2 in Q24 (rounded toward zero).
pub const TWO_PI_Q: i64 = 105414357;

pub const HALF_PI_Q: i64 = 26353589;

/// Bound on the polynomial values: 3.0 in Q24.
pub const TRIG_BOUND: i64 = 0x300_0000;

/// Taylor cosine on [0, pi/2]:
/// 1 - x^2/2 + x^4/24 - x^6/720 + x^8/40320, each power in Q24.
pub open spec fn cos_t_spec(x: int) -> int {
    let s = SCALE as int;
    let t2 = (x * x) / s;
    let t4 = (t2 * t2) / s;
    let t6 = (t4 * t2) / s;
    let t8 = (t4 * t4) / s;
    s - t2 / 2 + t4 / 24 - t6 / 720 + t8 / 40320
}

/// Taylor sine on [0, pi/2]:
/// x - x^3/6 + x^5/120 - x^7/5040 + x^9/362880, each power in Q24.
pub open spec fn sin_t_spec(x: int) -> int {
    let s = SCALE as int;
    let t2 = (x * x) / s;
    let t3 = (t2 * x) / s;
    let t4 = (t2 * t2) / s;
    let t5 = (t4 * x) / s;
    let t6 = (t4 * t2) / s;
    let t7 = (t6 * x) / s;
    let t8 = (t4 * t4) / s;
    let t9 = (t8 * x) / s;
    x - t3 / 6 + t5 / 120 - t7 / 5040 + t9 / 362880
}

/// (cos, sin) of an angle in [0, 2*pi), by quadrant.
pub open spec fn cos_sin_spec(theta: int) -> (int, int) {
    let q = theta / (HALF_PI_Q as int);
    let x = theta % (HALF_PI_Q as int);
    if q == 0 || q == 4 {
        (cos_t_spec(x), sin_t_spec(x))
    } else if q == 1 {
        (-sin_t_spec(x), cos_t_spec(x))
    } else if q == 2 {
        (-cos_t_spec(x), -sin_t_spec(x))
    } else {
        (sin_t_spec(x), -cos_t_spec(x))
    }
}

/// Bounds for all the Q24 Taylor powers of an argument in [0, 2].
proof fn lemma_powers_bounded(x: int)
    requires
        0 <= x <= 0x200_0000,
    ensures
        0 <= x * x <= 0x4_0000_0000_0000,
        0 <= (x * x) / (SCALE as int) <= 0x400_0000,
{
    assert(0 <= x * x <= 0x4_0000_0000_0000) by (nonlinear_arith)
        requires
            0 <= x <= 0x200_0000,
    ;
    assert(0 <= (x * x) / (SCALE as int) <= 0x400_0000) by (nonlinear_arith)
        requires
            0 <= x * x <= 0x4_0000_0000_0000,
            SCALE == 0x100_0000,
    ;
}

/// A product of two bounded nonnegative Q24 values, scaled back down.
proof fn lemma_prod_div_bound(a: int, b: int, ba: int, bb: int)
    requires
        0 <= a <= ba,
        0 <= b <= bb,
        0 <= ba,
        0 <= bb,
    ensures
        0 <= a * b <= ba * bb,
        0 <= (a * b) / (SCALE as int) <= (ba * bb) / (SCALE as int),
{
    assert(0 <= a * b <= ba * bb) by (nonlinear_arith)
        requires
            0 <= a <= ba,
            0 <= b <= bb,
    ;
    assert(0 <= (a * b) / (SCALE as int) <= (ba * bb) / (SCALE as int)) by (nonlinear_arith)
        requires
            0 <= a * b <= ba * bb,
            SCALE == 0x100_0000,
    ;
}

/// (a * b) / SCALE for nonnegative a, b with a product inside i64.
fn div_nn_prod(a: i64, b: i64) -> (r: i64)
    requires
        0 <= a,
        0 <= b,
        (a as int) * (b as int) <= 0x7fff_ffff_ffff_ffff,
    ensures
        r == ((a as int) * (b as int)) / (SCALE as int),
        0 <= r,
{
    ((((a as u64) * (b as u64)) / (SCALE as u64))) as i64
}

/// Executable Taylor cosine.
fn cos_t(x: i64) -> (r: i64)
    requires
        0 <= x <= HALF_PI_Q,
    ensures
        r == cos_t_spec(x as int),
        -TRIG_BOUND <= r <= TRIG_BOUND,
{
    proof {
        lemma_powers_bounded(x as int);
    }
    let t2: i64 = div_nn_prod(x, x);
    proof {
        lemma_prod_div_bound(t2 as int, t2 as int, 0x400_0000, 0x400_0000);
        assert((0x400_0000int * 0x400_0000) / (SCALE as int) == 0x1000_0000);
    }
    let t4: i64 = div_nn_prod(t2, t2);
    proof {
        lemma_prod_div_bound(t4 as int, t2 as int, 0x1000_0000, 0x400_0000);
        assert((0x1000_0000int * 0x400_0000) / (SCALE as int) == 0x4000_0000);
        lemma_prod_div_bound(t4 as int, t4 as int, 0x1000_0000, 0x1000_0000);
        assert((0x1000_0000int * 0x1000_0000) / (SCALE as int) == 0x1_0000_0000);
    }
    let t6: i64 = div_nn_prod(t4, t2);
    let t8: i64 = div_nn_prod(t4, t4);
    SCALE - div_nn(t2, 2) + div_nn(t4, 24) - div_nn(t6, 720) + div_nn(t8, 40320)
}

/// Executable Taylor sine.
fn sin_t(x: i64) -> (r: i64)
    requires
        0 <= x <= HALF_PI_Q,
    ensures
        r == sin_t_spec(x as int),
        -TRIG_BOUND <= r <= TRIG_BOUND,
{
    proof {
        lemma_powers_bounded(x as int);
    }
    let t2: i64 = div_nn_prod(x, x);
    proof {
        lemma_prod_div_bound(t2 as int, x as int, 0x400_0000, 0x200_0000);
        assert((0x400_0000int * 0x200_0000) / (SCALE as int) == 0x800_0000);
        lemma_prod_div_bound(t2 as int, t2 as int, 0x400_0000, 0x400_0000);
        assert((0x400_0000int * 0x400_0000) / (SCALE as int) == 0x1000_0000);
    }
    let t3: i64 = div_nn_prod(t2, x);
    let t4: i64 = div_nn_prod(t2, t2);
    proof {
        lemma_prod_div_bound(t4 as int, x as int, 0x1000_0000, 0x200_0000);
        assert((0x1000_0000int * 0x200_0000) / (SCALE as int) == 0x2000_0000);
        lemma_prod_div_bound(t4 as int, t2 as int, 0x1000_0000, 0x400_0000);
        assert((0x1000_0000int * 0x400_0000) / (SCALE as int) == 0x4000_0000);
    }
    let t5: i64 = div_nn_prod(t4, x);
    let t6: i64 = div_nn_prod(t4, t2);
    proof {
        lemma_prod_div_bound(t6 as int, x as int, 0x4000_0000, 0x200_0000);
        assert((0x4000_0000int * 0x200_0000) / (SCALE as int) == 0x8000_0000);
        lemma_prod_div_bound(t4 as int, t4 as int, 0x1000_0000, 0x1000_0000);
        assert((0x1000_0000int * 0x1000_0000) / (SCALE as int) == 0x1_0000_0000);
    }
    let t7: i64 = div_nn_prod(t6, x);
    let t8: i64 = div_nn_prod(t4, t4);
    proof {
        lemma_prod_div_bound(t8 as int, x as int, 0x1_0000_0000, 0x200_0000);
        assert((0x1_0000_0000int * 0x200_0000) / (SCALE as int) == 0x2_0000_0000);
    }
    let t9: i64 = div_nn_prod(t8, x);
    x - div_nn(t3, 6) + div_nn(t5, 120) - div_nn(t7, 5040) + div_nn(t9, 362880)
}

/// Executable (cos, sin) of an angle in [0, 2*pi).
pub fn cos_sin(theta: i64) -> (cs: (i64, i64))
    requires
        0 <= theta < TWO_PI_Q,
    ensures
        cs.0 == cos_sin_spec(theta as int).0,
        cs.1 == cos_sin_spec(theta as int).1,
        -TRIG_BOUND <= cs.0 <= TRIG_BOUND,
        -TRIG_BOUND <= cs.1 <= TRIG_BOUND,
{
    let q: i64 = div_nn(theta, HALF_PI_Q);
    let x: i64 = mod_nn(theta, HALF_PI_Q);
    let c = cos_t(x);
    let s = sin_t(x);
    if q == 0 || q == 4 {
        (c, s)
    } else if q == 1 {
        (-s, c)
    } else if q == 2 {
        (-c, -s)
    } else {
        (s, -c)
    }
}

} // verus!
