//! The mutation kernel: propose a new candidate seed from the current chain
//! state.  One draw in five takes a fresh seed from the whole sampling
//! domain (global exploration); otherwise a local polar step is taken whose
//! radius is log-uniform between 0.0001/zoom and 0.1/zoom.

use vstd::prelude::*;
use crate::complex::{Complex, CMAX};
use crate::draws::{DrawStream, stream_next, rand_complex, rand_complex_spec};
use crate::fixed::{SCALE, mul_q, mul_q_spec, div_nn, pow_frac, pow_frac_spec};
use crate::trig::{cos_sin, cos_sin_spec, TWO_PI_Q, TRIG_BOUND};
use crate::buffer::{ZOOM_MIN, ZOOM_MAX};

verus! {

/// 0.1 in Q48: the numerator of the large mutation radius 0.1/zoom.
pub const R2_NUM: i64 = 28147497671065;

/// 0.001 in Q24: the ratio r1/r2 of the smallest to the largest radius.
pub const MILLI_Q: i64 = 16777;

/// Bound on the radius 0.1/zoom at the smallest zoom.
pub const RAD_MAX: i64 = 0x7000_0000;

/// Clamp a component into the sampler's working range.
pub open spec fn clamp_comp_spec(v: int) -> i64 {
    if v < -CMAX {
        (-CMAX) as i64
    } else if v > CMAX {
        CMAX as i64
    } else {
        v as i64
    }
}

/// The local move: from the angle draw `ua` and the radius draw `ur`,
///   theta  = ua mod 2*pi,
///   radius = (0.1/zoom) * 0.001^u  with u = ur mod 1  (log-uniform),
///   result = current + radius * (cos theta, sin theta),
/// in Q24, the result clamped into the working range.
pub open spec fn small_move_spec(current: Complex, zoom: int, ua: u64, ur: u64) -> Complex {
    let theta = (ua as int) % (TWO_PI_Q as int);
    let uq = (ur as int) % (SCALE as int);
    let r2 = (R2_NUM as int) / zoom;
    let factor = pow_frac_spec(MILLI_Q as int, uq);
    let rad = mul_q_spec(r2, factor);
    let cs = cos_sin_spec(theta);
    Complex {
        r: clamp_comp_spec(current.r + mul_q_spec(rad, cs.0)),
        i: clamp_comp_spec(current.i + mul_q_spec(rad, cs.1)),
    }
}

/// What `mutate` returns and consumes: one draw chooses between the global
/// move (one draw in five) and the local move (two more draws).
pub open spec fn mutate_spec(s: DrawStream, current: Complex, zoom: int) -> (
    Option<Complex>,
    DrawStream,
) {
    let (o1, s1) = stream_next(s);
    match o1 {
        None => (None, s1),
        Some(u) => {
            if u % 5 == 0 {
                rand_complex_spec(s1)
            } else {
                let (oa, s2) = stream_next(s1);
                match oa {
                    None => (None, s2),
                    Some(ua) => {
                        let (orr, s3) = stream_next(s2);
                        match orr {
                            None => (None, s3),
                            Some(ur) => (Some(small_move_spec(current, zoom, ua, ur)), s3),
                        }
                    },
                }
            }
        },
    }
}

pub(crate) fn clamp_comp(v: i64) -> (r: i64)
    ensures
        r == clamp_comp_spec(v as int),
        -CMAX <= r <= CMAX,
{
    if v < -CMAX {
        -CMAX
    } else if v > CMAX {
        CMAX
    } else {
        v
    }
}

/// Propose a candidate seed.  None only when a scripted stream runs dry.
pub fn mutate(current: Complex, zoom: i64, rng: &mut DrawStream) -> (res: Option<Complex>)
    requires
        current.bounded(CMAX),
        ZOOM_MIN <= zoom <= ZOOM_MAX,
    ensures
        old(rng).is_fixed() ==> (res, *final(rng)) == mutate_spec(
            *old(rng),
            current,
            zoom as int,
        ),
        old(rng).is_fixed() ==> final(rng).is_fixed(),
        (!old(rng).is_fixed() ==> (*final(rng)) is Live),
        (res matches Some(c) ==> c.bounded(CMAX)),
{
    match rng.next() {
        None => None,
        Some(u) => {
            if u % 5 == 0 {
                rand_complex(rng)
            } else {
                match rng.next() {
                    None => None,
                    Some(ua) => {
                        match rng.next() {
                            None => None,
                            Some(ur) => {
                                let theta: i64 = (ua % (TWO_PI_Q as u64)) as i64;
                                let uq: i64 = (ur % (SCALE as u64)) as i64;
                                let r2: i64 = div_nn(R2_NUM, zoom);
                                proof {
                                    assert(0 <= (R2_NUM as int) / (zoom as int) <= RAD_MAX)
                                        by (nonlinear_arith)
                                        requires
                                            0x4000 <= zoom,
                                            R2_NUM == 28147497671065,
                                            RAD_MAX == 0x7000_0000,
                                    ;
                                }
                                let factor: i64 = pow_frac(MILLI_Q, uq);
                                proof {
                                    assert(0 <= (r2 as int) * (factor as int) <= (RAD_MAX as int)
                                        * (SCALE as int)) by (nonlinear_arith)
                                        requires
                                            0 <= r2 <= RAD_MAX,
                                            0 <= factor <= SCALE,
                                    ;
                                    assert(0 <= ((r2 as int) * (factor as int)) / (SCALE as int)
                                        <= RAD_MAX) by (nonlinear_arith)
                                        requires
                                            0 <= (r2 as int) * (factor as int) <= (RAD_MAX as int)
                                                * (SCALE as int),
                                            SCALE == 0x100_0000,
                                            RAD_MAX == 0x7000_0000,
                                    ;
                                }
                                let rad: i64 = mul_q(r2, factor);
                                let cs = cos_sin(theta);
                                proof {
                                    assert(-(RAD_MAX as int) * (TRIG_BOUND as int) <= (rad as int)
                                        * (cs.0 as int) <= (RAD_MAX as int) * (TRIG_BOUND as int))
                                        by (nonlinear_arith)
                                        requires
                                            0 <= rad <= RAD_MAX,
                                            -TRIG_BOUND <= cs.0 <= TRIG_BOUND,
                                    ;
                                    assert(-(RAD_MAX as int) * (TRIG_BOUND as int) <= (rad as int)
                                        * (cs.1 as int) <= (RAD_MAX as int) * (TRIG_BOUND as int))
                                        by (nonlinear_arith)
                                        requires
                                            0 <= rad <= RAD_MAX,
                                            -TRIG_BOUND <= cs.1 <= TRIG_BOUND,
                                    ;
                                    assert((RAD_MAX as int) * (TRIG_BOUND as int)
                                        == 0x1_5000_0000int * 0x100_0000);
                                    crate::fixed::lemma_div_trunc_scale_bound(
                                        (rad as int) * (cs.0 as int),
                                        0x1_5000_0000int,
                                    );
                                    crate::fixed::lemma_div_trunc_scale_bound(
                                        (rad as int) * (cs.1 as int),
                                        0x1_5000_0000int,
                                    );
                                }
                                let dx: i64 = mul_q(rad, cs.0);
                                let dy: i64 = mul_q(rad, cs.1);
                                let cr: i64 = clamp_comp(current.r + dx);
                                let ci: i64 = clamp_comp(current.i + dy);
                                Some(Complex { r: cr, i: ci })
                            },
                        }
                    },
                }
            }
        },
    }
}

} // verus!
