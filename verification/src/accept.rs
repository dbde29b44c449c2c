//! The Metropolis-Hastings acceptance probability, corrected for the bias of
//! variable-length-orbit sampling.

use vstd::prelude::*;
use crate::fixed::SCALE;

verus! {

/// Largest per-channel iteration cap the sampler accepts.
pub const LIMIT_MAX: u32 = 0x10_0000;

/// The acceptance ratio.  With transition probability
/// T(len, from, to) = (1 - (len - |from|)/len) / (1 - (len - |to|)/len)
///                  = |from| / |to|
/// and contributions stored as exact fractions count/limit, the ratio
/// min(1, (cur_contrib * T(prop->cur)) / (prop_contrib * T(cur->prop)))
/// reduces to the exact rational
/// (cur_count * prop_limit * prop_len^2) / (prop_count * cur_limit * cur_len^2),
/// computed here in Q24 with one final truncation.
pub open spec fn alpha_spec(
    cur_count: int,
    cur_limit: int,
    cur_len: int,
    prop_count: int,
    prop_limit: int,
    prop_len: int,
) -> int {
    let num = cur_count * prop_limit * (prop_len * prop_len) * (SCALE as int);
    let den = prop_count * cur_limit * (cur_len * cur_len);
    if num / den > SCALE {
        SCALE as int
    } else {
        num / den
    }
}

/// Compute the acceptance probability in Q24 ([0, SCALE] standing for
/// [0, 1]).  Equal-length orbits with equal contributions give exactly
/// SCALE: such a proposal is always accepted.
pub fn accept_prob(
    cur_count: u32,
    cur_limit: u32,
    cur_len: u32,
    prop_count: u32,
    prop_limit: u32,
    prop_len: u32,
) -> (alpha: i64)
    requires
        cur_count <= LIMIT_MAX,
        1 <= cur_limit <= LIMIT_MAX,
        1 <= cur_len <= LIMIT_MAX,
        1 <= prop_count <= LIMIT_MAX,
        1 <= prop_limit <= LIMIT_MAX,
        1 <= prop_len <= LIMIT_MAX,
    ensures
        alpha == alpha_spec(
            cur_count as int,
            cur_limit as int,
            cur_len as int,
            prop_count as int,
            prop_limit as int,
            prop_len as int,
        ),
        0 <= alpha <= SCALE,
        (cur_count == prop_count && cur_limit == prop_limit && cur_len == prop_len) ==> alpha
            == SCALE,
{
    let m = LIMIT_MAX as u128;
    proof {
        assert((cur_count as int) * (prop_limit as int) <= (m as int) * (m as int)
            && (cur_count as int) * (prop_limit as int) >= 0) by (nonlinear_arith)
            requires
                0 <= cur_count <= m,
                0 <= prop_limit <= m,
        ;
        assert((prop_len as int) * (prop_len as int) <= (m as int) * (m as int)
            && (prop_len as int) * (prop_len as int) >= 1) by (nonlinear_arith)
            requires
                1 <= prop_len <= m,
        ;
        assert((cur_len as int) * (cur_len as int) <= (m as int) * (m as int)
            && (cur_len as int) * (cur_len as int) >= 1) by (nonlinear_arith)
            requires
                1 <= cur_len <= m,
        ;
        assert((cur_count as int) * (prop_limit as int) * ((prop_len as int) * (
        prop_len as int)) <= ((m as int) * (m as int)) * ((m as int) * (m as int))
            && (cur_count as int) * (prop_limit as int) * ((prop_len as int) * (prop_len as int))
            >= 0) by (nonlinear_arith)
            requires
                0 <= (cur_count as int) * (prop_limit as int) <= (m as int) * (m as int),
                1 <= (prop_len as int) * (prop_len as int) <= (m as int) * (m as int),
        ;
        assert((prop_count as int) * (cur_limit as int) <= (m as int) * (m as int)
            && (prop_count as int) * (cur_limit as int) >= 1) by (nonlinear_arith)
            requires
                1 <= prop_count <= m,
                1 <= cur_limit <= m,
        ;
        assert((prop_count as int) * (cur_limit as int) * ((cur_len as int) * (cur_len as int))
            <= ((m as int) * (m as int)) * ((m as int) * (m as int)) && (prop_count as int) * (
        cur_limit as int) * ((cur_len as int) * (cur_len as int)) >= 1) by (nonlinear_arith)
            requires
                1 <= (prop_count as int) * (cur_limit as int) <= (m as int) * (m as int),
                1 <= (cur_len as int) * (cur_len as int) <= (m as int) * (m as int),
        ;
        assert((cur_count as int) * (prop_limit as int) * ((prop_len as int) * (
        prop_len as int)) * (SCALE as int) <= 0x100_0000_0000_0000_0000_0000_0000
            && (cur_count as int) * (prop_limit as int) * ((prop_len as int) * (prop_len as int))
            * (SCALE as int) >= 0) by (nonlinear_arith)
            requires
                0 <= (cur_count as int) * (prop_limit as int) * ((prop_len as int) * (
                prop_len as int)) <= ((m as int) * (m as int)) * ((m as int) * (m as int)),
                m == 0x10_0000,
                SCALE == 0x100_0000,
        ;
    }
    let num: u128 = (cur_count as u128) * (prop_limit as u128) * ((prop_len as u128) * (
    prop_len as u128)) * (SCALE as u128);
    let den: u128 = (prop_count as u128) * (cur_limit as u128) * ((cur_len as u128) * (
    cur_len as u128));
    let q: u128 = num / den;
    proof {
        if cur_count == prop_count && cur_limit == prop_limit && cur_len == prop_len {
            assert((den as int) * (SCALE as int) / (den as int) == SCALE) by (nonlinear_arith)
                requires
                    den >= 1,
                    SCALE == 0x100_0000,
            ;
        }
    }
    if q > SCALE as u128 {
        SCALE
    } else {
        q as i64
    }
}

} // verus!
