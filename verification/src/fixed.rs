//! Q24 fixed-point scalars: an `i64` value `v` stands for the real number
//! `v / SCALE`.  All operations truncate toward zero, and each executable
//! operation is pinned to an exact integer specification.

use vstd::prelude::*;

verus! {

/// Number of raw units per 1.0: 2^24.
pub const SCALE: i64 = 0x100_0000;

/// Largest magnitude accepted by `mul_q`; keeps the scaled product inside i64.
pub const QARG_MAX: i64 = 0x800_0000_0000;

/// Division of `a` by positive `b`, truncating toward zero (the rounding that
/// both Rust integer division and float-to-int conversion use).
pub open spec fn div_trunc(a: int, b: int) -> int {
    if a >= 0 {
        a / b
    } else {
        -((-a) / b)
    }
}

/// The Q24 product: trunc(a * b / SCALE).
pub open spec fn mul_q_spec(a: int, b: int) -> int {
    div_trunc(a * b, SCALE as int)
}

/// Quotient of a nonnegative dividend, through unsigned division.
pub fn div_nn(a: i64, b: i64) -> (r: i64)
    requires
        0 <= a,
        0 < b,
    ensures
        r == a as int / b as int,
{
    ((a as u64) / (b as u64)) as i64
}

/// Remainder of a nonnegative dividend, through unsigned arithmetic.
pub fn mod_nn(a: i64, b: i64) -> (r: i64)
    requires
        0 <= a,
        0 < b,
    ensures
        r == a as int % b as int,
{
    ((a as u64) % (b as u64)) as i64
}

/// Largest magnitude `div_scale` accepts: 2^86.
pub const DIV_ARG_MAX: i128 = 0x40_0000_0000_0000_0000_0000;

/// Scale a wide product back down by SCALE, truncating toward zero.
pub fn div_scale(p: i128) -> (r: i64)
    requires
        -DIV_ARG_MAX <= p <= DIV_ARG_MAX,
    ensures
        r == div_trunc(p as int, SCALE as int),
{
    if p >= 0 {
        let q: u128 = (p as u128) / (SCALE as u128);
        q as i64
    } else {
        let q: u128 = ((-p) as u128) / (SCALE as u128);
        -(q as i64)
    }
}

/// Magnitude bound for a truncating division by SCALE.
pub proof fn lemma_div_trunc_scale_bound(p: int, m: int)
    requires
        m >= 0,
        -m * SCALE <= p <= m * SCALE,
    ensures
        -m <= div_trunc(p, SCALE as int) <= m,
{
    if p >= 0 {
        assert(0 <= p / (SCALE as int) <= m) by (nonlinear_arith)
            requires
                0 <= p <= m * (SCALE as int),
                SCALE == 0x100_0000,
        ;
    } else {
        assert(0 <= (-p) / (SCALE as int) <= m) by (nonlinear_arith)
            requires
                0 <= -p <= m * (SCALE as int),
                SCALE == 0x100_0000,
        ;
    }
}

/// Fixed-point multiply, truncating toward zero.
pub fn mul_q(a: i64, b: i64) -> (r: i64)
    requires
        -QARG_MAX <= a <= QARG_MAX,
        -QARG_MAX <= b <= QARG_MAX,
    ensures
        r == mul_q_spec(a as int, b as int),
{
    assert(-(QARG_MAX as int) * (QARG_MAX as int) <= (a as int) * (b as int)
        <= (QARG_MAX as int) * (QARG_MAX as int)) by (nonlinear_arith)
        requires
            -QARG_MAX <= a <= QARG_MAX,
            -QARG_MAX <= b <= QARG_MAX,
    ;
    let p: i128 = (a as i128) * (b as i128);
    div_scale(p)
}

/// Floor of the square root, defined by counting up.
pub open spec fn sqrt_floor(n: nat) -> nat
    decreases n,
{
    if n == 0 {
        0
    } else {
        let r = sqrt_floor((n - 1) as nat);
        if (r + 1) * (r + 1) <= n {
            r + 1
        } else {
            r
        }
    }
}

pub proof fn lemma_sqrt_floor_bounds(n: nat)
    ensures
        sqrt_floor(n) * sqrt_floor(n) <= n,
        n < (sqrt_floor(n) + 1) * (sqrt_floor(n) + 1),
    decreases n,
{
    if n == 0 {
        assert(n < (sqrt_floor(n) + 1) * (sqrt_floor(n) + 1)) by (nonlinear_arith)
            requires
                n == 0,
                sqrt_floor(n) == 0,
        ;
    } else {
        lemma_sqrt_floor_bounds((n - 1) as nat);
        let r = sqrt_floor((n - 1) as nat);
        assert(sqrt_floor(n) == if (r + 1) * (r + 1) <= n { r + 1 } else { r });
        let s = sqrt_floor(n);
        if (r + 1) * (r + 1) <= n {
            assert(s == r + 1);
            assert(n < (s + 1) * (s + 1)) by (nonlinear_arith)
                requires
                    s == r + 1,
                    n - 1 < (r + 1) * (r + 1),
            ;
        } else {
            assert(s == r);
            assert(r * r <= n - 1);
            assert(n < (s + 1) * (s + 1));
        }
    }
}

pub proof fn lemma_sqrt_floor_unique(n: nat, r: nat)
    requires
        r * r <= n,
        n < (r + 1) * (r + 1),
    ensures
        r == sqrt_floor(n),
{
    lemma_sqrt_floor_bounds(n);
    let s = sqrt_floor(n);
    assert(r == s) by (nonlinear_arith)
        requires
            r * r <= n < (r + 1) * (r + 1),
            s * s <= n < (s + 1) * (s + 1),
            0 <= r,
            0 <= s,
    ;
}

pub proof fn lemma_sqrt_floor_monotone(m: nat, n: nat)
    requires
        m <= n,
    ensures
        sqrt_floor(m) <= sqrt_floor(n),
{
    lemma_sqrt_floor_bounds(m);
    lemma_sqrt_floor_bounds(n);
    let a = sqrt_floor(m);
    let b = sqrt_floor(n);
    assert(a <= b) by (nonlinear_arith)
        requires
            a * a <= m < (a + 1) * (a + 1),
            b * b <= n < (b + 1) * (b + 1),
            m <= n,
            0 <= a,
            0 <= b,
    ;
}

/// Floor of the square root of a 64-bit value, by binary search.
pub fn isqrt(n: u64) -> (r: u64)
    ensures
        r == sqrt_floor(n as nat),
{
    let mut lo: u64 = 0;
    let mut hi: u64 = 0x1_0000_0000;
    while hi - lo > 1
        invariant
            lo < hi <= 0x1_0000_0000,
            (lo as int) * (lo as int) <= n as int,
            (n as int) < (hi as int) * (hi as int),
        decreases hi - lo,
    {
        let mid = lo + (hi - lo) / 2;
        assert((mid as int) * (mid as int) < 0x1_0000_0000_0000_0000) by (nonlinear_arith)
            requires
                mid <= 0xffff_ffff,
        ;
        if mid * mid <= n {
            lo = mid;
        } else {
            hi = mid;
        }
    }
    proof {
        lemma_sqrt_floor_unique(n as nat, lo as nat);
    }
    lo
}

/// Floor square root in Q24: sqrt_q_spec(t)/SCALE approximates sqrt(t/SCALE).
pub open spec fn sqrt_q_spec(t: int) -> int {
    sqrt_floor((t * SCALE) as nat) as int
}

/// Q24 square root of a value in [0, 1].
pub fn sqrt_q(t: i64) -> (r: i64)
    requires
        0 <= t <= SCALE,
    ensures
        r == sqrt_q_spec(t as int),
        0 <= r <= SCALE,
{
    proof {
        assert((t as int) * (SCALE as int) <= 0x1_0000_0000_0000int) by (nonlinear_arith)
            requires
                0 <= t <= SCALE,
                SCALE == 0x100_0000,
        ;
    }
    let n: u64 = (t as u64) * (SCALE as u64);
    let r = isqrt(n);
    proof {
        assert((SCALE as nat) * (SCALE as nat) <= 0x1_0000_0000_0000nat
            < ((SCALE as nat) + 1) * ((SCALE as nat) + 1)) by (nonlinear_arith)
            requires
                SCALE == 0x100_0000,
        ;
        lemma_sqrt_floor_monotone(n as nat, 0x1_0000_0000_0000nat);
        lemma_sqrt_floor_unique(0x1_0000_0000_0000nat, SCALE as nat);
    }
    r as i64
}

/// One step of the square-root chain for x^(e/SCALE): `k` bits of the
/// exponent remain; the top remaining bit selects whether the current
/// root `t` enters the product `y`.
pub open spec fn pow_frac_rec(t: int, y: int, rem: int, k: nat) -> int
    decreases k,
{
    if k == 0 {
        y
    } else {
        let t2 = sqrt_q_spec(t);
        let b = rem / 0x80_0000;
        let y2 = if b == 1 {
            mul_q_spec(y, t2)
        } else {
            y
        };
        pow_frac_rec(t2, y2, (rem % 0x80_0000) * 2, (k - 1) as nat)
    }
}

/// x^(e/SCALE) in Q24, for x in [0, 1] and an exponent in [0, 1), computed
/// bit by bit as a product of iterated square roots of x.
pub open spec fn pow_frac_spec(x: int, e: int) -> int {
    pow_frac_rec(x, SCALE as int, e, 24)
}

pub proof fn lemma_mul_q_range(a: int, b: int)
    requires
        0 <= a <= SCALE,
        0 <= b <= SCALE,
    ensures
        0 <= mul_q_spec(a, b) <= a,
        mul_q_spec(a, b) <= SCALE,
{
    assert(0 <= a * b <= a * SCALE) by (nonlinear_arith)
        requires
            0 <= a,
            0 <= b <= SCALE,
    ;
    assert(0 <= (a * b) / (SCALE as int) <= (a * (SCALE as int)) / (SCALE as int))
        by (nonlinear_arith)
        requires
            0 <= a * b <= a * (SCALE as int),
            SCALE == 0x100_0000,
    ;
    assert((a * (SCALE as int)) / (SCALE as int) == a) by (nonlinear_arith)
        requires
            0 <= a,
            SCALE == 0x100_0000,
    ;
}

pub proof fn lemma_mul_q_monotone(a1: int, b1: int, a2: int, b2: int)
    requires
        0 <= a1 <= a2,
        0 <= b1 <= b2,
    ensures
        mul_q_spec(a1, b1) <= mul_q_spec(a2, b2),
{
    assert(0 <= a1 * b1 <= a2 * b2) by (nonlinear_arith)
        requires
            0 <= a1 <= a2,
            0 <= b1 <= b2,
    ;
    assert((a1 * b1) / (SCALE as int) <= (a2 * b2) / (SCALE as int)) by (nonlinear_arith)
        requires
            0 <= a1 * b1 <= a2 * b2,
            SCALE == 0x100_0000,
    ;
}

pub proof fn lemma_sqrt_q_spec_range(t: int)
    requires
        0 <= t <= SCALE,
    ensures
        0 <= sqrt_q_spec(t) <= SCALE,
{
    assert(0 <= t * SCALE <= 0x1_0000_0000_0000int) by (nonlinear_arith)
        requires
            0 <= t <= SCALE,
            SCALE == 0x100_0000,
    ;
    assert((SCALE as nat) * (SCALE as nat) <= 0x1_0000_0000_0000nat
        < ((SCALE as nat) + 1) * ((SCALE as nat) + 1)) by (nonlinear_arith)
        requires
            SCALE == 0x100_0000,
    ;
    lemma_sqrt_floor_monotone((t * SCALE) as nat, 0x1_0000_0000_0000nat);
    lemma_sqrt_floor_unique(0x1_0000_0000_0000nat, SCALE as nat);
}

pub proof fn lemma_sqrt_q_spec_monotone(t1: int, t2: int)
    requires
        0 <= t1 <= t2,
    ensures
        sqrt_q_spec(t1) <= sqrt_q_spec(t2),
{
    assert(0 <= t1 * SCALE <= t2 * SCALE) by (nonlinear_arith)
        requires
            0 <= t1 <= t2,
            SCALE == 0x100_0000,
    ;
    lemma_sqrt_floor_monotone((t1 * SCALE) as nat, (t2 * SCALE) as nat);
}

/// The square-root chain stays within [0, y]: every factor is at most 1.
pub proof fn lemma_pow_frac_rec_range(t: int, y: int, rem: int, k: nat)
    requires
        0 <= t <= SCALE,
        0 <= y <= SCALE,
        0 <= rem,
    ensures
        0 <= pow_frac_rec(t, y, rem, k) <= y,
    decreases k,
{
    if k == 0 {
    } else {
        let t2 = sqrt_q_spec(t);
        lemma_sqrt_q_spec_range(t);
        let b = rem / 0x80_0000;
        if b == 1 {
            lemma_mul_q_range(y, t2);
            lemma_pow_frac_rec_range(t2, mul_q_spec(y, t2), (rem % 0x80_0000) * 2, (k - 1) as nat);
        } else {
            lemma_pow_frac_rec_range(t2, y, (rem % 0x80_0000) * 2, (k - 1) as nat);
        }
    }
}

/// The square-root chain is monotone in the base and the accumulator.
pub proof fn lemma_pow_frac_rec_monotone(t1: int, y1: int, t2: int, y2: int, rem: int, k: nat)
    requires
        0 <= t1 <= t2 <= SCALE,
        0 <= y1 <= y2 <= SCALE,
        0 <= rem,
    ensures
        pow_frac_rec(t1, y1, rem, k) <= pow_frac_rec(t2, y2, rem, k),
    decreases k,
{
    if k == 0 {
    } else {
        let s1 = sqrt_q_spec(t1);
        let s2 = sqrt_q_spec(t2);
        lemma_sqrt_q_spec_range(t1);
        lemma_sqrt_q_spec_range(t2);
        lemma_sqrt_q_spec_monotone(t1, t2);
        let b = rem / 0x80_0000;
        if b == 1 {
            lemma_mul_q_range(y1, s1);
            lemma_mul_q_range(y2, s2);
            lemma_mul_q_monotone(y1, s1, y2, s2);
            lemma_pow_frac_rec_monotone(
                s1,
                mul_q_spec(y1, s1),
                s2,
                mul_q_spec(y2, s2),
                (rem % 0x80_0000) * 2,
                (k - 1) as nat,
            );
        } else {
            lemma_pow_frac_rec_monotone(s1, y1, s2, y2, (rem % 0x80_0000) * 2, (k - 1) as nat);
        }
    }
}

/// Monotonicity of x^(e/SCALE) in x on [0, 1].
pub proof fn lemma_pow_frac_monotone(x1: int, x2: int, e: int)
    requires
        0 <= x1 <= x2 <= SCALE,
        0 <= e,
    ensures
        pow_frac_spec(x1, e) <= pow_frac_spec(x2, e),
{
    lemma_pow_frac_rec_monotone(x1, SCALE as int, x2, SCALE as int, e, 24);
}

pub proof fn lemma_pow_frac_range(x: int, e: int)
    requires
        0 <= x <= SCALE,
        0 <= e,
    ensures
        0 <= pow_frac_spec(x, e) <= SCALE,
{
    lemma_pow_frac_rec_range(x, SCALE as int, e, 24);
}

/// 2^k, for bookkeeping of how many exponent bits remain.
pub open spec fn pow2k(k: nat) -> int
    decreases k,
{
    if k == 0 {
        1
    } else {
        2 * pow2k((k - 1) as nat)
    }
}

/// A zero base zeroes the accumulator as soon as a set exponent bit is
/// consumed; the bound `SCALE <= rem * 2^k` says a set bit lies within the
/// remaining k steps.
pub proof fn lemma_pow_frac_rec_zero(y: int, rem: int, k: nat)
    requires
        0 <= y <= SCALE,
        0 <= rem < SCALE,
        SCALE <= rem * pow2k(k),
    ensures
        pow_frac_rec(0, y, rem, k) == 0,
    decreases k,
{
    if k == 0 {
        assert(false);
    } else {
        assert(sqrt_q_spec(0) == 0) by {
            assert(sqrt_floor(0nat) == 0);
        }
        let b = rem / 0x80_0000;
        assert(0 <= b <= 1);
        if b == 1 {
            assert(mul_q_spec(y, 0) == 0);
            lemma_pow_frac_rec_range(0, 0, (rem % 0x80_0000) * 2, (k - 1) as nat);
        } else {
            assert(rem < 0x80_0000);
            assert(rem % 0x80_0000 == rem);
            assert(rem * pow2k(k) == (rem * 2) * pow2k((k - 1) as nat)) by (nonlinear_arith)
                requires
                    pow2k(k) == 2 * pow2k((k - 1) as nat),
            ;
            assert(rem > 0);
            lemma_pow_frac_rec_zero(y, rem * 2, (k - 1) as nat);
        }
    }
}

/// Zero raised to any nonzero fractional exponent is zero.
pub proof fn lemma_pow_frac_zero(e: int)
    requires
        0 < e < SCALE,
    ensures
        pow_frac_spec(0, e) == 0,
{
    assert(pow2k(24) == 0x100_0000) by {
        reveal_with_fuel(pow2k, 25);
    }
    assert(SCALE <= e * pow2k(24)) by (nonlinear_arith)
        requires
            1 <= e,
            pow2k(24) == 0x100_0000,
            SCALE == 0x100_0000,
    ;
    lemma_pow_frac_rec_zero(SCALE as int, e, 24);
}

pub fn pow_frac(x: i64, e: i64) -> (r: i64)
    requires
        0 <= x <= SCALE,
        0 <= e < SCALE,
    ensures
        r == pow_frac_spec(x as int, e as int),
        0 <= r <= SCALE,
{
    let mut t = x;
    let mut y = SCALE;
    let mut rem = e;
    let mut k: u32 = 24;
    while k > 0
        invariant
            0 <= t <= SCALE,
            0 <= y <= SCALE,
            0 <= rem < SCALE,
            k <= 24,
            pow_frac_rec(t as int, y as int, rem as int, k as nat) == pow_frac_spec(
                x as int,
                e as int,
            ),
        decreases k,
    {
        t = sqrt_q(t);
        let b = div_nn(rem, 0x80_0000);
        if b == 1 {
            assert(0 <= (y as int) * (t as int) <= (SCALE as int) * (SCALE as int))
                by (nonlinear_arith)
                requires
                    0 <= y <= SCALE,
                    0 <= t <= SCALE,
            ;
            y = mul_q(y, t);
        }
        rem = mod_nn(rem, 0x80_0000) * 2;
        k = k - 1;
    }
    y
}

} // verus!
