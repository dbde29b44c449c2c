//! Complex numbers over Q24 fixed-point coordinates, with the escape test of
//! the quadratic map (bailout radius 2, i.e. squared norm 4).

use vstd::prelude::*;
use crate::fixed::{SCALE, QARG_MAX, div_trunc, mul_q_spec, mul_q, div_scale};

verus! {

/// Bound on the components of any value the sampler hands around: 1024.0.
pub const CMAX: i64 = 0x4_0000_0000;

/// Components small enough for the multiply routines.
pub const COMP_MAX: i64 = 0x100_0000_0000;

/// Components small enough for exact sums and squared norms.
pub const ADD_MAX: i64 = 0x2000_0000_0000_0000;

/// A complex number; each component is a Q24 fixed-point value.
#[derive(Clone, Copy, PartialEq, Eq, Structural, Debug)]
pub struct Complex {
    pub r: i64,
    pub i: i64,
}

/// The exact complex sum of integer pairs.
pub open spec fn cadd_exact(a: (int, int), b: (int, int)) -> (int, int) {
    (a.0 + b.0, a.1 + b.1)
}

/// The exact complex product of integer pairs.
pub open spec fn cmul_exact(a: (int, int), b: (int, int)) -> (int, int) {
    (a.0 * b.0 - a.1 * b.1, a.0 * b.1 + a.1 * b.0)
}

impl Complex {
    pub open spec fn view_pair(self) -> (int, int) {
        (self.r as int, self.i as int)
    }

    /// Squared norm in raw units squared (scale SCALE * SCALE), exact.
    pub open spec fn norm2_spec(self) -> int {
        self.r * self.r + self.i * self.i
    }

    /// Escape test: squared norm strictly above 4.
    pub open spec fn escaped_spec(self) -> bool {
        self.norm2_spec() > 4 * (SCALE as int) * (SCALE as int)
    }

    pub open spec fn bounded(self, m: i64) -> bool {
        -m <= self.r <= m && -m <= self.i <= m
    }

    pub fn from_parts(r: i64, i: i64) -> (c: Complex)
        ensures
            c.r == r,
            c.i == i,
    {
        Complex { r, i }
    }

    pub fn zero() -> (c: Complex)
        ensures
            c.r == 0,
            c.i == 0,
    {
        Complex { r: 0, i: 0 }
    }

    /// Exact squared norm, in raw units squared.
    pub fn norm2_raw(&self) -> (n: i128)
        requires
            self.bounded(ADD_MAX),
        ensures
            n == self.norm2_spec(),
            n >= 0,
    {
        proof {
            assert(0 <= (self.r as int) * (self.r as int)
                <= (ADD_MAX as int) * (ADD_MAX as int)) by (nonlinear_arith)
                requires
                    -ADD_MAX <= self.r <= ADD_MAX,
            ;
            assert(0 <= (self.i as int) * (self.i as int)
                <= (ADD_MAX as int) * (ADD_MAX as int)) by (nonlinear_arith)
                requires
                    -ADD_MAX <= self.i <= ADD_MAX,
            ;
        }
        let rr: i128 = (self.r as i128) * (self.r as i128);
        let ii: i128 = (self.i as i128) * (self.i as i128);
        rr + ii
    }

    /// Squared norm in Q24 (truncated); kept as the public reading of the
    /// norm, while the escape test compares exactly.
    pub fn norm2(&self) -> (n: i64)
        requires
            self.bounded(CMAX),
        ensures
            n == self.norm2_spec() / (SCALE as int),
    {
        let raw = self.norm2_raw();
        proof {
            assert((self.r as int) * (self.r as int) + (self.i as int) * (self.i as int)
                <= 2 * (CMAX as int) * (CMAX as int)) by (nonlinear_arith)
                requires
                    -CMAX <= self.r <= CMAX,
                    -CMAX <= self.i <= CMAX,
            ;
        }
        let q: u128 = (raw as u128) / (SCALE as u128);
        q as i64
    }

    /// True iff the squared norm strictly exceeds 4; a squared norm of
    /// exactly 4 is not escaped.
    pub fn escaped(&self) -> (b: bool)
        requires
            self.bounded(ADD_MAX),
        ensures
            b == self.escaped_spec(),
    {
        self.norm2_raw() > 0x4_0000_0000_0000i128
    }

    /// Exact component-wise sum.
    pub fn plus(self, other: Complex) -> (c: Complex)
        requires
            self.bounded(ADD_MAX),
            other.bounded(ADD_MAX),
        ensures
            (c.r as int, c.i as int) == cadd_exact(self.view_pair(), other.view_pair()),
            c.r == self.r + other.r,
            c.i == self.i + other.i,
    {
        Complex { r: self.r + other.r, i: self.i + other.i }
    }

    /// Exact component-wise difference.
    pub fn minus(self, other: Complex) -> (c: Complex)
        requires
            self.bounded(ADD_MAX),
            other.bounded(ADD_MAX),
        ensures
            c.r == self.r - other.r,
            c.i == self.i - other.i,
    {
        Complex { r: self.r - other.r, i: self.i - other.i }
    }

    /// Q24 complex product: the exact integer product of each component,
    /// scaled back down with one final truncation.
    pub fn times(self, other: Complex) -> (c: Complex)
        requires
            self.bounded(COMP_MAX),
            other.bounded(COMP_MAX),
        ensures
            c.r == div_trunc(cmul_exact(self.view_pair(), other.view_pair()).0, SCALE as int),
            c.i == div_trunc(cmul_exact(self.view_pair(), other.view_pair()).1, SCALE as int),
    {
        proof {
            let m = COMP_MAX as int;
            assert(-m * m <= (self.r as int) * (other.r as int) <= m * m) by (nonlinear_arith)
                requires
                    -m <= self.r <= m,
                    -m <= other.r <= m,
            ;
            assert(-m * m <= (self.i as int) * (other.i as int) <= m * m) by (nonlinear_arith)
                requires
                    -m <= self.i <= m,
                    -m <= other.i <= m,
            ;
            assert(-m * m <= (self.r as int) * (other.i as int) <= m * m) by (nonlinear_arith)
                requires
                    -m <= self.r <= m,
                    -m <= other.i <= m,
            ;
            assert(-m * m <= (self.i as int) * (other.r as int) <= m * m) by (nonlinear_arith)
                requires
                    -m <= self.i <= m,
                    -m <= other.r <= m,
            ;
        }
        let pr: i128 = (self.r as i128) * (other.r as i128) - (self.i as i128) * (other.i as i128);
        let pi: i128 = (self.r as i128) * (other.i as i128) + (self.i as i128) * (other.r as i128);
        Complex { r: div_scale(pr), i: div_scale(pi) }
    }

    /// Scale by a Q24 scalar, each component truncating toward zero.
    pub fn scale_by(self, s: i64) -> (c: Complex)
        requires
            self.bounded(QARG_MAX),
            -QARG_MAX <= s <= QARG_MAX,
        ensures
            c.r == mul_q_spec(self.r as int, s as int),
            c.i == mul_q_spec(self.i as int, s as int),
    {
        Complex { r: mul_q(self.r, s), i: mul_q(self.i, s) }
    }
}

impl Default for Complex {
    /// The zero value, as the original seed of every chain.
    fn default() -> (c: Complex)
        ensures
            c.r == 0,
            c.i == 0,
    {
        Complex { r: 0, i: 0 }
    }
}

/// The escape test is false exactly when the squared norm is at most 4:
/// the boundary itself has not escaped.
pub proof fn lemma_escape_boundary(c: Complex)
    ensures
        !c.escaped_spec() <==> c.norm2_spec() <= 4 * (SCALE as int) * (SCALE as int),
{
}

/// Addition of complex numbers is commutative.
pub proof fn lemma_cadd_comm(a: (int, int), b: (int, int))
    ensures
        cadd_exact(a, b) == cadd_exact(b, a),
{
}

/// Addition of complex numbers is associative.
pub proof fn lemma_cadd_assoc(a: (int, int), b: (int, int), c: (int, int))
    ensures
        cadd_exact(cadd_exact(a, b), c) == cadd_exact(a, cadd_exact(b, c)),
{
}

/// Multiplication of complex numbers is commutative; because the two cross
/// products are symmetric, the Q24 `times` inherits this exactly.
pub proof fn lemma_cmul_comm(a: (int, int), b: (int, int))
    ensures
        cmul_exact(a, b) == cmul_exact(b, a),
{
    assert(a.0 * b.0 - a.1 * b.1 == b.0 * a.0 - b.1 * a.1) by (nonlinear_arith);
    assert(a.0 * b.1 + a.1 * b.0 == b.0 * a.1 + b.1 * a.0) by (nonlinear_arith);
}

/// Multiplication of complex numbers is associative (of the exact integer
/// products; the Q24 operation truncates each result once).
pub proof fn lemma_cmul_assoc(a: (int, int), b: (int, int), c: (int, int))
    ensures
        cmul_exact(cmul_exact(a, b), c) == cmul_exact(a, cmul_exact(b, c)),
{
    let (a0, a1) = a;
    let (b0, b1) = b;
    let (c0, c1) = c;
    assert((a0 * b0 - a1 * b1) * c0 == (a0 * b0) * c0 - (a1 * b1) * c0) by (nonlinear_arith);
    assert((a0 * b1 + a1 * b0) * c1 == (a0 * b1) * c1 + (a1 * b0) * c1) by (nonlinear_arith);
    assert((a0 * b0 - a1 * b1) * c1 == (a0 * b0) * c1 - (a1 * b1) * c1) by (nonlinear_arith);
    assert((a0 * b1 + a1 * b0) * c0 == (a0 * b1) * c0 + (a1 * b0) * c0) by (nonlinear_arith);
    assert(a0 * (b0 * c0 - b1 * c1) == a0 * (b0 * c0) - a0 * (b1 * c1)) by (nonlinear_arith);
    assert(a1 * (b0 * c1 + b1 * c0) == a1 * (b0 * c1) + a1 * (b1 * c0)) by (nonlinear_arith);
    assert(a0 * (b0 * c1 + b1 * c0) == a0 * (b0 * c1) + a0 * (b1 * c0)) by (nonlinear_arith);
    assert(a1 * (b0 * c0 - b1 * c1) == a1 * (b0 * c0) - a1 * (b1 * c1)) by (nonlinear_arith);
    assert((a0 * b0) * c0 == a0 * (b0 * c0)) by (nonlinear_arith);
    assert((a1 * b1) * c0 == a1 * (b1 * c0)) by (nonlinear_arith);
    assert((a0 * b1) * c1 == a0 * (b1 * c1)) by (nonlinear_arith);
    assert((a1 * b0) * c1 == a1 * (b0 * c1)) by (nonlinear_arith);
    assert((a0 * b0) * c1 == a0 * (b0 * c1)) by (nonlinear_arith);
    assert((a1 * b1) * c1 == a1 * (b1 * c1)) by (nonlinear_arith);
    assert((a0 * b1) * c0 == a0 * (b1 * c0)) by (nonlinear_arith);
    assert((a1 * b0) * c0 == a1 * (b0 * c0)) by (nonlinear_arith);
}

/// Multiplication distributes over addition.
pub proof fn lemma_cmul_distributes(a: (int, int), b: (int, int), c: (int, int))
    ensures
        cmul_exact(a, cadd_exact(b, c)) == cadd_exact(cmul_exact(a, b), cmul_exact(a, c)),
{
    assert(a.0 * (b.0 + c.0) - a.1 * (b.1 + c.1) == (a.0 * b.0 - a.1 * b.1) + (a.0 * c.0 - a.1
        * c.1)) by (nonlinear_arith);
    assert(a.0 * (b.1 + c.1) + a.1 * (b.0 + c.0) == (a.0 * b.1 + a.1 * b.0) + (a.0 * c.1 + a.1
        * c.0)) by (nonlinear_arith);
}

} // verus!
