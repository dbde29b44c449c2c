//! The orbit evaluator: iterate z <- z*z + c from a seed c up to a cap,
//! collecting the pre-escape points and reporting the escape step.

use vstd::prelude::*;
use crate::complex::{Complex, CMAX, cmul_exact};
use crate::fixed::{SCALE, div_trunc};

verus! {

/// Twice the scale: the largest component magnitude of a non-escaped value.
pub const TWO_SCALE: i64 = 0x200_0000;

/// One application of the quadratic map with Q24 truncation.
pub open spec fn map_step_spec(z: Complex, c: Complex) -> Complex {
    let sq = cmul_exact(z.view_pair(), z.view_pair());
    Complex {
        r: (div_trunc(sq.0, SCALE as int) + c.r) as i64,
        i: (div_trunc(sq.1, SCALE as int) + c.i) as i64,
    }
}

/// The n-th iterate of the map, starting from the seed itself.
pub open spec fn iterate(c: Complex, n: nat) -> Complex
    decreases n,
{
    if n == 0 {
        c
    } else {
        map_step_spec(iterate(c, (n - 1) as nat), c)
    }
}

/// A value that has not escaped has both components within [-2, 2].
pub proof fn lemma_nonescaped_bounded(z: Complex)
    requires
        !z.escaped_spec(),
    ensures
        z.bounded(TWO_SCALE),
{
    assert(-TWO_SCALE <= z.r <= TWO_SCALE && -TWO_SCALE <= z.i <= TWO_SCALE)
        by (nonlinear_arith)
        requires
            (z.r as int) * (z.r as int) + (z.i as int) * (z.i as int) <= 4 * (SCALE as int) * (
            SCALE as int),
            SCALE == 0x100_0000,
            TWO_SCALE == 0x200_0000,
    ;
}

/// Evaluate the orbit of `c`: clear and refill `orbit` with the iterates
/// before escape, and return the step index at which the next iterate
/// escaped, or None if no iterate escapes within `cap` steps.
pub fn evaluate(c: Complex, cap: u32, orbit: &mut Vec<Complex>) -> (res: Option<u32>)
    requires
        c.bounded(CMAX),
    ensures
        match res {
            Some(esc) => {
                &&& esc < cap
                &&& iterate(c, esc as nat + 1).escaped_spec()
                &&& forall|j: int| 1 <= j <= esc ==> !(#[trigger] iterate(c, j as nat)).escaped_spec()
                &&& final(orbit)@.len() == esc + 1
            },
            None => {
                &&& forall|j: int| 1 <= j <= cap ==> !(#[trigger] iterate(c, j as nat)).escaped_spec()
                &&& final(orbit)@.len() == cap
            },
        },
        forall|k: int|
            0 <= k < final(orbit)@.len() ==> #[trigger] final(orbit)@[k] == iterate(c, k as nat),
        forall|k: int| 0 <= k < final(orbit)@.len() ==> (#[trigger] final(orbit)@[k]).bounded(
            CMAX,
        ),
{
    orbit.clear();
    let mut z = c;
    let mut i: u32 = 0;
    while i < cap
        invariant
            i <= cap,
            c.bounded(CMAX),
            z == iterate(c, i as nat),
            z.bounded(CMAX),
            forall|j: int| 1 <= j <= i ==> !(#[trigger] iterate(c, j as nat)).escaped_spec(),
            orbit@.len() == i,
            forall|k: int| 0 <= k < i ==> #[trigger] orbit@[k] == iterate(c, k as nat),
            forall|k: int| 0 <= k < i ==> (#[trigger] orbit@[k]).bounded(CMAX),
        decreases cap - i,
    {
        orbit.push(z);
        let zsq = z.times(z);
        proof {
            let sq = cmul_exact(z.view_pair(), z.view_pair());
            assert(-(CMAX as int) * (CMAX as int) <= sq.0 <= 2 * (CMAX as int) * (CMAX as int))
                by (nonlinear_arith)
                requires
                    -CMAX <= z.r <= CMAX,
                    -CMAX <= z.i <= CMAX,
                    sq.0 == (z.r as int) * (z.r as int) - (z.i as int) * (z.i as int),
            ;
            assert(-2 * (CMAX as int) * (CMAX as int) <= sq.1 <= 2 * (CMAX as int) * (
            CMAX as int)) by (nonlinear_arith)
                requires
                    -CMAX <= z.r <= CMAX,
                    -CMAX <= z.i <= CMAX,
                    sq.1 == (z.r as int) * (z.i as int) + (z.i as int) * (z.r as int),
            ;
            assert(2 * (CMAX as int) * (CMAX as int) == 0x20_0000_0000_0000_0000int);
            crate::fixed::lemma_div_trunc_scale_bound(sq.0, 0x2000_0000_0000int);
            crate::fixed::lemma_div_trunc_scale_bound(sq.1, 0x2000_0000_0000int);
        }
        let z2 = zsq.plus(c);
        proof {
            assert(z2 == iterate(c, (i + 1) as nat));
        }
        z = z2;
        if z.escaped() {
            return Some(i);
        }
        proof {
            lemma_nonescaped_bounded(z);
        }
        i = i + 1;
    }
    None
}

/// The zero complex value.
pub open spec fn czero() -> Complex {
    Complex { r: 0, i: 0 }
}

/// The zero seed is the fixed point of the map: every iterate is zero and
/// none ever escapes, for any cap.
pub proof fn lemma_zero_never_escapes(n: nat)
    ensures
        iterate(czero(), n) == czero(),
        !iterate(czero(), n).escaped_spec(),
    decreases n,
{
    let zc = czero();
    if n == 0 {
        assert(!zc.escaped_spec()) by (nonlinear_arith)
            requires
                zc.r == 0,
                zc.i == 0,
                SCALE == 0x100_0000,
        ;
    } else {
        lemma_zero_never_escapes((n - 1) as nat);
        assert(cmul_exact(zc.view_pair(), zc.view_pair()) == (0int, 0int)) by (nonlinear_arith)
            requires
                zc.r == 0,
                zc.i == 0,
        ;
        assert(div_trunc(0, SCALE as int) == 0);
        assert(iterate(zc, n) == zc);
    }
}

/// Margin of the first-step escape lemma: 2^-18 in squared-norm units.
pub const ESCAPE_MARGIN: i64 = 0x4000_0000;

/// The remainder a truncation by SCALE leaves behind is below SCALE in
/// magnitude.
pub proof fn lemma_div_trunc_scale_remainder(p: int)
    ensures
        -(SCALE as int) < p - (SCALE as int) * div_trunc(p, SCALE as int) < SCALE as int,
{
    let s = SCALE as int;
    if p >= 0 {
        vstd::arithmetic::div_mod::lemma_fundamental_div_mod(p, s);
        vstd::arithmetic::div_mod::lemma_mod_bound(p, s);
    } else {
        vstd::arithmetic::div_mod::lemma_fundamental_div_mod(-p, s);
        vstd::arithmetic::div_mod::lemma_mod_bound(-p, s);
        assert(p - s * (-((-p) / s)) == -((-p) - s * ((-p) / s))) by (nonlinear_arith);
    }
}

/// Expansion of one square (x + r*s)^2.
proof fn lemma_one_sq_expand(x: int, r: int, s: int)
    by (nonlinear_arith)
    ensures
        (x + r * s) * (x + r * s) == x * x + 2 * (s * (x * r)) + (s * s) * (r * r),
{
}

/// Expansion of |x + r*s|^2 + |y + i*s|^2 used by the escape lemma.
proof fn lemma_sum_sq_expand(x: int, y: int, r: int, i: int, s: int, sa: int, sb: int)
    requires
        sa == x + r * s,
        sb == y + i * s,
    ensures
        sa * sa + sb * sb == (x * x + y * y) + 2 * (s * (x * r + y * i)) + (s * s) * (r * r + i
            * i),
{
    lemma_one_sq_expand(x, r, s);
    lemma_one_sq_expand(y, i, s);
    assert(s * (x * r + y * i) == s * (x * r) + s * (y * i)) by (nonlinear_arith);
    assert((s * s) * (r * r + i * i) == (s * s) * (r * r) + (s * s) * (i * i))
        by (nonlinear_arith);
}

/// A seed whose squared norm exceeds 4 (with a small margin for the Q24
/// truncation of the first multiply) escapes at the very first step.  A
/// seed in the thin band between 4 and 4 + 2^-18 can land on either side
/// after truncation, so that band is left out.
pub proof fn lemma_big_seed_escapes(c: Complex)
    requires
        c.bounded(CMAX),
        c.norm2_spec() >= 4 * (SCALE as int) * (SCALE as int) + ESCAPE_MARGIN,
    ensures
        iterate(c, 1).escaped_spec(),
{
    let s = SCALE as int;
    let r = c.r as int;
    let i = c.i as int;
    let u = r * r;
    let v = i * i;
    let w = r * i;
    let n = u + v;
    let sq = cmul_exact(c.view_pair(), c.view_pair());
    assert(sq.0 == u - v && sq.1 == w + w);
    let qa = div_trunc(u - v, s);
    let qb = div_trunc(w + w, s);
    // Squares are nonnegative and the cross product is dominated by the norm.
    assert(u >= 0 && v >= 0 && w + w <= n && -(w + w) <= n && u <= n && v <= n)
        by (nonlinear_arith)
        requires
            u == r * r,
            v == i * i,
            w == r * i,
            n == u + v,
    ;
    // Component bounds keep the truncated quotients inside i64.
    assert(u <= (CMAX as int) * (CMAX as int) && v <= (CMAX as int) * (CMAX as int))
        by (nonlinear_arith)
        requires
            -CMAX <= c.r <= CMAX,
            -CMAX <= c.i <= CMAX,
            u == (c.r as int) * (c.r as int),
            v == (c.i as int) * (c.i as int),
    ;
    crate::fixed::lemma_div_trunc_scale_bound(u - v, 0x2000_0000_0000int);
    crate::fixed::lemma_div_trunc_scale_bound(w + w, 0x2000_0000_0000int);
    let z1 = iterate(c, 1);
    assert(z1 == map_step_spec(c, c)) by {
        reveal_with_fuel(iterate, 2);
    }
    assert(z1.r == qa + r && z1.i == qb + i);
    // Remainders of the two truncating divisions.
    let da = (u - v) - s * qa;
    let db = (w + w) - s * qb;
    lemma_div_trunc_scale_remainder(u - v);
    lemma_div_trunc_scale_remainder(w + w);
    assert(-s < da < s && -s < db < s);
    // Exact scaled components before truncation, and the truncated ones.
    let sa = u - v + r * s;
    let sb = w + w + i * s;
    let za = sa - da;
    let zb = sb - db;
    assert(s * (qa + r) == za && s * (qb + i) == zb) by (nonlinear_arith)
        requires
            da == (u - v) - s * qa,
            db == (w + w) - s * qb,
            za == (u - v + r * s) - da,
            zb == (w + w + i * s) - db,
    ;
    // The algebraic identity: sa^2 + sb^2 == n * (n + 2*r*s + s*s).
    assert(w * w == u * v) by (nonlinear_arith)
        requires
            u == r * r,
            v == i * i,
            w == r * i,
    ;
    assert((u - v) * (u - v) + (w + w) * (w + w) == n * n) by (nonlinear_arith)
        requires
            w * w == u * v,
            n == u + v,
    ;
    assert((u - v) * r + (w + w) * i == n * r) by (nonlinear_arith)
        requires
            u == r * r,
            v == i * i,
            w == r * i,
            n == u + v,
    ;
    lemma_sum_sq_expand(u - v, w + w, r, i, s, sa, sb);
    assert(r * r + i * i == n);
    assert(sa * sa + sb * sb == n * n + 2 * (s * (n * r)) + (s * s) * n);
    // 4*s*|r| <= n + 4*s*s, from (2s - r)^2 >= 0 and (2s + r)^2 >= 0.
    assert(4 * (s * r) <= n + 4 * (s * s) && -(4 * (s * r)) <= n + 4 * (s * s))
        by (nonlinear_arith)
        requires
            u == r * r,
            u <= n,
            s > 0,
    ;
    let m2 = n - 4 * (s * s);
    assert(m2 >= ESCAPE_MARGIN);
    // The squared norm of the first iterate, scaled by s^2.
    assert(s * s * z1.norm2_spec() == za * za + zb * zb) by (nonlinear_arith)
        requires
            s * (z1.r as int) == za,
            s * (z1.i as int) == zb,
            z1.norm2_spec() == (z1.r as int) * (z1.r as int) + (z1.i as int) * (z1.i as int),
    ;
    if n <= 32 * (s * s) {
        assert(-6 * s <= r <= 6 * s && -6 * s <= i <= 6 * s) by (nonlinear_arith)
            requires
                u == r * r,
                v == i * i,
                u <= n,
                v <= n,
                n <= 32 * (s * s),
                s == 0x100_0000,
        ;
        assert(-38 * (s * s) <= sa <= 38 * (s * s) && -38 * (s * s) <= sb <= 38 * (s * s))
            by (nonlinear_arith)
            requires
                sa == u - v + r * s,
                sb == w + w + i * s,
                u >= 0,
                v >= 0,
                u <= n,
                v <= n,
                w + w <= n,
                -(w + w) <= n,
                n <= 32 * (s * s),
                -6 * s <= r <= 6 * s,
                -6 * s <= i <= 6 * s,
                s > 0,
        ;
        assert(za * za + zb * zb > 4 * (s * s) * (s * s)) by (nonlinear_arith)
            requires
                za == sa - da,
                zb == sb - db,
                -38 * (s * s) <= sa <= 38 * (s * s),
                -38 * (s * s) <= sb <= 38 * (s * s),
                -s < da < s,
                -s < db < s,
                sa * sa + sb * sb == n * n + 2 * (s * (n * r)) + (s * s) * n,
                4 * (s * r) <= n + 4 * (s * s),
                -(4 * (s * r)) <= n + 4 * (s * s),
                m2 == n - 4 * (s * s),
                m2 >= 0x4000_0000,
                n <= 32 * (s * s),
                s == 0x100_0000,
        ;
    } else {
        assert(za * za + zb * zb > 4 * (s * s) * (s * s)) by (nonlinear_arith)
            requires
                za == sa - da,
                zb == sb - db,
                sa == u - v + r * s,
                sb == w + w + i * s,
                u >= 0,
                v >= 0,
                u <= n,
                v <= n,
                w + w <= n,
                -(w + w) <= n,
                -1024 * s <= r <= 1024 * s,
                -1024 * s <= i <= 1024 * s,
                -s < da < s,
                -s < db < s,
                sa * sa + sb * sb == n * n + 2 * (s * (n * r)) + (s * s) * n,
                4 * (s * r) <= n + 4 * (s * s),
                -(4 * (s * r)) <= n + 4 * (s * s),
                n > 32 * (s * s),
                s == 0x100_0000,
        ;
        assert(-1024 * s <= r <= 1024 * s && -1024 * s <= i <= 1024 * s);
    }
    assert(z1.norm2_spec() > 4 * (s * s)) by (nonlinear_arith)
        requires
            s * s * z1.norm2_spec() == za * za + zb * zb,
            za * za + zb * zb > 4 * (s * s) * (s * s),
            s > 0,
    ;
    assert(4 * (s * s) == 4 * s * s);
}

} // verus!