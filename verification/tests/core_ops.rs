//! Complex arithmetic, escape tests, orbits, and the fixed-point kernels.

use buddhabrot::complex::Complex;
use buddhabrot::fixed::{SCALE, isqrt, mul_q, pow_frac};
use buddhabrot::orbit::evaluate;
use buddhabrot::tone::GAIN_EXP_Q;
use buddhabrot::trig::{cos_sin, HALF_PI_Q};

const S: i64 = 16777216;

#[test]
fn complex_plus_minus() {
    let a = Complex::from_parts(3 * S, -2 * S);
    let b = Complex::from_parts(S, 5 * S);
    let sum = a.plus(b);
    assert_eq!(sum.r, 4 * S);
    assert_eq!(sum.i, 3 * S);
    let diff = a.minus(b);
    assert_eq!(diff.r, 2 * S);
    assert_eq!(diff.i, -7 * S);
}

#[test]
fn complex_addition_commutes() {
    let a = Complex::from_parts(123456, -987654);
    let b = Complex::from_parts(-555, 777);
    assert_eq!(a.plus(b), b.plus(a));
}

#[test]
fn complex_times_exact() {
    // (1 + 2i) * (3 + 4i) = -5 + 10i, exact in Q24.
    let a = Complex::from_parts(S, 2 * S);
    let b = Complex::from_parts(3 * S, 4 * S);
    let p = a.times(b);
    assert_eq!(p.r, -5 * S);
    assert_eq!(p.i, 10 * S);
}

#[test]
fn complex_times_commutes() {
    let a = Complex::from_parts(1234567, -7654321);
    let b = Complex::from_parts(-2345678, 8765432);
    assert_eq!(a.times(b), b.times(a));
}

#[test]
fn escape_boundary_is_inclusive() {
    // |c|^2 == 4 exactly: not escaped; one raw unit more: escaped.
    let on_circle = Complex::from_parts(2 * S, 0);
    assert!(!on_circle.escaped());
    let outside = Complex::from_parts(2 * S + 1, 1);
    assert!(outside.escaped());
}

#[test]
fn norm2_in_q24() {
    // |3 + 4i|^2 = 25.
    let c = Complex::from_parts(3 * S, 4 * S);
    assert_eq!(c.norm2(), 25 * S);
}

#[test]
fn zero_seed_never_escapes() {
    let mut orbit: Vec<Complex> = Vec::new();
    let res = evaluate(Complex::zero(), 1000, &mut orbit);
    assert!(res.is_none());
    assert_eq!(orbit.len(), 1000);
    assert!(orbit.iter().all(|p| p.r == 0 && p.i == 0));
}

#[test]
fn big_seed_escapes_at_step_zero() {
    let mut orbit: Vec<Complex> = Vec::new();
    let res = evaluate(Complex::from_parts(3 * S, 0), 1000, &mut orbit);
    assert_eq!(res, Some(0));
    assert_eq!(orbit.len(), 1);
    assert_eq!(orbit[0], Complex::from_parts(3 * S, 0));
}

#[test]
fn orbit_of_half_half() {
    // 0.5 + 0.5i leaves the bailout radius after three steps.
    let mut orbit: Vec<Complex> = Vec::new();
    let res = evaluate(Complex::from_parts(S / 2, S / 2), 1000, &mut orbit);
    assert_eq!(res, Some(3));
    assert_eq!(orbit.len(), 4);
    assert_eq!(orbit[0], Complex::from_parts(S / 2, S / 2));
}

#[test]
fn seed_inside_set_never_escapes() {
    // -1 is periodic under the map.
    let mut orbit: Vec<Complex> = Vec::new();
    let res = evaluate(Complex::from_parts(-S, 0), 100, &mut orbit);
    assert!(res.is_none());
}

#[test]
fn isqrt_values() {
    assert_eq!(isqrt(0), 0);
    assert_eq!(isqrt(49), 7);
    assert_eq!(isqrt(50), 7);
    assert_eq!(isqrt(0x1_0000_0000_0000), 1 << 24);
}

#[test]
fn mul_q_truncates_toward_zero() {
    assert_eq!(mul_q(S, S), S);
    assert_eq!(mul_q(S / 2, S / 2), S / 4);
    assert_eq!(mul_q(-S / 2, S / 2), -S / 4);
    assert_eq!(mul_q(1, 1), 0);
    assert_eq!(mul_q(-1, 1), 0);
}

#[test]
fn pow_frac_edges() {
    // x^0 = 1, 1^e = 1, 0^e = 0 for a nonzero exponent.
    assert_eq!(pow_frac(S / 3, 0), S);
    assert_eq!(pow_frac(S, GAIN_EXP_Q), S);
    assert_eq!(pow_frac(0, GAIN_EXP_Q), 0);
}

#[test]
fn pow_frac_half_to_gain_exponent() {
    // 0.5^(log 0.8 / log 0.5) is 0.8 up to Q24 truncation.
    assert_eq!(pow_frac(S / 2, GAIN_EXP_Q), 13421756);
}

#[test]
fn trig_at_zero_and_quarter_turn() {
    assert_eq!(cos_sin(0), (S, 0));
    assert_eq!(cos_sin(HALF_PI_Q), (0, S));
}

#[test]
fn trig_at_one_radian() {
    assert_eq!(cos_sin(S), (9064773, 14117542));
}
