use ages::arith::Real;
use ages::transcendental::{cos, exp, ln, pi, pow, sin, sqrt, two_pi};
use fixed::types::I32F32;

const EPSILON_F64: f64 = 1e-7;

fn rf(v: f64) -> Real {
    Real::from_bits(I32F32::from_num(v).to_bits())
}

fn to_f64(r: Real) -> f64 {
    I32F32::from_bits(r.to_bits()).to_num::<f64>()
}

fn close(actual: Real, expected: f64) -> bool {
    let a = to_f64(actual);
    let tol = EPSILON_F64.max(expected.abs() * EPSILON_F64);
    (a - expected).abs() < tol
}

#[test]
fn add_is_deterministic() {
    let a = Real::from_int(3);
    let b = Real::from_int(4);
    assert_eq!(a.add(b), Real::from_int(7));
}

#[test]
fn ratio_construction() {
    let half = Real::from_ratio(1, 2);
    assert_eq!(half.add(half), Real::one());
}

#[test]
fn associativity_holds_for_integers() {
    let a = Real::from_int(2);
    let b = Real::from_int(3);
    let c = Real::from_int(4);
    assert_eq!(a.add(b).add(c), a.add(b.add(c)));
}

#[test]
fn raw_roundtrip() {
    let x = Real::from_ratio(7, 3);
    assert_eq!(Real::from_bits(x.to_bits()), x);
}

#[test]
fn sqrt_of_zero_is_zero() {
    assert_eq!(sqrt(Real::zero()), Real::zero());
}

#[test]
fn sqrt_of_one_is_one() {
    assert_eq!(sqrt(Real::one()), Real::one());
}

#[test]
fn sqrt_of_four_is_two() {
    assert_eq!(sqrt(Real::from_int(4)), Real::from_int(2));
}

#[test]
fn sqrt_matches_f64_across_range() {
    for &v in &[0.25_f64, 0.5, 1.5, 2.0, 9.0, 100.0, 9_810.0, 1e6, 1e8] {
        let r = sqrt(rf(v));
        assert!(close(r, v.sqrt()), "sqrt({}) = {} but f64 says {}", v, to_f64(r), v.sqrt());
    }
}

#[test]
fn sqrt_is_deterministic() {
    let x = Real::from_ratio(73, 13);
    assert_eq!(sqrt(x).to_bits(), sqrt(x).to_bits());
}

#[test]
fn ln_of_one_is_zero() {
    assert_eq!(ln(Real::one()), Real::zero());
}

#[test]
fn ln_of_e_is_one() {
    let e = exp(Real::one());
    assert!(close(ln(e), 1.0));
}

#[test]
fn ln_matches_f64_across_range() {
    for &v in &[0.5_f64, 1.0, 2.0, 10.0, 100.0, 1e6, 1e9] {
        let r = ln(rf(v));
        assert!(close(r, v.ln()), "ln({}) = {} but f64 says {}", v, to_f64(r), v.ln());
    }
}

#[test]
fn ln_is_deterministic() {
    let x = Real::from_ratio(101, 7);
    assert_eq!(ln(x).to_bits(), ln(x).to_bits());
}

#[test]
fn exp_of_zero_is_one() {
    assert_eq!(exp(Real::zero()), Real::one());
}

#[test]
fn exp_matches_f64_across_range() {
    for &v in &[-10.0_f64, -1.0, -0.5, 0.5, 1.0, 5.0, 10.0, 15.0] {
        let r = exp(rf(v));
        assert!(close(r, v.exp()), "exp({}) = {} but f64 says {}", v, to_f64(r), v.exp());
    }
}

#[test]
fn exp_ln_roundtrip() {
    for &v in &[0.5_f64, 1.0, 2.5, 7.0, 100.0] {
        let x = rf(v);
        let round_tripped = exp(ln(x));
        assert!(close(round_tripped, v), "exp(ln({})) = {}", v, to_f64(round_tripped));
    }
}

#[test]
fn exp_is_deterministic() {
    let x = Real::from_ratio(13, 7);
    assert_eq!(exp(x).to_bits(), exp(x).to_bits());
}

#[test]
fn pow_zero_zero_is_one() {
    assert_eq!(pow(Real::zero(), Real::zero()), Real::one());
}

#[test]
fn pow_a_zero_is_one() {
    assert_eq!(pow(Real::from_int(7), Real::zero()), Real::one());
}

#[test]
fn pow_zero_b_is_zero() {
    assert_eq!(pow(Real::zero(), Real::from_int(3)), Real::zero());
}

#[test]
fn pow_matches_f64_across_range() {
    let cases: &[(f64, f64)] = &[(2.0, 10.0), (10.0, 3.0), (1.5, 4.0), (3.0, 0.5), (100.0, 0.25)];
    for &(a, b) in cases {
        let r = pow(rf(a), rf(b));
        let expected = a.powf(b);
        assert!(close(r, expected), "pow({}, {}) = {} but f64 says {}", a, b, to_f64(r), expected);
    }
}

#[test]
fn pow_is_deterministic() {
    let a = Real::from_ratio(31, 7);
    let b = Real::from_ratio(11, 5);
    assert_eq!(pow(a, b).to_bits(), pow(a, b).to_bits());
}

#[test]
fn clausius_clapeyron_smoke() {
    let l_over_r = Real::from_ratio(2_257_000, 461);
    let t1 = Real::from_ratio(373_150, 1000);
    let t2 = Real::from_ratio(363_150, 1000);
    let inv_t2 = Real::one().div(t2);
    let inv_t1 = Real::one().div(t1);
    let exponent = l_over_r.neg().mul(inv_t2.sub(inv_t1));
    let ratio = exp(exponent);
    let p1 = Real::from_int(101_325);
    let p2 = p1.mul(ratio);
    let p2_f = to_f64(p2);
    assert!((p2_f - 70_100.0).abs() < 5_000.0, "Clausius-Clapeyron P2 = {p2_f} Pa, expected ≈ 70 100 Pa");
}

#[test]
fn sin_at_cardinal_angles() {
    let pi_v = pi();
    let two_pi_v = two_pi();
    let half = Real::from_ratio(1, 2);
    assert!(to_f64(sin(Real::zero())).abs() < EPSILON_F64);
    let s_half_pi = sin(pi_v.mul(half));
    assert!((to_f64(s_half_pi) - 1.0).abs() < EPSILON_F64, "sin(π/2) = {s_half_pi:?}");
    assert!(to_f64(sin(pi_v)).abs() < EPSILON_F64);
    let three_half = Real::from_ratio(3, 2);
    assert!((to_f64(sin(pi_v.mul(three_half))) + 1.0).abs() < EPSILON_F64);
    assert!(to_f64(sin(two_pi_v)).abs() < EPSILON_F64);
}

#[test]
fn cos_at_cardinal_angles() {
    let pi_v = pi();
    let half = Real::from_ratio(1, 2);
    assert!((to_f64(cos(Real::zero())) - 1.0).abs() < EPSILON_F64);
    assert!(to_f64(cos(pi_v.mul(half))).abs() < EPSILON_F64);
    assert!((to_f64(cos(pi_v)) + 1.0).abs() < EPSILON_F64);
}

#[test]
fn sin_squared_plus_cos_squared_is_one() {
    let test_angles = [0.0, 0.1, 0.5, 1.0, 1.5, 2.0, 3.0, 5.0, -1.5];
    for theta in test_angles {
        let t = rf(theta);
        let s = to_f64(sin(t));
        let c = to_f64(cos(t));
        let identity = s * s + c * c;
        assert!((identity - 1.0).abs() < EPSILON_F64, "sin²+cos² at θ={theta}: {identity}");
    }
}

#[test]
fn sin_is_deterministic() {
    let t = Real::from_ratio(7, 5);
    let a = sin(t);
    let b = sin(t);
    assert_eq!(a.to_bits(), b.to_bits());
}

#[test]
fn fixed_product_and_quotient_are_exact() {
    let a = Real::from_ratio(3, 2);
    let b = Real::from_int(4);
    assert_eq!(a.mul(b), Real::from_int(6));
    assert_eq!(Real::from_int(6).div(b), a);
    assert_eq!(Real::from_ratio(5, 2).round_ties_even(), Real::from_int(2));
    assert_eq!(Real::from_ratio(7, 2).round_ties_even(), Real::from_int(4));
    assert_eq!(Real::from_ratio(-1, 2).to_i64_floor(), -1);
    assert_eq!(Real::from_ratio(3, 2).to_display_string(), "1.5");
}

#[test]
fn integer_part_rounds_toward_negative_infinity() {
    assert_eq!(Real::from_ratio(3, 2).to_i64_floor(), 1);
    assert_eq!(Real::from_ratio(-3, 2).to_i64_floor(), -2);
    assert_eq!(Real::from_int(-7).to_i64_floor(), -7);
    assert_eq!(Real::from_bits(-1).to_i64_floor(), -1);
    assert_eq!(Real::zero().to_i64_floor(), 0);
}
