use pairwise_kernels::fx_add;
use pairwise_kernels::fx_sub;
use pairwise_kernels::fx_neg;
use pairwise_kernels::fx_mul;
use pairwise_kernels::fx_div;
use pairwise_kernels::FX_ONE;
use pairwise_kernels::fx::fx_sqrt;
use pairwise_kernels::trans::fx_exp;
use pairwise_kernels::trans::fx_ln;
use pairwise_kernels::trans::fx_pow;

fn fx(v: f64) -> i64 {
    (v * 4294967296.0).round() as i64
}

fn to_f64(b: i64) -> f64 {
    b as f64 / 4294967296.0
}

#[test]
fn arithmetic_basics() {
    assert_eq!(fx_add(fx(1.5), fx(2.25)), fx(3.75));
    assert_eq!(fx_sub(fx(1.0), fx(3.0)), fx(-2.0));
    assert_eq!(fx_neg(fx(4.5)), fx(-4.5));
    assert_eq!(fx_mul(fx(1.5), fx(4.0)), fx(6.0));
    assert_eq!(fx_mul(fx(-1.5), fx(4.0)), fx(-6.0));
    assert_eq!(fx_div(fx(1.0), fx(4.0)), fx(0.25));
    assert_eq!(fx_div(fx(-1.0), fx(4.0)), fx(-0.25));
}

#[test]
fn arithmetic_saturates_instead_of_overflowing() {
    assert_eq!(fx_add(i64::MAX, i64::MAX), i64::MAX);
    assert_eq!(fx_sub(i64::MIN, i64::MAX), i64::MIN);
    assert_eq!(fx_neg(i64::MIN), i64::MAX);
    assert_eq!(fx_mul(i64::MAX, i64::MAX), i64::MAX);
    assert_eq!(fx_mul(i64::MIN, i64::MIN), i64::MAX);
    assert_eq!(fx_div(i64::MAX, 1), i64::MAX);
}

#[test]
fn division_by_zero_yields_zero_by_policy() {
    assert_eq!(fx_div(fx(7.0), 0), 0);
    assert_eq!(fx_div(0, 0), 0);
}

#[test]
fn multiplication_truncates_toward_zero() {
    // 1/2^32 * 1/2^32 is far below the resolution: truncates to zero
    assert_eq!(fx_mul(1, 1), 0);
    assert_eq!(fx_mul(-1, 1), 0);
}

#[test]
fn square_root_values() {
    assert_eq!(fx_sqrt(0), 0);
    assert_eq!(fx_sqrt(fx(4.0)), fx(2.0));
    assert_eq!(fx_sqrt(fx(2.25)), fx(1.5));
    assert!((to_f64(fx_sqrt(fx(2.0))) - 1.41421356).abs() < 1e-6);
}

#[test]
fn exponential_values() {
    assert_eq!(fx_exp(0), FX_ONE);
    assert!((to_f64(fx_exp(fx(-0.8))) - 0.44932896).abs() < 1e-6);
    assert!((to_f64(fx_exp(fx(1.0))) - 2.71828183).abs() < 1e-6);
    // deep underflow reaches exactly zero
    assert_eq!(fx_exp(fx(-200.0)), 0);
    // large arguments saturate
    assert_eq!(fx_exp(fx(200.0)), i64::MAX);
    assert!(0 <= fx_exp(fx(-3.7)) && fx_exp(fx(-3.7)) <= FX_ONE);
}

#[test]
fn logarithm_values() {
    assert_eq!(fx_ln(FX_ONE), 0);
    assert!((to_f64(fx_ln(fx(2.0))) - 0.69314718).abs() < 1e-6);
    assert!((to_f64(fx_ln(fx(9.4))) - 2.24070969).abs() < 1e-6);
    assert!((to_f64(fx_ln(fx(0.5))) + 0.69314718).abs() < 1e-6);
}

#[test]
fn power_values_and_edge_policies() {
    assert!((to_f64(fx_pow(fx(9.4), fx(-1.0))) - 0.10638298).abs() < 1e-6);
    assert!((to_f64(fx_pow(fx(2.0), fx(0.5))) - 1.41421356).abs() < 1e-6);
    assert!((to_f64(fx_pow(fx(-2.0), fx(2.0))) - 4.0).abs() < 1e-6);
    assert!((to_f64(fx_pow(fx(-2.0), fx(3.0))) + 8.0).abs() < 1e-6);
    // negative base with a fractional degree: the NaN stand-in is zero
    assert_eq!(fx_pow(fx(-2.0), fx(0.5)), 0);
    // zero base
    assert_eq!(fx_pow(0, fx(3.0)), 0);
    assert_eq!(fx_pow(0, 0), FX_ONE);
    assert_eq!(fx_pow(0, fx(-1.0)), i64::MAX);
}
