//! Q32.32 fixed-point scalars.
//!
//! A scalar is an `i64` holding `round(value * 2^32)`, so `FX_ONE` stands for
//! the real number one.  All arithmetic saturates at the `i64` range instead
//! of overflowing, and multiplication and division truncate the extra
//! fractional bits toward zero.  The spec functions `sat_add`, `sat_sub`,
//! `sat_neg`, `sat_mul` and `sat_div` give the exact mathematical value of
//! each operation; the executable functions are proved to return it.

use vstd::prelude::*;

verus! {

/// The fixed-point representation of one: 2^32, which is also the scaling
/// denominator shared by all Q32.32 values.
pub const FX_ONE: i64 = 4294967296;

/// Clips a mathematical integer to the `i64` range.
pub open spec fn sat64(v: int) -> int {
    if v > i64::MAX {
        i64::MAX as int
    } else if v < i64::MIN {
        i64::MIN as int
    } else {
        v
    }
}

/// Magnitude of a mathematical integer.
pub open spec fn mag(v: int) -> int {
    if v < 0 {
        -v
    } else {
        v
    }
}

/// Truncating (toward zero) division of `p` by the scale 2^32.
pub open spec fn to_scale(p: int) -> int {
    if p >= 0 {
        p / 4294967296
    } else {
        -((-p) / 4294967296)
    }
}

/// Saturating fixed-point addition.
pub open spec fn sat_add(a: int, b: int) -> int {
    sat64(a + b)
}

/// Saturating fixed-point subtraction.
pub open spec fn sat_sub(a: int, b: int) -> int {
    sat64(a - b)
}

/// Saturating fixed-point negation.
pub open spec fn sat_neg(a: int) -> int {
    sat64(-a)
}

/// Saturating fixed-point multiplication: the product is rescaled by 2^32,
/// truncated toward zero.
pub open spec fn sat_mul(a: int, b: int) -> int {
    sat64(to_scale(a * b))
}

/// Saturating fixed-point division, truncated toward zero.  Division by zero
/// yields zero by policy: the kernels guard every division whose divisor the
/// caller controls, and a zero divisor only arises from degenerate inputs
/// (an all-zero feature vector in the cosine kernel).
pub open spec fn sat_div(a: int, b: int) -> int {
    if b == 0 {
        0
    } else {
        let q = (mag(a) * 4294967296) / mag(b);
        if (a < 0) == (b < 0) {
            sat64(q)
        } else {
            sat64(-q)
        }
    }
}

/// Narrows an `i128` intermediate back to `i64`, saturating.
pub(crate) fn sat_narrow(v: i128) -> (r: i64)
    ensures
        r as int == sat64(v as int),
{
    if v > i64::MAX as i128 {
        i64::MAX
    } else if v < i64::MIN as i128 {
        i64::MIN
    } else {
        v as i64
    }
}

/// Saturating fixed-point addition.
pub fn fx_add(a: i64, b: i64) -> (r: i64)
    ensures
        r as int == sat_add(a as int, b as int),
{
    sat_narrow(a as i128 + b as i128)
}

/// Saturating fixed-point subtraction.
pub fn fx_sub(a: i64, b: i64) -> (r: i64)
    ensures
        r as int == sat_sub(a as int, b as int),
{
    sat_narrow(a as i128 - b as i128)
}

/// Saturating fixed-point negation.
pub fn fx_neg(a: i64) -> (r: i64)
    ensures
        r as int == sat_neg(a as int),
{
    sat_narrow(-(a as i128))
}

/// Magnitude of an `i64`, widened so that `i64::MIN` needs no special case.
fn mag_u128(a: i64) -> (m: u128)
    ensures
        m as int == mag(a as int),
{
    if a >= 0 {
        a as u128
    } else {
        (-(a as i128)) as u128
    }
}

/// Saturating fixed-point multiplication.
pub fn fx_mul(a: i64, b: i64) -> (r: i64)
    ensures
        r as int == sat_mul(a as int, b as int),
{
    proof {
        assert(-0x40000000000000000000000000000000 <= (a as int) * (b as int)
            <= 0x40000000000000000000000000000000) by (nonlinear_arith)
            requires
                i64::MIN <= a as int <= i64::MAX,
                i64::MIN <= b as int <= i64::MAX,
        ;
    }
    let p: i128 = (a as i128) * (b as i128);
    if p >= 0 {
        let q: u128 = (p as u128) / 4294967296u128;
        sat_narrow(q as i128)
    } else {
        let m: u128 = (-p) as u128;
        let q: u128 = m / 4294967296u128;
        sat_narrow(-(q as i128))
    }
}

/// Saturating fixed-point division; a zero divisor yields zero (see
/// [`sat_div`]).
pub fn fx_div(a: i64, b: i64) -> (r: i64)
    ensures
        r as int == sat_div(a as int, b as int),
{
    if b == 0 {
        return 0;
    }
    let ma: u128 = mag_u128(a);
    let mb: u128 = mag_u128(b);
    let q: u128 = (ma * 4294967296u128) / mb;
    if (a < 0) == (b < 0) {
        sat_narrow(q as i128)
    } else {
        sat_narrow(-(q as i128))
    }
}

/// Floor of the square root of `n` (zero for negative `n`), defined by the
/// classic digit-pair recursion.
pub open spec fn sqrt_floor(n: int) -> int
    decreases n,
{
    if n <= 0 {
        0
    } else {
        let h = sqrt_floor(n / 4);
        if (2 * h + 1) * (2 * h + 1) <= n {
            2 * h + 1
        } else {
            2 * h
        }
    }
}

/// `sqrt_floor(n)` really is the floor of the square root: it is the largest
/// integer whose square does not exceed `n`.
pub proof fn lemma_sqrt_floor(n: int)
    requires
        n >= 0,
    ensures
        sqrt_floor(n) >= 0,
        sqrt_floor(n) * sqrt_floor(n) <= n,
        n < (sqrt_floor(n) + 1) * (sqrt_floor(n) + 1),
    decreases n,
{
    if n == 0 {
    } else {
        let h = sqrt_floor(n / 4);
        lemma_sqrt_floor(n / 4);
        assert(n == 4 * (n / 4) + n % 4 && 0 <= n % 4 < 4) by {
            vstd::arithmetic::div_mod::lemma_fundamental_div_mod(n, 4);
        }
        assert(4 * (h * h) <= 4 * (n / 4)) by (nonlinear_arith)
            requires
                h * h <= n / 4,
        ;
        assert((2 * h) * (2 * h) == 4 * (h * h)) by (nonlinear_arith);
        assert((2 * h + 2) * (2 * h + 2) == 4 * ((h + 1) * (h + 1))) by (nonlinear_arith);
        assert(4 * (n / 4) + 3 < 4 * ((h + 1) * (h + 1))) by (nonlinear_arith)
            requires
                n / 4 < (h + 1) * (h + 1),
        ;
        if (2 * h + 1) * (2 * h + 1) <= n {
            assert(sqrt_floor(n) == 2 * h + 1);
        } else {
            assert(sqrt_floor(n) == 2 * h);
        }
    }
}

/// A product of an `i64` value and a `u64` value fits in `i128`.
pub(crate) proof fn lemma_prod_fits_i128(a: int, b: int) by (nonlinear_arith)
    requires
        -0x8000000000000000 <= a < 0x8000000000000000,
        0 <= b <= 0xffffffffffffffff,
    ensures
        -0x80000000000000000000000000000000 <= a * b,
        a * b < 0x80000000000000000000000000000000,
{
}

/// Product bound: factors bounded above give a bounded product.
pub(crate) proof fn lemma_mul_le(a: int, b: int, am: int, bm: int) by (nonlinear_arith)
    requires
        0 <= a <= am,
        0 <= b <= bm,
    ensures
        a * b <= am * bm,
{
}

/// If `s` is non-negative and `s * s <= n < m * m`, then `s < m`.
proof fn lemma_root_bound(s: int, n: int, m: int) by (nonlinear_arith)
    requires
        0 <= s,
        0 <= m,
        s * s <= n,
        n < m * m,
    ensures
        s < m,
{
}

/// Floor square root over `u128`, by the digit-pair recursion.
fn isqrt_u128(n: u128) -> (s: u128)
    requires
        n < 0x1000000000000000000000000000000,
    ensures
        s as int == sqrt_floor(n as int),
    decreases n,
{
    proof {
        lemma_sqrt_floor(n as int);
    }
    if n == 0 {
        0
    } else {
        let h: u128 = isqrt_u128(n / 4);
        proof {
            lemma_sqrt_floor(n as int / 4);
            lemma_root_bound(h as int, n as int / 4, 0x800000000000000);
            lemma_mul_le(2 * h as int + 1, 2 * h as int + 1, 0x1000000000000000,
                0x1000000000000000);
        }
        let c: u128 = 2 * h + 1;
        if c * c <= n {
            c
        } else {
            2 * h
        }
    }
}

/// Fixed-point square root of `a`: the value `floor(sqrt(a / 2^32) * 2^32)`,
/// here written as the integer square root of `a * 2^32`.
pub open spec fn sqrt_val(a: int) -> int {
    sqrt_floor(a * 4294967296)
}

/// Fixed-point square root.  The result is exact to one unit in the last
/// fractional place, and pinned by [`sqrt_val`].
pub fn fx_sqrt(a: i64) -> (r: i64)
    requires
        a >= 0,
    ensures
        r as int == sqrt_val(a as int),
{
    let n: u128 = (a as u128) * 4294967296u128;
    let s: u128 = isqrt_u128(n);
    proof {
        lemma_sqrt_floor(n as int);
        lemma_root_bound(s as int, n as int, 0x1000000000000);
    }
    s as i64
}

/// The square of a fixed-point difference is symmetric in its arguments,
/// including at the saturation edges of the subtraction.
pub proof fn lemma_sat_sub_sq_symmetric(xv: int, yv: int)
    requires
        i64::MIN <= xv <= i64::MAX,
        i64::MIN <= yv <= i64::MAX,
    ensures
        sat_mul(sat_sub(xv, yv), sat_sub(xv, yv)) == sat_mul(sat_sub(yv, xv), sat_sub(yv, xv)),
{
    let s = sat_sub(xv, yv);
    let t = sat_sub(yv, xv);
    if xv - yv > i64::MAX || xv - yv <= i64::MIN {
        assert((s == i64::MAX && t == i64::MIN) || (s == i64::MIN && t == i64::MAX));
        assert(0x7fffffffffffffff * 0x7fffffffffffffff
            == 0x3fffffffffffffff0000000000000001) by (nonlinear_arith);
        assert((-0x8000000000000000) * (-0x8000000000000000)
            == 0x40000000000000000000000000000000) by (nonlinear_arith);
        assert(sat_mul(i64::MAX as int, i64::MAX as int) == i64::MAX);
        assert(sat_mul(i64::MIN as int, i64::MIN as int) == i64::MAX);
    } else {
        assert(t == -s);
        assert(s * s == t * t) by (nonlinear_arith)
            requires
                t == -s,
        ;
    }
}

/// Monotone bound for quotients of non-negative fixed-point values.
pub proof fn lemma_sat_div_le(a: int, b: int, am: int, bmin: int)
    requires
        0 <= a <= am,
        0 < bmin <= b,
    ensures
        0 <= sat_div(a, b),
        sat_div(a, b) <= sat64((am * 4294967296) / bmin),
{
    vstd::arithmetic::div_mod::lemma_div_pos_is_pos(a * 4294967296, b);
    vstd::arithmetic::div_mod::lemma_div_is_ordered(a * 4294967296, am * 4294967296, b);
    vstd::arithmetic::div_mod::lemma_div_is_ordered_by_denominator(
        am * 4294967296, bmin, b);
}

/// Monotone bound for products of non-negative fixed-point values.
pub proof fn lemma_sat_mul_le(a: int, b: int, am: int, bm: int)
    requires
        0 <= a <= am,
        0 <= b <= bm,
    ensures
        0 <= sat_mul(a, b),
        sat_mul(a, b) <= sat64((am * bm) / 4294967296),
{
    assert(0 <= a * b <= am * bm) by (nonlinear_arith)
        requires
            0 <= a <= am,
            0 <= b <= bm,
    ;
    vstd::arithmetic::div_mod::lemma_div_is_ordered(a * b, am * bm, 4294967296);
    vstd::arithmetic::div_mod::lemma_div_pos_is_pos(a * b, 4294967296);
}

} // verus!
