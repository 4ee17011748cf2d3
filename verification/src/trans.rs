//! Fixed-point exponential, logarithm and real power.
//!
//! No closed form over the integers exists for these, so each executable
//! function is pinned to a spec function that states the computed value
//! exactly: argument reduction by powers of two plus a truncated series on
//! the reduced range.  The series are accurate to well under 2^-20 of the
//! true real value on the reduced range; the properties the kernels need
//! (`exp_val(0)` is one, `exp_val` of a non-positive argument lies in
//! `[0, FX_ONE]`) are proved outright.

use vstd::prelude::*;
use crate::fx::FX_ONE;
use crate::fx::sat64;
use crate::fx::sat_add;
use crate::fx::sat_mul;
use crate::fx::fx_add;
use crate::fx::fx_mul;
use crate::fx::lemma_sat_mul_le;

verus! {

/// ln(2) in Q32.32, rounded up so that argument reduction leaves a residue
/// strictly below ln(2).
pub const FX_LN2: i64 = 2977044472;

/// Truncated Taylor coefficients of e^r: 1/k! in Q32.32, k = 0..8.
pub const EC0: i64 = 4294967296;

pub const EC1: i64 = 4294967296;

pub const EC2: i64 = 2147483648;

pub const EC3: i64 = 715827882;

pub const EC4: i64 = 178956970;

pub const EC5: i64 = 35791394;

pub const EC6: i64 = 5965232;

pub const EC7: i64 = 852176;

pub const EC8: i64 = 106522;

/// 2^e as a mathematical integer.
pub open spec fn pw2(e: nat) -> int
    decreases e,
{
    if e == 0 {
        1
    } else {
        2 * pw2((e - 1) as nat)
    }
}

/// `pw2` is positive and monotone.
pub proof fn lemma_pw2_mono(a: nat, b: nat)
    requires
        a <= b,
    ensures
        1 <= pw2(a),
        pw2(a) <= pw2(b),
    decreases b,
{
    if b > 0 {
        if a <= b - 1 {
            lemma_pw2_mono(a, (b - 1) as nat);
        } else {
            lemma_pw2_mono((a - 1) as nat, (b - 1) as nat);
        }
    }
}

/// Degree-8 Taylor polynomial of e^r around zero, evaluated by Horner's rule
/// in saturating Q32.32 arithmetic.
pub open spec fn exp_poly(r: int) -> int {
    let h8 = EC8 as int;
    let h7 = sat_add(EC7 as int, sat_mul(r, h8));
    let h6 = sat_add(EC6 as int, sat_mul(r, h7));
    let h5 = sat_add(EC5 as int, sat_mul(r, h6));
    let h4 = sat_add(EC4 as int, sat_mul(r, h5));
    let h3 = sat_add(EC3 as int, sat_mul(r, h4));
    let h2 = sat_add(EC2 as int, sat_mul(r, h3));
    let h1 = sat_add(EC1 as int, sat_mul(r, h2));
    sat_add(EC0 as int, sat_mul(r, h1))
}

/// On the reduced range `[0, ln 2)` the polynomial lies between one and two
/// (in Q32.32: between 2^32 and 2^33).
pub proof fn lemma_exp_poly_bounds(r: int)
    requires
        0 <= r < FX_LN2,
    ensures
        4294967296 <= exp_poly(r),
        exp_poly(r) <= 8589934592,
{
    let rm = 2977044471;
    let h8 = EC8 as int;
    let h7 = sat_add(EC7 as int, sat_mul(r, h8));
    lemma_sat_mul_le(r, h8, rm, 106522);
    assert(EC7 <= h7 <= 926011);
    let h6 = sat_add(EC6 as int, sat_mul(r, h7));
    lemma_sat_mul_le(r, h7, rm, 926011);
    assert(EC6 <= h6 <= 6607093);
    let h5 = sat_add(EC5 as int, sat_mul(r, h6));
    lemma_sat_mul_le(r, h6, rm, 6607093);
    assert(EC5 <= h5 <= 40371081);
    let h4 = sat_add(EC4 as int, sat_mul(r, h5));
    lemma_sat_mul_le(r, h5, rm, 40371081);
    assert(EC4 <= h4 <= 206940070);
    let h3 = sat_add(EC3 as int, sat_mul(r, h4));
    lemma_sat_mul_le(r, h4, rm, 206940070);
    assert(EC3 <= h3 <= 859267808);
    let h2 = sat_add(EC2 as int, sat_mul(r, h3));
    lemma_sat_mul_le(r, h3, rm, 859267808);
    assert(EC2 <= h2 <= 2743082706);
    let h1 = sat_add(EC1 as int, sat_mul(r, h2));
    lemma_sat_mul_le(r, h2, rm, 2743082706);
    assert(EC1 <= h1 <= 6196327339);
    lemma_sat_mul_le(r, h1, rm, 6196327339);
    assert(exp_poly(r) == sat_add(EC0 as int, sat_mul(r, h1)));
    assert(EC0 <= exp_poly(r) <= 8589934119);
}

/// Fixed-point e^t: reduce `t = k ln 2 + r` with `0 <= r < ln 2`, evaluate
/// the series on `r` and scale by 2^k.  Saturates at `i64::MAX` for large
/// positive `t` and underflows to zero once 2^k falls below the fixed-point
/// resolution, mirroring the overflow/underflow of floating-point `exp`.
pub open spec fn exp_val(t: int) -> int {
    let k = t / (FX_LN2 as int);
    let r = t - k * (FX_LN2 as int);
    let p = exp_poly(r);
    if k >= 32 {
        i64::MAX as int
    } else if k >= 0 {
        sat64(p * pw2(k as nat))
    } else if k >= -63 {
        p / pw2((-k) as nat)
    } else {
        0
    }
}

/// e^0 is exactly one.
pub proof fn lemma_exp_at_zero()
    ensures
        exp_val(0) == FX_ONE,
{
    assert(0int / (FX_LN2 as int) == 0);
    assert(exp_poly(0) == FX_ONE);
    assert(pw2(0) == 1);
}

/// For a non-positive argument, e^t lies in `[0, 1]`.
pub proof fn lemma_exp_nonpos_range(t: int)
    requires
        t <= 0,
    ensures
        0 <= exp_val(t),
        exp_val(t) <= FX_ONE,
{
    let d = FX_LN2 as int;
    let k = t / d;
    let r = t - k * d;
    vstd::arithmetic::div_mod::lemma_fundamental_div_mod(t, d);
    assert(r == t % d);
    let p = exp_poly(r);
    lemma_exp_poly_bounds(r);
    if t == 0 {
        lemma_exp_at_zero();
    } else {
        assert(k < 0) by {
            vstd::arithmetic::div_mod::lemma_div_is_ordered(t, -1, d);
            assert((-1) / d == -1) by {
                vstd::arithmetic::div_mod::lemma_fundamental_div_mod_converse_div(
                    -1, d, -1, d - 1);
            }
        }
        if k >= -63 {
            let s = (-k) as nat;
            lemma_pw2_mono(1nat, s);
            vstd::arithmetic::div_mod::lemma_div_pos_is_pos(p, pw2(s));
            vstd::arithmetic::div_mod::lemma_div_is_ordered_by_denominator(p, 2, pw2(s));
            vstd::arithmetic::div_mod::lemma_div_is_ordered(p, 8589934592, 2);
        }
    }
}

/// Fixed-point exponential, pinned to [`exp_val`].
pub fn fx_exp(t: i64) -> (res: i64)
    ensures
        res as int == exp_val(t as int),
{
    let ghost d: int = FX_LN2 as int;
    // argument reduction: k = floor(t / ln 2), r = t - k ln 2
    let (k, rr): (i64, i64) = if t >= 0 {
        let q: u64 = (t as u64) / (FX_LN2 as u64);
        let rem: u64 = (t as u64) % (FX_LN2 as u64);
        (q as i64, rem as i64)
    } else {
        let m: u64 = (-(t as i128)) as u64;
        let q: u64 = m / (FX_LN2 as u64);
        let rem: u64 = m % (FX_LN2 as u64);
        if rem == 0 {
            proof {
                vstd::arithmetic::div_mod::lemma_fundamental_div_mod(m as int, d);
                vstd::arithmetic::div_mod::lemma_fundamental_div_mod_converse_div(
                    t as int, d, -(q as int), 0);
                vstd::arithmetic::div_mod::lemma_fundamental_div_mod_converse_mod(
                    t as int, d, -(q as int), 0);
            }
            (-(q as i64), 0i64)
        } else {
            proof {
                vstd::arithmetic::div_mod::lemma_fundamental_div_mod(m as int, d);
                vstd::arithmetic::div_mod::lemma_fundamental_div_mod_converse_div(
                    t as int, d, -(q as int) - 1, d - rem);
                vstd::arithmetic::div_mod::lemma_fundamental_div_mod_converse_mod(
                    t as int, d, -(q as int) - 1, d - rem);
            }
            (-(q as i64) - 1, FX_LN2 - (rem as i64))
        }
    };
    proof {
        vstd::arithmetic::div_mod::lemma_fundamental_div_mod(t as int, d);
        lemma_exp_poly_bounds(rr as int);
    }
    // series on the reduced argument
    let mut acc: i64 = EC8;
    acc = fx_add(EC7, fx_mul(rr, acc));
    acc = fx_add(EC6, fx_mul(rr, acc));
    acc = fx_add(EC5, fx_mul(rr, acc));
    acc = fx_add(EC4, fx_mul(rr, acc));
    acc = fx_add(EC3, fx_mul(rr, acc));
    acc = fx_add(EC2, fx_mul(rr, acc));
    acc = fx_add(EC1, fx_mul(rr, acc));
    acc = fx_add(EC0, fx_mul(rr, acc));
    proof {
        assert(acc as int == exp_poly(rr as int));
    }
    // scale by 2^k
    if k >= 32 {
        i64::MAX
    } else if k >= 0 {
        let f: u64 = pow2_u64(k as u64);
        proof {
            lemma_pw2_mono(k as nat, 31nat);
            lemma_pw2_31();
            crate::fx::lemma_prod_fits_i128(acc as int, f as int);
        }
        crate::fx::sat_narrow((acc as i128) * (f as i128))
    } else if k >= -63 {
        let f: u64 = pow2_u64((-k) as u64);
        proof {
            lemma_pw2_mono(1nat, (-k) as nat);
        }
        let q: u64 = (acc as u64) / f;
        proof {
            vstd::arithmetic::div_mod::lemma_div_is_ordered_by_denominator(
                acc as int, 1, f as int);
        }
        q as i64
    } else {
        0
    }
}

/// Truncated coefficients of the atanh series for ln: 1/3, 1/5, 1/7, 1/9 in
/// Q32.32.
pub const LC3: i64 = 1431655765;

pub const LC5: i64 = 858993459;

pub const LC7: i64 = 613566756;

pub const LC9: i64 = 477218588;

/// ln(m) for a mantissa `m` in `[1, 2)` (Q32.32: `[2^32, 2^33)`), via
/// `ln m = 2 atanh(z)` with `z = (m - 1) / (m + 1)` and the odd series of
/// atanh truncated after z^9.
pub open spec fn ln_core(m: int) -> int {
    let z = crate::fx::sat_div(crate::fx::sat_sub(m, FX_ONE as int),
        sat_add(m, FX_ONE as int));
    let w = sat_mul(z, z);
    let h7 = sat_add(LC7 as int, sat_mul(w, LC9 as int));
    let h5 = sat_add(LC5 as int, sat_mul(w, h7));
    let h3 = sat_add(LC3 as int, sat_mul(w, h5));
    let h1 = sat_add(FX_ONE as int, sat_mul(w, h3));
    2 * sat_mul(z, h1)
}

/// Fixed-point ln(a): normalise `a = m * 2^e` with mantissa `m` in `[1, 2)`,
/// then `ln a = ln m + e ln 2`.  Non-positive arguments (outside the domain)
/// map to zero; callers guard them.
pub open spec fn ln_val(a: int) -> int
    decreases (if a < FX_ONE { 3 * 4294967296 - a } else { a }),
{
    if a <= 0 {
        0
    } else if a >= 2 * (FX_ONE as int) {
        ln_val(a / 2) + FX_LN2 as int
    } else if a < FX_ONE {
        ln_val(2 * a) - FX_LN2 as int
    } else {
        ln_core(a)
    }
}

/// The mantissa series stays within `[0, 2 * FX_ONE]` for a mantissa in
/// `[1, 2)`; in real terms, `ln m` lies in `[0, ln 2)` there.
pub proof fn lemma_ln_core_bounds(m: int)
    requires
        FX_ONE <= m < 2 * (FX_ONE as int),
    ensures
        0 <= ln_core(m),
        ln_core(m) <= 2 * (FX_ONE as int),
{
    let z = crate::fx::sat_div(crate::fx::sat_sub(m, FX_ONE as int),
        sat_add(m, FX_ONE as int));
    crate::fx::lemma_sat_div_le(m - FX_ONE as int, m + FX_ONE as int,
        FX_ONE as int, 2 * (FX_ONE as int));
    assert(0 <= z <= 0x80000000);
    let w = sat_mul(z, z);
    lemma_sat_mul_le(z, z, 0x80000000, 0x80000000);
    assert(0 <= w <= 0x40000000);
    let h7 = sat_add(LC7 as int, sat_mul(w, LC9 as int));
    lemma_sat_mul_le(w, LC9 as int, 0x40000000, LC9 as int);
    assert(0 <= h7 <= 8589934592);
    let h5 = sat_add(LC5 as int, sat_mul(w, h7));
    lemma_sat_mul_le(w, h7, 0x40000000, 8589934592);
    assert(0 <= h5 <= 8589934592);
    let h3 = sat_add(LC3 as int, sat_mul(w, h5));
    lemma_sat_mul_le(w, h5, 0x40000000, 8589934592);
    assert(0 <= h3 <= 8589934592);
    let h1 = sat_add(FX_ONE as int, sat_mul(w, h3));
    lemma_sat_mul_le(w, h3, 0x40000000, 8589934592);
    assert(0 <= h1 <= 8589934592);
    lemma_sat_mul_le(z, h1, 0x80000000, 8589934592);
}

/// Fixed-point natural logarithm, pinned to [`ln_val`].
pub fn fx_ln(a: i64) -> (res: i64)
    requires
        a > 0,
    ensures
        res as int == ln_val(a as int),
{
    let ghost a0: int = a as int;
    let mut m: u64 = a as u64;
    let mut e: i64 = 0;
    if m >= 0x200000000u64 {
        while m >= 0x200000000u64
            invariant
                0x100000000u64 <= m,
                0 <= e,
                (m as int) * pw2(e as nat) <= a0,
                a0 < 0x8000000000000000,
                ln_val(a0) == ln_val(m as int) + (e as int) * (FX_LN2 as int),
            decreases m,
        {
            proof {
                lemma_pw2_mono(e as nat, e as nat);
                assert((m as int / 2) * pw2((e + 1) as nat) <= (m as int) * pw2(e as nat))
                    by (nonlinear_arith)
                    requires
                        pw2((e + 1) as nat) == 2 * pw2(e as nat),
                        1 <= pw2(e as nat),
                        2 * (m as int / 2) <= m as int,
                ;
                if e >= 63 {
                    lemma_pw2_mono(63nat, e as nat);
                    lemma_pw2_31();
                    vstd::arithmetic::mul::lemma_mul_inequality(1, m as int,
                        pw2(e as nat));
                    assert(false);
                }
            }
            m = m / 2;
            e = e + 1;
        }
    } else if m < 0x100000000u64 {
        while m < 0x100000000u64
            invariant
                1 <= m < 0x200000000u64,
                -33 <= e <= 0,
                1 <= a0,
                m as int == a0 * pw2((-e) as nat),
                ln_val(a0) == ln_val(m as int) + (e as int) * (FX_LN2 as int),
            decreases 0x200000000int - m,
        {
            proof {
                assert(2 * (a0 * pw2((-e) as nat)) == a0 * pw2((-e + 1) as nat))
                    by (nonlinear_arith)
                    requires
                        pw2((-e + 1) as nat) == 2 * pw2((-e) as nat),
                ;
                if e == -33 {
                    lemma_pw2_31();
                    vstd::arithmetic::mul::lemma_mul_inequality(1, a0, pw2(33nat));
                    assert(false);
                }
            }
            m = m * 2;
            e = e - 1;
        }
    }
    proof {
        assert(ln_val(m as int) == ln_core(m as int));
        lemma_ln_core_bounds(m as int);
        if e >= 63 {
            lemma_pw2_mono(63nat, e as nat);
            lemma_pw2_31();
            vstd::arithmetic::mul::lemma_mul_inequality(1, m as int, pw2(e as nat));
            assert(false);
        }
        if e <= -64 {
            lemma_pw2_mono(64nat, (-e) as nat);
            lemma_pw2_31();
            vstd::arithmetic::mul::lemma_mul_inequality(1, a0, pw2((-e) as nat));
            assert(false);
        }
    }
    // atanh series on the mantissa
    let z: i64 = crate::fx::fx_div(crate::fx::fx_sub(m as i64, FX_ONE),
        fx_add(m as i64, FX_ONE));
    proof {
        crate::fx::lemma_sat_div_le(m as int - FX_ONE as int, m as int + FX_ONE as int,
            FX_ONE as int, 2 * (FX_ONE as int));
    }
    let w: i64 = fx_mul(z, z);
    proof {
        lemma_sat_mul_le(z as int, z as int, 0x80000000, 0x80000000);
    }
    let mut h: i64 = fx_add(LC7, fx_mul(w, LC9));
    proof {
        lemma_sat_mul_le(w as int, LC9 as int, 0x40000000, LC9 as int);
        lemma_sat_mul_le(w as int, h as int, 0x40000000, 8589934592);
    }
    h = fx_add(LC5, fx_mul(w, h));
    proof {
        lemma_sat_mul_le(w as int, h as int, 0x40000000, 8589934592);
    }
    h = fx_add(LC3, fx_mul(w, h));
    proof {
        lemma_sat_mul_le(w as int, h as int, 0x40000000, 8589934592);
    }
    h = fx_add(FX_ONE, fx_mul(w, h));
    proof {
        lemma_sat_mul_le(z as int, h as int, 0x80000000, 8589934592);
    }
    let s: i64 = fx_mul(z, h);
    let core: i64 = s + s;
    core + e * FX_LN2
}

/// Fixed-point real power b^d, defined as exp(d ln b) for a positive base.
/// The edge policies mirror floating-point `powf` within the fixed-point
/// domain: `0^d` is zero for positive `d`, one for zero `d` and saturates for
/// negative `d`; a negative base is accepted only for an integer-valued
/// exponent (sign by parity), and otherwise — where `powf` would produce a
/// NaN — the result is pinned to zero, the nearest thing the integer domain
/// has to an undefined value.
pub open spec fn pow_val(b: int, d: int) -> int {
    if b > 0 {
        exp_val(sat_mul(d, ln_val(b)))
    } else if b == 0 {
        if d > 0 {
            0
        } else if d == 0 {
            FX_ONE as int
        } else {
            i64::MAX as int
        }
    } else if d % (FX_ONE as int) == 0 {
        let n = d / (FX_ONE as int);
        let m = exp_val(sat_mul(d, ln_val(crate::fx::sat_neg(b))));
        if n % 2 == 0 {
            m
        } else {
            crate::fx::sat_neg(m)
        }
    } else {
        0
    }
}

/// Fixed-point real power, pinned to [`pow_val`].
pub fn fx_pow(b: i64, d: i64) -> (res: i64)
    ensures
        res as int == pow_val(b as int, d as int),
{
    let ghost one: int = FX_ONE as int;
    if b > 0 {
        fx_exp(fx_mul(d, fx_ln(b)))
    } else if b == 0 {
        if d > 0 {
            0
        } else if d == 0 {
            FX_ONE
        } else {
            i64::MAX
        }
    } else {
        let nb: i64 = crate::fx::fx_neg(b);
        let md: u64 = if d >= 0 {
            d as u64
        } else {
            (-(d as i128)) as u64
        };
        let q: u64 = md / 4294967296u64;
        let rem: u64 = md % 4294967296u64;
        proof {
            vstd::arithmetic::div_mod::lemma_fundamental_div_mod(md as int, one);
        }
        if rem == 0 {
            proof {
                if d < 0 {
                    vstd::arithmetic::div_mod::lemma_fundamental_div_mod_converse_div(
                        d as int, one, -(q as int), 0);
                    vstd::arithmetic::div_mod::lemma_fundamental_div_mod_converse_mod(
                        d as int, one, -(q as int), 0);
                }
            }
            let par: u64 = q % 2;
            proof {
                vstd::arithmetic::div_mod::lemma_fundamental_div_mod(q as int, 2);
                let n = d as int / one;
                if d < 0 {
                    if par == 0 {
                        vstd::arithmetic::div_mod::lemma_fundamental_div_mod_converse_mod(
                            n, 2, -(q as int / 2), 0);
                    } else {
                        vstd::arithmetic::div_mod::lemma_fundamental_div_mod_converse_mod(
                            n, 2, -(q as int / 2) - 1, 1);
                    }
                }
            }
            let m: i64 = fx_exp(fx_mul(d, fx_ln(nb)));
            if par == 0 {
                m
            } else {
                crate::fx::fx_neg(m)
            }
        } else {
            proof {
                if d < 0 {
                    vstd::arithmetic::div_mod::lemma_fundamental_div_mod_converse_mod(
                        d as int, one, -(q as int) - 1, one - rem);
                }
            }
            0
        }
    }
}

/// Small powers of two, evaluated.
proof fn lemma_pw2_31()
    ensures
        pw2(31) == 0x80000000,
        pw2(33) == 0x200000000,
        pw2(63) == 0x8000000000000000,
{
    reveal_with_fuel(pw2, 64);
}

/// 2^e over `u64`, for shifts of at most 63.
fn pow2_u64(e: u64) -> (f: u64)
    requires
        e <= 63,
    ensures
        f as int == pw2(e as nat),
{
    proof {
        lemma_pw2_31();
    }
    let mut f: u64 = 1;
    let mut i: u64 = 0;
    while i < e
        invariant
            i <= e <= 63,
            f as int == pw2(i as nat),
        decreases e - i,
    {
        proof {
            lemma_pw2_mono(i as nat, 62nat);
            lemma_pw2_mono(62nat, 63nat);
            lemma_pw2_31();
        }
        f = f * 2;
        i = i + 1;
    }
    f
}

} // verus!
