//! The chi-squared kernel.
//!
//! Per pair of rows the kernel accumulates, over the features `d` with
//! `x_d + y_d` nonzero, the terms `(x_d - y_d)^2 / (x_d + y_d)`, and returns
//! `exp(-gamma * accumulator)`.  A feature pair whose sum is exactly zero
//! contributes nothing: that is the division-by-zero policy, not an error.

use vstd::prelude::*;
use crate::fx::FX_ONE;
use crate::fx::sat_add;
use crate::fx::sat_sub;
use crate::fx::sat_neg;
use crate::fx::sat_mul;
use crate::fx::sat_div;
use crate::fx::fx_add;
use crate::fx::fx_sub;
use crate::fx::fx_mul;
use crate::fx::fx_div;
use crate::fx::fx_neg;
use crate::trans::exp_val;
use crate::trans::fx_exp;
use crate::trans::lemma_exp_at_zero;
use crate::trans::lemma_exp_nonpos_range;
use crate::pairwise_kernel::ints;
use crate::pairwise_kernel::row;
use crate::pairwise_kernel::pairs_compatible;
use crate::pairwise_kernel::result_shape;
use crate::pairwise_kernel::pairwise_kernel;

verus! {

/// One feature's contribution: `(x - y)^2 / (x + y)`, or zero when the sum
/// is exactly zero.
pub open spec fn chi2_term(xv: int, yv: int) -> int {
    let nom = sat_add(xv, yv);
    if nom == 0 {
        0
    } else {
        sat_div(sat_mul(sat_sub(xv, yv), sat_sub(xv, yv)), nom)
    }
}

/// The chi-squared accumulator over the first `n` features.
pub open spec fn chi2_acc(a: Seq<int>, b: Seq<int>, n: int) -> int
    decreases n,
{
    if n <= 0 {
        0
    } else {
        sat_add(chi2_acc(a, b, n - 1), chi2_term(a[n - 1], b[n - 1]))
    }
}

/// The chi-squared kernel value of one row pair:
/// `exp(-gamma * accumulator)`.
pub open spec fn chi2_val(a: Seq<int>, b: Seq<int>, g: int) -> int {
    exp_val(sat_neg(sat_mul(g, chi2_acc(a, b, a.len() as int))))
}

/// Per-pair scalar: accumulate the guarded terms, then exponentiate.
fn chi2_scalar(a: &Vec<i64>, b: &Vec<i64>, gamma: i64) -> (v: i64)
    requires
        a@.len() == b@.len(),
    ensures
        v as int == chi2_val(ints(a@), ints(b@), gamma as int),
{
    let mut acc: i64 = 0;
    let mut d: usize = 0;
    while d < a.len()
        invariant
            a@.len() == b@.len(),
            d <= a@.len(),
            acc as int == chi2_acc(ints(a@), ints(b@), d as int),
        decreases a@.len() - d,
    {
        let nom: i64 = fx_add(a[d], b[d]);
        if nom != 0 {
            let diff: i64 = fx_sub(a[d], b[d]);
            acc = fx_add(acc, fx_div(fx_mul(diff, diff), nom));
        }
        d += 1;
    }
    fx_exp(fx_neg(fx_mul(gamma, acc)))
}

/// Each feature's contribution is symmetric in its two arguments, including
/// at the saturation edges of the fixed-point subtraction.
proof fn lemma_chi2_term_symmetric(xv: int, yv: int)
    requires
        i64::MIN <= xv <= i64::MAX,
        i64::MIN <= yv <= i64::MAX,
    ensures
        chi2_term(xv, yv) == chi2_term(yv, xv),
{
    crate::fx::lemma_sat_sub_sq_symmetric(xv, yv);
}

/// The accumulator is symmetric over equal-length rows.
proof fn lemma_chi2_acc_symmetric(a: Seq<int>, b: Seq<int>, n: int)
    requires
        n <= a.len(),
        n <= b.len(),
        forall|d: int| 0 <= d < a.len() ==> i64::MIN <= #[trigger] a[d] <= i64::MAX,
        forall|d: int| 0 <= d < b.len() ==> i64::MIN <= #[trigger] b[d] <= i64::MAX,
    ensures
        chi2_acc(a, b, n) == chi2_acc(b, a, n),
    decreases n,
{
    if n > 0 {
        lemma_chi2_acc_symmetric(a, b, n - 1);
        lemma_chi2_term_symmetric(a[n - 1], b[n - 1]);
    }
}

/// Symmetry: the chi-squared kernel value of a row pair does not depend on
/// the order of the rows, so `chi2_kernel(x, x)` is a symmetric matrix.
pub proof fn lemma_chi2_symmetric(a: Seq<int>, b: Seq<int>, g: int)
    requires
        a.len() == b.len(),
        forall|d: int| 0 <= d < a.len() ==> i64::MIN <= #[trigger] a[d] <= i64::MAX,
        forall|d: int| 0 <= d < b.len() ==> i64::MIN <= #[trigger] b[d] <= i64::MAX,
    ensures
        chi2_val(a, b, g) == chi2_val(b, a, g),
{
    lemma_chi2_acc_symmetric(a, b, a.len() as int);
}

/// Symmetry at matrix level: for any two rows of one matrix `x`, the two
/// opposite cells that the contract of [`chi2_kernel`] pins for
/// `chi2_kernel(x, x, gamma)` are equal.
pub proof fn lemma_chi2_kernel_symmetric(x: &Vec<Vec<i64>>, g: int, i: int, j: int)
    requires
        pairs_compatible(x, x),
        0 <= i < x@.len(),
        0 <= j < x@.len(),
    ensures
        chi2_val(row(x, i), row(x, j), g) == chi2_val(row(x, j), row(x, i), g),
{
    crate::pairwise_kernel::lemma_row_in_range(x, i);
    crate::pairwise_kernel::lemma_row_in_range(x, j);
    lemma_chi2_symmetric(row(x, i), row(x, j), g);
}

/// Self-similarity: a row compared with itself accumulates exactly zero, so
/// the diagonal of `chi2_kernel(x, x)` is exactly one, whatever `gamma`.
pub proof fn lemma_chi2_self(a: Seq<int>, g: int)
    ensures
        chi2_val(a, a, g) == FX_ONE,
{
    assert forall|n: int| 0 <= n <= a.len() implies chi2_acc(a, a, n) == 0 by {
        lemma_chi2_acc_self(a, n);
    }
    lemma_exp_at_zero();
}

/// Helper: the self-accumulator is zero at every prefix.
proof fn lemma_chi2_acc_self(a: Seq<int>, n: int)
    ensures
        chi2_acc(a, a, n) == 0,
    decreases n,
{
    if n > 0 {
        lemma_chi2_acc_self(a, n - 1);
        lemma_chi2_term_self(a[n - 1]);
    }
}

/// Helper: a feature compared with itself contributes nothing.
proof fn lemma_chi2_term_self(xv: int)
    ensures
        chi2_term(xv, xv) == 0,
{
    let nom = sat_add(xv, xv);
    if nom != 0 {
        vstd::arithmetic::div_mod::lemma_div_basics(crate::fx::mag(nom));
        assert(sat_sub(xv, xv) == 0);
        assert(sat_mul(0, 0) == 0);
        assert(sat_div(0, nom) == 0);
    }
}

/// Helper: with non-negative features the accumulator is non-negative.
proof fn lemma_chi2_acc_nonneg(a: Seq<int>, b: Seq<int>, n: int)
    requires
        n <= a.len(),
        n <= b.len(),
        forall|d: int| 0 <= d < a.len() ==> 0 <= #[trigger] a[d],
        forall|d: int| 0 <= d < b.len() ==> 0 <= #[trigger] b[d],
    ensures
        0 <= chi2_acc(a, b, n),
    decreases n,
{
    if n > 0 {
        lemma_chi2_acc_nonneg(a, b, n - 1);
        let xv = a[n - 1];
        let yv = b[n - 1];
        let s = sat_sub(xv, yv);
        let nom = sat_add(xv, yv);
        assert(0 <= s * s) by (nonlinear_arith);
        vstd::arithmetic::div_mod::lemma_div_pos_is_pos(s * s, 4294967296);
        if nom != 0 {
            let sq = sat_mul(s, s);
            vstd::arithmetic::div_mod::lemma_div_pos_is_pos(
                crate::fx::mag(sq) * 4294967296, crate::fx::mag(nom));
        }
        assert(0 <= chi2_term(xv, yv));
    }
}

/// Range: for non-negative features and `gamma >= 0` the exponent is
/// non-positive, so every chi-squared kernel value lies in `[0, 1]`.  (The
/// true mathematical value is strictly positive; a very large exponent
/// underflows the fixed-point resolution to exactly zero, as floating-point
/// `exp` underflows to `0.0`.)
pub proof fn lemma_chi2_range(a: Seq<int>, b: Seq<int>, g: int)
    requires
        0 <= g,
        a.len() == b.len(),
        forall|d: int| 0 <= d < a.len() ==> 0 <= #[trigger] a[d],
        forall|d: int| 0 <= d < b.len() ==> 0 <= #[trigger] b[d],
    ensures
        0 <= chi2_val(a, b, g),
        chi2_val(a, b, g) <= FX_ONE,
{
    let acc = chi2_acc(a, b, a.len() as int);
    lemma_chi2_acc_nonneg(a, b, a.len() as int);
    assert(0 <= g * acc) by (nonlinear_arith)
        requires
            0 <= g,
            0 <= acc,
    ;
    lemma_exp_nonpos_range(sat_neg(sat_mul(g, acc)));
}

/// Degenerate pair: appending a feature pair whose fixed-point sum is zero
/// (for instance `x_d == -y_d`) leaves the accumulator, and hence the kernel
/// value, unchanged.
pub proof fn lemma_chi2_zero_sum_pair(a: Seq<int>, b: Seq<int>, u: int, v: int, g: int)
    requires
        a.len() == b.len(),
        sat_add(u, v) == 0,
    ensures
        chi2_val(a.push(u), b.push(v), g) == chi2_val(a, b, g),
{
    let n = a.len() as int;
    lemma_chi2_acc_push(a, b, u, v, n);
    assert(chi2_acc(a.push(u), b.push(v), n + 1) == sat_add(
        chi2_acc(a.push(u), b.push(v), n),
        chi2_term(u, v),
    ));
    assert(chi2_term(u, v) == 0);
    lemma_chi2_acc_in_range(a, b, n);
}

/// Helper: the accumulator over a prefix ignores appended features.
proof fn lemma_chi2_acc_push(a: Seq<int>, b: Seq<int>, u: int, v: int, n: int)
    requires
        n <= a.len(),
        n <= b.len(),
    ensures
        chi2_acc(a.push(u), b.push(v), n) == chi2_acc(a, b, n),
    decreases n,
{
    if n > 0 {
        lemma_chi2_acc_push(a, b, u, v, n - 1);
        assert(a.push(u)[n - 1] == a[n - 1]);
        assert(b.push(v)[n - 1] == b[n - 1]);
    }
}

/// Helper: the accumulator always fits the `i64` range.
proof fn lemma_chi2_acc_in_range(a: Seq<int>, b: Seq<int>, n: int)
    ensures
        i64::MIN <= chi2_acc(a, b, n) <= i64::MAX,
    decreases n,
{
    if n > 0 {
        lemma_chi2_acc_in_range(a, b, n - 1);
    }
}

/// The chi-squared kernel matrix: cell `(i, j)` holds
/// `chi2_val(x[i], y[j], gamma)`.
pub fn chi2_kernel(x: &Vec<Vec<i64>>, y: &Vec<Vec<i64>>, gamma: i64) -> (result: Vec<
    Vec<i64>,
>)
    requires
        pairs_compatible(x, y),
    ensures
        result_shape(result@, x@.len() as int, y@.len() as int),
        forall|i: int, j: int|
            0 <= i < x@.len() && 0 <= j < y@.len() ==> (#[trigger] result@[i]@[j]) as int
                == chi2_val(row(x, i), row(y, j), gamma as int),
{
    let f = |a: &Vec<i64>, b: &Vec<i64>| -> (v: i64)
        requires
            a@.len() == b@.len(),
        ensures
            v as int == chi2_val(ints(a@), ints(b@), gamma as int),
        { chi2_scalar(a, b, gamma) };
    let result = pairwise_kernel(x, y, f);
    proof {
        assert forall|i: int, j: int|
            0 <= i < x@.len() && 0 <= j < y@.len() implies (#[trigger] result@[i]@[j]) as int
            == chi2_val(row(x, i), row(y, j), gamma as int) by {
            assert(call_ensures(f, (&x@[i], &y@[j]), result@[i]@[j]));
        }
    }
    result
}

} // verus!
