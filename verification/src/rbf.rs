//! The RBF (Gaussian) kernel: `exp(-gamma * ||x - y||^2)`.
//!
//! Two strategies compute it.  [`rbf_kernel`] uses the matrix-algebra
//! identity `||x - y||^2 = ||x||^2 - 2 x.y + ||y||^2` over per-row dot
//! products; the combined value is clamped at zero, the guard against the
//! small negative residues that the cancellation in this identity can leave
//! behind.  [`rbf_kernel_pairwise`] accumulates the squared distance feature
//! by feature through the generic engine; it is the numerically transparent
//! form.  On inputs that the fixed-point arithmetic represents exactly,
//! the two agree bit for bit ([`lemma_rbf_strategies_agree`]).

use vstd::prelude::*;
use crate::fx::FX_ONE;
use crate::fx::sat64;
use crate::fx::sat_add;
use crate::fx::sat_sub;
use crate::fx::sat_neg;
use crate::fx::sat_mul;
use crate::fx::fx_add;
use crate::fx::fx_sub;
use crate::fx::fx_mul;
use crate::fx::fx_neg;
use crate::trans::exp_val;
use crate::trans::fx_exp;
use crate::trans::lemma_exp_at_zero;
use crate::trans::lemma_exp_nonpos_range;
use crate::pairwise_kernel::ints;
use crate::pairwise_kernel::row;
use crate::pairwise_kernel::pairs_compatible;
use crate::pairwise_kernel::result_shape;
use crate::pairwise_kernel::pairwise_kernel;
use crate::pairwise_kernel::dot_acc;
use crate::pairwise_kernel::dot_val;
use crate::pairwise_kernel::row_dot;
use crate::pairwise_kernel::lemma_dot_symmetric;
use crate::pairwise_kernel::grid_row;
use crate::pairwise_kernel::lemma_grid_mul;

verus! {

/// Squared distance accumulated over the first `n` features.
pub open spec fn sqdist_acc(a: Seq<int>, b: Seq<int>, n: int) -> int
    decreases n,
{
    if n <= 0 {
        0
    } else {
        sat_add(
            sqdist_acc(a, b, n - 1),
            sat_mul(sat_sub(a[n - 1], b[n - 1]), sat_sub(a[n - 1], b[n - 1])),
        )
    }
}

/// The RBF value of one row pair, pairwise strategy:
/// `exp(-gamma * sum_d (x_d - y_d)^2)`.
pub open spec fn rbf_val(a: Seq<int>, b: Seq<int>, g: int) -> int {
    exp_val(sat_neg(sat_mul(g, sqdist_acc(a, b, a.len() as int))))
}

/// The squared distance as the matrix-algebra strategy forms it:
/// `||x||^2 + ||y||^2 - 2 x.y`, fused in one saturating combination and
/// clamped at zero against cancellation residue.
pub open spec fn sq_comb(xs: int, ys: int, dp: int) -> int {
    let v = sat64(xs + ys - 2 * dp);
    if v < 0 {
        0
    } else {
        v
    }
}

/// The RBF value of one row pair, matrix-algebra strategy.
pub open spec fn rbf_mat_val(a: Seq<int>, b: Seq<int>, g: int) -> int {
    exp_val(sat_neg(sat_mul(g, sq_comb(dot_val(a, a), dot_val(b, b), dot_val(a, b)))))
}

/// Per-pair scalar of the pairwise strategy.
fn rbf_scalar(a: &Vec<i64>, b: &Vec<i64>, gamma: i64) -> (v: i64)
    requires
        a@.len() == b@.len(),
    ensures
        v as int == rbf_val(ints(a@), ints(b@), gamma as int),
{
    let mut acc: i64 = 0;
    let mut d: usize = 0;
    while d < a.len()
        invariant
            a@.len() == b@.len(),
            d <= a@.len(),
            acc as int == sqdist_acc(ints(a@), ints(b@), d as int),
        decreases a@.len() - d,
    {
        let diff: i64 = fx_sub(a[d], b[d]);
        acc = fx_add(acc, fx_mul(diff, diff));
        d += 1;
    }
    fx_exp(fx_neg(fx_mul(gamma, acc)))
}

/// The RBF kernel matrix by the matrix-algebra strategy (the default): cell
/// `(i, j)` holds `rbf_mat_val(x[i], y[j], gamma)`, built from per-row
/// squared norms and the row-pair dot products.
pub fn rbf_kernel(x: &Vec<Vec<i64>>, y: &Vec<Vec<i64>>, gamma: i64) -> (result: Vec<
    Vec<i64>,
>)
    requires
        pairs_compatible(x, y),
    ensures
        result_shape(result@, x@.len() as int, y@.len() as int),
        forall|i: int, j: int|
            0 <= i < x@.len() && 0 <= j < y@.len() ==> (#[trigger] result@[i]@[j]) as int
                == rbf_mat_val(row(x, i), row(y, j), gamma as int),
{
    // squared norms: the diagonals of the two self dot-product matrices
    let mut x_sq: Vec<i64> = Vec::new();
    let mut i: usize = 0;
    while i < x.len()
        invariant
            i <= x@.len(),
            x_sq@.len() == i,
            forall|i2: int|
                0 <= i2 < i ==> (#[trigger] x_sq@[i2]) as int == dot_val(row(x, i2), row(x, i2)),
        decreases x@.len() - i,
    {
        x_sq.push(row_dot(&x[i], &x[i]));
        i += 1;
    }
    let mut y_sq: Vec<i64> = Vec::new();
    let mut j: usize = 0;
    while j < y.len()
        invariant
            j <= y@.len(),
            y_sq@.len() == j,
            forall|j2: int|
                0 <= j2 < j ==> (#[trigger] y_sq@[j2]) as int == dot_val(row(y, j2), row(y, j2)),
        decreases y@.len() - j,
    {
        y_sq.push(row_dot(&y[j], &y[j]));
        j += 1;
    }
    // combine per cell and exponentiate
    let mut result: Vec<Vec<i64>> = Vec::new();
    let mut i: usize = 0;
    while i < x.len()
        invariant
            i <= x@.len(),
            result@.len() == i,
            x_sq@.len() == x@.len(),
            y_sq@.len() == y@.len(),
            pairs_compatible(x, y),
            forall|i2: int|
                0 <= i2 < x@.len() ==> (#[trigger] x_sq@[i2]) as int == dot_val(
                    row(x, i2),
                    row(x, i2),
                ),
            forall|j2: int|
                0 <= j2 < y@.len() ==> (#[trigger] y_sq@[j2]) as int == dot_val(
                    row(y, j2),
                    row(y, j2),
                ),
            forall|i2: int| 0 <= i2 < i ==> (#[trigger] result@[i2]@.len()) == y@.len(),
            forall|i2: int, j2: int|
                0 <= i2 < i && 0 <= j2 < y@.len() ==> (#[trigger] result@[i2]@[j2]) as int
                    == rbf_mat_val(row(x, i2), row(y, j2), gamma as int),
        decreases x@.len() - i,
    {
        let mut out_row: Vec<i64> = Vec::new();
        let mut j: usize = 0;
        while j < y.len()
            invariant
                i < x@.len(),
                j <= y@.len(),
                out_row@.len() == j,
                x_sq@.len() == x@.len(),
                y_sq@.len() == y@.len(),
                pairs_compatible(x, y),
                forall|i2: int|
                    0 <= i2 < x@.len() ==> (#[trigger] x_sq@[i2]) as int == dot_val(
                        row(x, i2),
                        row(x, i2),
                    ),
                forall|j2: int|
                    0 <= j2 < y@.len() ==> (#[trigger] y_sq@[j2]) as int == dot_val(
                        row(y, j2),
                        row(y, j2),
                    ),
                forall|j2: int|
                    0 <= j2 < j ==> (#[trigger] out_row@[j2]) as int == rbf_mat_val(
                        row(x, i as int),
                        row(y, j2),
                        gamma as int,
                    ),
            decreases y@.len() - j,
        {
            let dp: i64 = row_dot(&x[i], &y[j]);
            let comb: i64 = crate::fx::sat_narrow(
                x_sq[i] as i128 + y_sq[j] as i128 - 2 * (dp as i128),
            );
            let dist: i64 = if comb < 0 {
                0
            } else {
                comb
            };
            out_row.push(fx_exp(fx_neg(fx_mul(gamma, dist))));
            j += 1;
        }
        result.push(out_row);
        i += 1;
    }
    result
}

/// The RBF kernel matrix by the pairwise strategy: cell `(i, j)` holds
/// `rbf_val(x[i], y[j], gamma)`.
pub fn rbf_kernel_pairwise(x: &Vec<Vec<i64>>, y: &Vec<Vec<i64>>, gamma: i64) -> (result: Vec<
    Vec<i64>,
>)
    requires
        pairs_compatible(x, y),
    ensures
        result_shape(result@, x@.len() as int, y@.len() as int),
        forall|i: int, j: int|
            0 <= i < x@.len() && 0 <= j < y@.len() ==> (#[trigger] result@[i]@[j]) as int
                == rbf_val(row(x, i), row(y, j), gamma as int),
{
    let f = |a: &Vec<i64>, b: &Vec<i64>| -> (v: i64)
        requires
            a@.len() == b@.len(),
        ensures
            v as int == rbf_val(ints(a@), ints(b@), gamma as int),
        { rbf_scalar(a, b, gamma) };
    let result = pairwise_kernel(x, y, f);
    proof {
        assert forall|i: int, j: int|
            0 <= i < x@.len() && 0 <= j < y@.len() implies (#[trigger] result@[i]@[j]) as int
            == rbf_val(row(x, i), row(y, j), gamma as int) by {
            assert(call_ensures(f, (&x@[i], &y@[j]), result@[i]@[j]));
        }
    }
    result
}

/// Helper: the squared distance over a prefix is non-negative.
proof fn lemma_sqdist_nonneg(a: Seq<int>, b: Seq<int>, n: int)
    ensures
        0 <= sqdist_acc(a, b, n),
    decreases n,
{
    if n > 0 {
        lemma_sqdist_nonneg(a, b, n - 1);
        let s = sat_sub(a[n - 1], b[n - 1]);
        assert(0 <= s * s) by (nonlinear_arith);
        vstd::arithmetic::div_mod::lemma_div_pos_is_pos(s * s, 4294967296);
    }
}

/// Helper: the squared distance from a row to itself is zero.
proof fn lemma_sqdist_self(a: Seq<int>, n: int)
    ensures
        sqdist_acc(a, a, n) == 0,
    decreases n,
{
    if n > 0 {
        lemma_sqdist_self(a, n - 1);
        assert(sat_sub(a[n - 1], a[n - 1]) == 0);
        assert(sat_mul(0, 0) == 0);
    }
}

/// Helper: the squared distance is symmetric.
proof fn lemma_sqdist_symmetric(a: Seq<int>, b: Seq<int>, n: int)
    requires
        n <= a.len(),
        n <= b.len(),
        forall|d: int| 0 <= d < a.len() ==> i64::MIN <= #[trigger] a[d] <= i64::MAX,
        forall|d: int| 0 <= d < b.len() ==> i64::MIN <= #[trigger] b[d] <= i64::MAX,
    ensures
        sqdist_acc(a, b, n) == sqdist_acc(b, a, n),
    decreases n,
{
    if n > 0 {
        lemma_sqdist_symmetric(a, b, n - 1);
        crate::fx::lemma_sat_sub_sq_symmetric(a[n - 1], b[n - 1]);
    }
}

/// Symmetry (pairwise strategy): the RBF value of a row pair does not depend
/// on the order of the rows, so `rbf_kernel_pairwise(x, x)` is symmetric.
pub proof fn lemma_rbf_symmetric(a: Seq<int>, b: Seq<int>, g: int)
    requires
        a.len() == b.len(),
        forall|d: int| 0 <= d < a.len() ==> i64::MIN <= #[trigger] a[d] <= i64::MAX,
        forall|d: int| 0 <= d < b.len() ==> i64::MIN <= #[trigger] b[d] <= i64::MAX,
    ensures
        rbf_val(a, b, g) == rbf_val(b, a, g),
{
    lemma_sqdist_symmetric(a, b, a.len() as int);
}

/// Symmetry (matrix-algebra strategy): the combined squared-norm form is
/// symmetric as well, so `rbf_kernel(x, x)` is a symmetric matrix.
pub proof fn lemma_rbf_mat_symmetric(a: Seq<int>, b: Seq<int>, g: int)
    requires
        a.len() == b.len(),
    ensures
        rbf_mat_val(a, b, g) == rbf_mat_val(b, a, g),
{
    lemma_dot_symmetric(a, b, a.len() as int);
}

/// Symmetry at matrix level: for any two rows of one matrix `x`, the two
/// opposite cells that the contracts of [`rbf_kernel`] and
/// [`rbf_kernel_pairwise`] pin for a comparison of `x` with itself are
/// equal, under either strategy.
pub proof fn lemma_rbf_kernel_symmetric(x: &Vec<Vec<i64>>, g: int, i: int, j: int)
    requires
        pairs_compatible(x, x),
        0 <= i < x@.len(),
        0 <= j < x@.len(),
    ensures
        rbf_val(row(x, i), row(x, j), g) == rbf_val(row(x, j), row(x, i), g),
        rbf_mat_val(row(x, i), row(x, j), g) == rbf_mat_val(row(x, j), row(x, i), g),
{
    crate::pairwise_kernel::lemma_row_in_range(x, i);
    crate::pairwise_kernel::lemma_row_in_range(x, j);
    lemma_rbf_symmetric(row(x, i), row(x, j), g);
    lemma_rbf_mat_symmetric(row(x, i), row(x, j), g);
}

/// Self-similarity (pairwise strategy): the distance from a row to itself is
/// zero, so the diagonal of `rbf_kernel_pairwise(x, x)` is exactly one,
/// whatever `gamma`.
pub proof fn lemma_rbf_self(a: Seq<int>, g: int)
    ensures
        rbf_val(a, a, g) == FX_ONE,
{
    lemma_sqdist_self(a, a.len() as int);
    lemma_exp_at_zero();
}

/// Self-similarity (matrix-algebra strategy): on the diagonal the three dot
/// products coincide, the combination cancels exactly, and the kernel value
/// is exactly one, whatever `gamma`.
pub proof fn lemma_rbf_mat_self(a: Seq<int>, g: int)
    ensures
        rbf_mat_val(a, a, g) == FX_ONE,
{
    assert(sq_comb(dot_val(a, a), dot_val(a, a), dot_val(a, a)) == 0);
    lemma_exp_at_zero();
}

/// Range (pairwise strategy): for `gamma >= 0` the exponent is non-positive,
/// so every RBF value lies in `[0, 1]`.  (The true mathematical value is
/// strictly positive; a very large exponent underflows the fixed-point
/// resolution to exactly zero, as floating-point `exp` underflows to `0.0`.)
pub proof fn lemma_rbf_range(a: Seq<int>, b: Seq<int>, g: int)
    requires
        0 <= g,
    ensures
        0 <= rbf_val(a, b, g),
        rbf_val(a, b, g) <= FX_ONE,
{
    let acc = sqdist_acc(a, b, a.len() as int);
    lemma_sqdist_nonneg(a, b, a.len() as int);
    assert(0 <= g * acc) by (nonlinear_arith)
        requires
            0 <= g,
            0 <= acc,
    ;
    lemma_exp_nonpos_range(sat_neg(sat_mul(g, acc)));
}

/// Range (matrix-algebra strategy): the clamp makes the combined squared
/// distance non-negative outright, so for `gamma >= 0` every value of
/// `rbf_kernel` lies in `[0, 1]` as well.
pub proof fn lemma_rbf_mat_range(a: Seq<int>, b: Seq<int>, g: int)
    requires
        0 <= g,
    ensures
        0 <= rbf_mat_val(a, b, g),
        rbf_mat_val(a, b, g) <= FX_ONE,
{
    let c = sq_comb(dot_val(a, a), dot_val(b, b), dot_val(a, b));
    assert(0 <= g * c) by (nonlinear_arith)
        requires
            0 <= g,
            0 <= c,
    ;
    lemma_exp_nonpos_range(sat_neg(sat_mul(g, c)));
}

/// On grid rows every partial accumulator is exact and bounded: the squared
/// distance really equals `||a||^2 + ||b||^2 - 2 a.b` with no rounding.
proof fn lemma_rbf_exact_acc(a: Seq<int>, b: Seq<int>, n: int)
    requires
        0 <= n <= a.len(),
        n <= b.len(),
        n <= 256,
        grid_row(a),
        grid_row(b),
    ensures
        sqdist_acc(a, b, n) == dot_acc(a, a, n) + dot_acc(b, b, n) - 2 * dot_acc(a, b, n),
        -n * 0x40000000000000 <= dot_acc(a, b, n) <= n * 0x40000000000000,
        -n * 0x40000000000000 <= dot_acc(a, a, n) <= n * 0x40000000000000,
        -n * 0x40000000000000 <= dot_acc(b, b, n) <= n * 0x40000000000000,
        0 <= sqdist_acc(a, b, n) <= n * 0x40000000000000,
    decreases n,
{
    if n > 0 {
        lemma_rbf_exact_acc(a, b, n - 1);
        let u = a[n - 1];
        let v = b[n - 1];
        lemma_grid_mul(u, v);
        lemma_grid_mul(u, u);
        lemma_grid_mul(v, v);
        assert(sat_sub(u, v) == u - v);
        assert((u - v) % 4294967296 == 0) by {
            vstd::arithmetic::div_mod::lemma_fundamental_div_mod(u, 4294967296);
            vstd::arithmetic::div_mod::lemma_fundamental_div_mod(v, 4294967296);
            vstd::arithmetic::div_mod::lemma_fundamental_div_mod_converse_mod(
                u - v, 4294967296, u / 4294967296 - v / 4294967296, 0);
        }
        lemma_grid_mul(u - v, u - v);
        assert(sat_mul(u - v, u - v) == sat_mul(u, u) + sat_mul(v, v) - 2 * sat_mul(u, v))
            by {
            assert((u - v) * (u - v) == u * u + v * v - 2 * (u * v)) by (nonlinear_arith);
        }
        assert(dot_acc(a, b, n) == dot_acc(a, b, n - 1) + sat_mul(u, v));
        assert(dot_acc(a, a, n) == dot_acc(a, a, n - 1) + sat_mul(u, u));
        assert(dot_acc(b, b, n) == dot_acc(b, b, n - 1) + sat_mul(v, v));
        assert(sqdist_acc(a, b, n) == sqdist_acc(a, b, n - 1) + sat_mul(u - v, u - v));
        lemma_sqdist_nonneg(a, b, n);
    }
}

/// Strategy equivalence: on rows the fixed-point arithmetic represents
/// exactly (integer features of magnitude at most 1024, at most 256
/// features) the matrix-algebra strategy of [`rbf_kernel`] and the pairwise
/// strategy of [`rbf_kernel_pairwise`] agree bit for bit: no cancellation
/// residue, no truncation, the same exponent, the same cell.
pub proof fn lemma_rbf_strategies_agree(a: Seq<int>, b: Seq<int>, g: int)
    requires
        a.len() == b.len(),
        a.len() <= 256,
        grid_row(a),
        grid_row(b),
    ensures
        rbf_mat_val(a, b, g) == rbf_val(a, b, g),
{
    let n = a.len() as int;
    lemma_rbf_exact_acc(a, b, n);
    assert(sq_comb(dot_val(a, a), dot_val(b, b), dot_val(a, b)) == sqdist_acc(a, b, n));
}

} // verus!
