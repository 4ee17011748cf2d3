//! The cosine similarity kernel: `x.y / ((||x|| + eps) * (||y|| + eps))`.
//!
//! The epsilon term keeps the denominator away from zero for zero rows:
//! similarity against a zero vector is governed by the stabilised
//! denominator rather than raising an error.  In the fixed-point domain a
//! zero row makes the whole denominator underflow to zero, and the division
//! policy ([`crate::fx::sat_div`]) then yields zero — the degenerate value
//! is pinned by the contract, not left undefined.
//!
//! [`cosine_kernel`] accumulates the inner product and the two squared norms
//! in one fused pass per pair (the default, numerically transparent form);
//! [`cosine_kernel_matrix`] normalises each row once and takes plain dot
//! products, the matrix-algebra shortcut.

use vstd::prelude::*;
use crate::fx::sat_add;
use crate::fx::sat_mul;
use crate::fx::sat_div;
use crate::fx::sqrt_val;
use crate::fx::fx_add;
use crate::fx::fx_mul;
use crate::fx::fx_div;
use crate::fx::fx_sqrt;
use crate::pairwise_kernel::ints;
use crate::pairwise_kernel::row;
use crate::pairwise_kernel::pairs_compatible;
use crate::pairwise_kernel::result_shape;
use crate::pairwise_kernel::pairwise_kernel;
use crate::pairwise_kernel::dot_val;
use crate::pairwise_kernel::dot_acc;
use crate::pairwise_kernel::row_dot;
use crate::pairwise_kernel::lemma_dot_symmetric;
use crate::pairwise_kernel::lemma_dot_self_nonneg;

verus! {

/// The epsilon that stabilises the norms: 1e-8, rounded to Q32.32.
pub const FX_EPS: i64 = 43;

/// A row's stabilised norm: `sqrt(||a||^2) + eps`.
pub open spec fn norm_val(a: Seq<int>) -> int {
    sat_add(sqrt_val(dot_val(a, a)), FX_EPS as int)
}

/// The cosine value of one row pair, fused-pass strategy.
pub open spec fn cos_val(a: Seq<int>, b: Seq<int>) -> int {
    sat_div(dot_val(a, b), sat_mul(norm_val(a), norm_val(b)))
}

/// A row divided by its own stabilised norm.
pub open spec fn normed(a: Seq<int>) -> Seq<int> {
    Seq::new(a.len(), |d: int| sat_div(a[d], norm_val(a)))
}

/// The cosine value of one row pair, matrix-algebra strategy: the dot
/// product of the two normalised rows.
pub open spec fn cos_mat_val(a: Seq<int>, b: Seq<int>) -> int {
    dot_val(normed(a), normed(b))
}

/// Per-pair scalar: one fused pass accumulates the inner product and both
/// squared norms, then the stabilised quotient is taken.
fn cosine_scalar(a: &Vec<i64>, b: &Vec<i64>) -> (v: i64)
    requires
        a@.len() == b@.len(),
    ensures
        v as int == cos_val(ints(a@), ints(b@)),
{
    let mut inner: i64 = 0;
    let mut x_sq: i64 = 0;
    let mut y_sq: i64 = 0;
    let mut d: usize = 0;
    while d < a.len()
        invariant
            a@.len() == b@.len(),
            d <= a@.len(),
            inner as int == dot_acc(ints(a@), ints(b@), d as int),
            x_sq as int == dot_acc(ints(a@), ints(a@), d as int),
            y_sq as int == dot_acc(ints(b@), ints(b@), d as int),
        decreases a@.len() - d,
    {
        inner = fx_add(inner, fx_mul(a[d], b[d]));
        x_sq = fx_add(x_sq, fx_mul(a[d], a[d]));
        y_sq = fx_add(y_sq, fx_mul(b[d], b[d]));
        d += 1;
    }
    proof {
        lemma_dot_self_nonneg(ints(a@), a@.len() as int);
        lemma_dot_self_nonneg(ints(b@), b@.len() as int);
    }
    let x_norm: i64 = fx_add(fx_sqrt(x_sq), FX_EPS);
    let y_norm: i64 = fx_add(fx_sqrt(y_sq), FX_EPS);
    fx_div(inner, fx_mul(x_norm, y_norm))
}

/// The cosine kernel matrix (fused-pass strategy, the default): cell
/// `(i, j)` holds `cos_val(x[i], y[j])`.
pub fn cosine_kernel(x: &Vec<Vec<i64>>, y: &Vec<Vec<i64>>) -> (result: Vec<Vec<i64>>)
    requires
        pairs_compatible(x, y),
    ensures
        result_shape(result@, x@.len() as int, y@.len() as int),
        forall|i: int, j: int|
            0 <= i < x@.len() && 0 <= j < y@.len() ==> (#[trigger] result@[i]@[j]) as int
                == cos_val(row(x, i), row(y, j)),
{
    let f = |a: &Vec<i64>, b: &Vec<i64>| -> (v: i64)
        requires
            a@.len() == b@.len(),
        ensures
            v as int == cos_val(ints(a@), ints(b@)),
        { cosine_scalar(a, b) };
    let result = pairwise_kernel(x, y, f);
    proof {
        assert forall|i: int, j: int|
            0 <= i < x@.len() && 0 <= j < y@.len() implies (#[trigger] result@[i]@[j]) as int
            == cos_val(row(x, i), row(y, j)) by {
            assert(call_ensures(f, (&x@[i], &y@[j]), result@[i]@[j]));
        }
    }
    result
}

/// Divides every feature of a row by the row's stabilised norm.
fn normalize_row(a: &Vec<i64>) -> (out: Vec<i64>)
    ensures
        ints(out@) == normed(ints(a@)),
{
    proof {
        lemma_dot_self_nonneg(ints(a@), a@.len() as int);
    }
    let s: i64 = row_dot(a, a);
    let nrm: i64 = fx_add(fx_sqrt(s), FX_EPS);
    let mut out: Vec<i64> = Vec::new();
    let mut d: usize = 0;
    while d < a.len()
        invariant
            d <= a@.len(),
            out@.len() == d,
            nrm as int == norm_val(ints(a@)),
            forall|d2: int|
                0 <= d2 < d ==> (#[trigger] out@[d2]) as int == sat_div(
                    ints(a@)[d2],
                    norm_val(ints(a@)),
                ),
        decreases a@.len() - d,
    {
        out.push(fx_div(a[d], nrm));
        d += 1;
    }
    proof {
        assert(ints(out@) =~= normed(ints(a@)));
    }
    out
}

/// The cosine kernel matrix by the matrix-algebra strategy: normalise every
/// row of `x` and of `y` once, then take plain dot products; cell `(i, j)`
/// holds `cos_mat_val(x[i], y[j])`.
pub fn cosine_kernel_matrix(x: &Vec<Vec<i64>>, y: &Vec<Vec<i64>>) -> (result: Vec<Vec<i64>>)
    requires
        pairs_compatible(x, y),
    ensures
        result_shape(result@, x@.len() as int, y@.len() as int),
        forall|i: int, j: int|
            0 <= i < x@.len() && 0 <= j < y@.len() ==> (#[trigger] result@[i]@[j]) as int
                == cos_mat_val(row(x, i), row(y, j)),
{
    let mut xn: Vec<Vec<i64>> = Vec::new();
    let mut i: usize = 0;
    while i < x.len()
        invariant
            i <= x@.len(),
            xn@.len() == i,
            forall|i2: int| 0 <= i2 < i ==> ints(#[trigger] xn@[i2]@) == normed(row(x, i2)),
        decreases x@.len() - i,
    {
        xn.push(normalize_row(&x[i]));
        i += 1;
    }
    let mut yn: Vec<Vec<i64>> = Vec::new();
    let mut j: usize = 0;
    while j < y.len()
        invariant
            j <= y@.len(),
            yn@.len() == j,
            forall|j2: int| 0 <= j2 < j ==> ints(#[trigger] yn@[j2]@) == normed(row(y, j2)),
        decreases y@.len() - j,
    {
        yn.push(normalize_row(&y[j]));
        j += 1;
    }
    let f = |a: &Vec<i64>, b: &Vec<i64>| -> (v: i64)
        requires
            a@.len() == b@.len(),
        ensures
            v as int == dot_val(ints(a@), ints(b@)),
        { row_dot(a, b) };
    proof {
        assert forall|i2: int, j2: int|
            0 <= i2 < xn@.len() && 0 <= j2 < yn@.len() implies #[trigger] xn@[i2]@.len()
            == #[trigger] yn@[j2]@.len() by {
            assert(ints(xn@[i2]@) == normed(row(x, i2)));
            assert(ints(yn@[j2]@) == normed(row(y, j2)));
            assert(xn@[i2]@.len() == ints(xn@[i2]@).len());
            assert(yn@[j2]@.len() == ints(yn@[j2]@).len());
        }
    }
    let result = pairwise_kernel(&xn, &yn, f);
    proof {
        assert forall|i2: int, j2: int|
            0 <= i2 < x@.len() && 0 <= j2 < y@.len() implies (#[trigger] result@[i2]@[j2]) as int
            == cos_mat_val(row(x, i2), row(y, j2)) by {
            assert(call_ensures(f, (&xn@[i2], &yn@[j2]), result@[i2]@[j2]));
            assert(ints(xn@[i2]@) == normed(row(x, i2)));
            assert(ints(yn@[j2]@) == normed(row(y, j2)));
        }
    }
    result
}

/// Symmetry: the cosine value of a row pair does not depend on the order of
/// the rows, so `cosine_kernel(x, x)` is a symmetric matrix.
pub proof fn lemma_cosine_symmetric(a: Seq<int>, b: Seq<int>)
    requires
        a.len() == b.len(),
    ensures
        cos_val(a, b) == cos_val(b, a),
{
    lemma_dot_symmetric(a, b, a.len() as int);
    let na = norm_val(a);
    let nb = norm_val(b);
    assert(na * nb == nb * na) by (nonlinear_arith);
}

/// Helper: a dot product with an all-zero row accumulates exactly zero.
proof fn lemma_dot_zero_row(a: Seq<int>, b: Seq<int>, n: int)
    requires
        forall|d: int| 0 <= d < b.len() ==> #[trigger] b[d] == 0,
        n <= b.len(),
    ensures
        dot_acc(a, b, n) == 0,
    decreases n,
{
    if n > 0 {
        lemma_dot_zero_row(a, b, n - 1);
        assert(a[n - 1] * b[n - 1] == 0) by (nonlinear_arith)
            requires
                b[n - 1] == 0,
        ;
    }
}

/// The degenerate policy, pinned: similarity against an all-zero row is
/// exactly zero.  The inner product vanishes, so whatever the stabilised
/// denominator underflows to, the quotient is zero.
pub proof fn lemma_cosine_zero_row(a: Seq<int>, b: Seq<int>)
    requires
        a.len() == b.len(),
        forall|d: int| 0 <= d < b.len() ==> #[trigger] b[d] == 0,
    ensures
        cos_val(a, b) == 0,
{
    lemma_dot_zero_row(a, b, a.len() as int);
    let den = sat_mul(norm_val(a), norm_val(b));
    if den != 0 {
        vstd::arithmetic::div_mod::lemma_div_basics(crate::fx::mag(den));
        assert(crate::fx::sat_div(0, den) == 0);
    }
}

/// Helper: a grid row with a nonzero feature has a squared norm of at least
/// one.
proof fn lemma_grid_self_dot_lower(a: Seq<int>, n: int, d: int)
    requires
        crate::pairwise_kernel::grid_row(a),
        0 <= d < n <= a.len(),
        n <= 256,
        a[d] != 0,
    ensures
        dot_acc(a, a, n) >= crate::fx::FX_ONE,
    decreases n,
{
    crate::pairwise_kernel::lemma_cs_grid(a, a, n - 1);
    let u = a[n - 1];
    crate::pairwise_kernel::lemma_grid_mul(u, u);
    if d == n - 1 {
        vstd::arithmetic::div_mod::lemma_fundamental_div_mod(u, 4294967296);
        let k = u / 4294967296;
        assert(k != 0);
        assert(u * u >= 4294967296 * 4294967296) by (nonlinear_arith)
            requires
                u == 4294967296 * k,
                k != 0,
        ;
        assert(sat_mul(u, u) >= crate::fx::FX_ONE);
    } else {
        lemma_grid_self_dot_lower(a, n - 1, d);
        assert(0 <= u * u) by (nonlinear_arith);
    }
}

/// Range on grid rows: where the fixed-point arithmetic is exact,
/// Cauchy-Schwarz holds outright and the stabilised quotient lies in
/// `[-1, 1]` — no epsilon slack is even needed there.
pub proof fn lemma_cosine_range_grid(a: Seq<int>, b: Seq<int>)
    requires
        crate::pairwise_kernel::grid_row(a),
        crate::pairwise_kernel::grid_row(b),
        a.len() == b.len(),
        a.len() <= 256,
    ensures
        -crate::fx::FX_ONE <= cos_val(a, b),
        cos_val(a, b) <= crate::fx::FX_ONE,
{
    let one: int = 4294967296;
    let n = a.len() as int;
    crate::pairwise_kernel::lemma_cs_grid(a, b, n);
    let s = dot_val(a, b);
    let p = dot_val(a, a);
    let q = dot_val(b, b);
    let den = sat_mul(norm_val(a), norm_val(b));
    if s == 0 {
        if den != 0 {
            vstd::arithmetic::div_mod::lemma_div_basics(crate::fx::mag(den));
        }
        assert(cos_val(a, b) == 0);
    } else {
        // a zero row on either side would make the inner product zero
        if forall|d: int| 0 <= d < a.len() ==> #[trigger] a[d] == 0 {
            lemma_dot_symmetric(a, b, n);
            lemma_dot_zero_row(b, a, n);
            assert(false);
        }
        if forall|d: int| 0 <= d < b.len() ==> #[trigger] b[d] == 0 {
            lemma_dot_zero_row(a, b, n);
            assert(false);
        }
        let da = choose|d: int| 0 <= d < a.len() && a[d] != 0;
        let db = choose|d: int| 0 <= d < b.len() && b[d] != 0;
        lemma_grid_self_dot_lower(a, n, da);
        lemma_grid_self_dot_lower(b, n, db);
        // square roots of the two norms
        crate::fx::lemma_sqrt_floor(p * one);
        crate::fx::lemma_sqrt_floor(q * one);
        let sa = crate::fx::sqrt_floor(p * one);
        let sb = crate::fx::sqrt_floor(q * one);
        assert(sa <= 0x800000000000) by (nonlinear_arith)
            requires
                0 <= sa,
                sa * sa <= p * one,
                p * one <= 0x400000000000000000000000,
                one == 4294967296,
        ;
        assert(sb <= 0x800000000000) by (nonlinear_arith)
            requires
                0 <= sb,
                sb * sb <= q * one,
                q * one <= 0x400000000000000000000000,
                one == 4294967296,
        ;
        // both norms are at least one
        assert(sa >= one) by (nonlinear_arith)
            requires
                p * one >= one * one,
                p * one < (sa + 1) * (sa + 1),
                0 <= sa,
                one == 4294967296,
        ;
        assert(sb >= one) by (nonlinear_arith)
            requires
                q * one >= one * one,
                q * one < (sb + 1) * (sb + 1),
                0 <= sb,
                one == 4294967296,
        ;
        // |inner| * one stays below (sa + 1) * (sb + 1)
        assert(crate::fx::mag(s) * one < (sa + 1) * (sb + 1)) by (nonlinear_arith)
            requires
                s * s <= p * q,
                p * one < (sa + 1) * (sa + 1),
                q * one < (sb + 1) * (sb + 1),
                0 <= p,
                0 <= q,
                0 <= sa,
                0 <= sb,
                s != 0,
                crate::fx::mag(s) == if s < 0 { -s } else { s },
                one == 4294967296,
        ;
        // the denominator, rescaled, dominates (sa + 1) * (sb + 1)
        let na = norm_val(a);
        let nb = norm_val(b);
        assert(na == sa + 43 && nb == sb + 43);
        let dd = (na * nb) / one;
        assert(0 <= na * nb) by (nonlinear_arith)
            requires
                0 <= na,
                0 <= nb,
        ;
        vstd::arithmetic::div_mod::lemma_fundamental_div_mod(na * nb, one);
        vstd::arithmetic::div_mod::lemma_div_pos_is_pos(na * nb, one);
        assert(dd * one > na * nb - one);
        assert(na * nb >= (sa + 1) * (sb + 1) + one) by (nonlinear_arith)
            requires
                na == sa + 43,
                nb == sb + 43,
                sa >= one,
                sb >= one,
                one == 4294967296,
        ;
        assert(dd <= 0x4000000000400000) by (nonlinear_arith)
            requires
                dd * one <= na * nb,
                0 <= dd,
                0 <= na <= 0x800000000000 + 43,
                0 <= nb <= 0x800000000000 + 43,
                one == 4294967296,
        ;
        assert(den == dd);
        assert(dd * one > crate::fx::mag(s) * one);
        assert(dd > crate::fx::mag(s));
        // the quotient of the division is therefore at most one
        let qq = (crate::fx::mag(s) * one) / crate::fx::mag(dd);
        assert(crate::fx::mag(dd) == dd);
        vstd::arithmetic::div_mod::lemma_div_is_ordered(
            crate::fx::mag(s) * one, dd * one, dd);
        vstd::arithmetic::div_mod::lemma_div_multiples_vanish(one, dd);
        assert((dd * one) / dd == one);
        assert(qq <= one);
        vstd::arithmetic::div_mod::lemma_div_pos_is_pos(crate::fx::mag(s) * one, dd);
        assert(cos_val(a, b) == sat_div(s, den));
    }
}

/// Symmetry at matrix level: for any two rows of one matrix `x`, the two
/// opposite cells that the contract of [`cosine_kernel`] pins for
/// `cosine_kernel(x, x)` are equal.
pub proof fn lemma_cosine_kernel_symmetric(x: &Vec<Vec<i64>>, i: int, j: int)
    requires
        pairs_compatible(x, x),
        0 <= i < x@.len(),
        0 <= j < x@.len(),
    ensures
        cos_val(row(x, i), row(x, j)) == cos_val(row(x, j), row(x, i)),
{
    lemma_cosine_symmetric(row(x, i), row(x, j));
}

} // verus!
