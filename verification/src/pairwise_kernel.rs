//! The generic pairwise engine.
//!
//! [`pairwise_kernel`] applies a scalar function to every pair of one row of
//! `x` and one row of `y` and collects the results in a row-major matrix.
//! Its contract carries the scalar function's own contract through to every
//! cell, so each kernel pins its result matrix by instantiating the engine
//! with a closure whose `ensures` names the kernel formula.  Iteration order
//! is an implementation detail: the contract only says what every cell holds.

use vstd::prelude::*;
use crate::fx::sat_add;
use crate::fx::sat_mul;
use crate::fx::fx_add;
use crate::fx::fx_mul;

verus! {

/// The mathematical values of a row of fixed-point scalars.
pub open spec fn ints(s: Seq<i64>) -> Seq<int> {
    s.map_values(|v: i64| v as int)
}

/// Row `i` of a row-major matrix, as mathematical integers.
pub open spec fn row(m: &Vec<Vec<i64>>, i: int) -> Seq<int> {
    ints(m@[i]@)
}

/// Every row of `x` has the same feature count as every row of `y`: the
/// shape precondition of all kernels.
pub open spec fn pairs_compatible(x: &Vec<Vec<i64>>, y: &Vec<Vec<i64>>) -> bool {
    forall|i: int, j: int|
        0 <= i < x@.len() && 0 <= j < y@.len() ==> #[trigger] x@[i]@.len()
            == #[trigger] y@[j]@.len()
}

/// The result matrix has one row per row of `x` and one column per row of
/// `y`: the shape guarantee of all kernels.
pub open spec fn result_shape(r: Seq<Vec<i64>>, nx: int, ny: int) -> bool {
    r.len() == nx && forall|i: int| 0 <= i < nx ==> #[trigger] r[i]@.len() == ny
}

/// Saturating fixed-point dot product of the first `n` features.
pub open spec fn dot_acc(a: Seq<int>, b: Seq<int>, n: int) -> int
    decreases n,
{
    if n <= 0 {
        0
    } else {
        sat_add(dot_acc(a, b, n - 1), sat_mul(a[n - 1], b[n - 1]))
    }
}

/// Saturating fixed-point dot product of two rows.
pub open spec fn dot_val(a: Seq<int>, b: Seq<int>) -> int {
    dot_acc(a, b, a.len() as int)
}

/// A row the fixed-point arithmetic handles exactly: every feature is an
/// integer (no fractional bits) of magnitude at most 1024.
pub open spec fn grid_row(a: Seq<int>) -> bool {
    forall|d: int|
        0 <= d < a.len() ==> (#[trigger] a[d]) % 4294967296 == 0 && -0x40000000000 <= a[d]
            <= 0x40000000000
}

/// On grid values the fixed-point product is exact: `sat_mul(u, v)` is the
/// true real product, with neither truncation nor saturation.
pub proof fn lemma_grid_mul(u: int, v: int)
    requires
        u % 4294967296 == 0,
        v % 4294967296 == 0,
        -0x80000000000 <= u <= 0x80000000000,
        -0x80000000000 <= v <= 0x80000000000,
    ensures
        sat_mul(u, v) * 4294967296 == u * v,
        -0x40000000000000 <= sat_mul(u, v) <= 0x40000000000000,
{
    let one = 4294967296;
    vstd::arithmetic::div_mod::lemma_fundamental_div_mod(u, one);
    vstd::arithmetic::div_mod::lemma_fundamental_div_mod(v, one);
    let al = u / one;
    let be = v / one;
    assert(-0x800 <= al <= 0x800);
    assert(-0x800 <= be <= 0x800);
    let k = al * be * one;
    assert(u * v == k * one && -0x40000000000000 <= k <= 0x40000000000000)
        by (nonlinear_arith)
        requires
            u == one * al,
            v == one * be,
            -0x800 <= al <= 0x800,
            -0x800 <= be <= 0x800,
            one == 4294967296,
            k == al * be * one,
    ;
    if u * v >= 0 {
        vstd::arithmetic::div_mod::lemma_fundamental_div_mod_converse_div(
            u * v, one, k, 0);
    } else {
        vstd::arithmetic::div_mod::lemma_fundamental_div_mod_converse_div(
            -(u * v), one, -k, 0);
    }
}

/// Cauchy–Schwarz on grid rows: the fixed-point sums are exact there, so the
/// squared inner product is bounded by the product of the squared norms,
/// and every partial accumulator is bounded (no saturation occurs).
pub proof fn lemma_cs_grid(a: Seq<int>, b: Seq<int>, n: int)
    requires
        grid_row(a),
        grid_row(b),
        0 <= n <= a.len(),
        n <= b.len(),
        n <= 256,
    ensures
        dot_acc(a, b, n) * dot_acc(a, b, n) <= dot_acc(a, a, n) * dot_acc(b, b, n),
        -n * 0x40000000000000 <= dot_acc(a, b, n) <= n * 0x40000000000000,
        0 <= dot_acc(a, a, n) <= n * 0x40000000000000,
        0 <= dot_acc(b, b, n) <= n * 0x40000000000000,
    decreases n,
{
    if n > 0 {
        lemma_cs_grid(a, b, n - 1);
        let u = a[n - 1];
        let v = b[n - 1];
        lemma_grid_mul(u, v);
        lemma_grid_mul(u, u);
        lemma_grid_mul(v, v);
        let s0 = dot_acc(a, b, n - 1);
        let p0 = dot_acc(a, a, n - 1);
        let q0 = dot_acc(b, b, n - 1);
        let muv = sat_mul(u, v);
        let muu = sat_mul(u, u);
        let mvv = sat_mul(v, v);
        assert(0 <= u * u && 0 <= v * v) by (nonlinear_arith);
        assert(dot_acc(a, b, n) == s0 + muv);
        assert(dot_acc(a, a, n) == p0 + muu);
        assert(dot_acc(b, b, n) == q0 + mvv);
        // the last feature alone satisfies Cauchy-Schwarz with equality
        assert(muv * muv * 18446744073709551616 == muu * mvv * 18446744073709551616)
            by (nonlinear_arith)
            requires
                muv * 4294967296 == u * v,
                muu * 4294967296 == u * u,
                mvv * 4294967296 == v * v,
        ;
        assert(muv * muv == muu * mvv);
        // the cross term obeys the two-square bound
        assert(2 * s0 * (u * v) <= p0 * (v * v) + q0 * (u * u)) by {
            let x = 2 * s0 * (u * v);
            let y = p0 * (v * v) + q0 * (u * u);
            assert(y * y >= 4 * (p0 * q0) * ((u * v) * (u * v))) by (nonlinear_arith)
                requires
                    y == p0 * (v * v) + q0 * (u * u),
            ;
            assert(x * x == 4 * (s0 * s0) * ((u * v) * (u * v))) by (nonlinear_arith)
                requires
                    x == 2 * s0 * (u * v),
            ;
            assert(4 * (s0 * s0) * ((u * v) * (u * v)) <= 4 * (p0 * q0) * ((u * v) * (u
                * v))) by (nonlinear_arith)
                requires
                    s0 * s0 <= p0 * q0,
            ;
            assert(y >= 0) by (nonlinear_arith)
                requires
                    y == p0 * (v * v) + q0 * (u * u),
                    p0 >= 0,
                    q0 >= 0,
            ;
            assert(x <= y) by (nonlinear_arith)
                requires
                    x * x <= y * y,
                    y >= 0,
            ;
        }
        assert(2 * s0 * muv <= p0 * mvv + q0 * muu) by (nonlinear_arith)
            requires
                2 * s0 * (u * v) <= p0 * (v * v) + q0 * (u * u),
                muv * 4294967296 == u * v,
                muu * 4294967296 == u * u,
                mvv * 4294967296 == v * v,
        ;
        assert((s0 + muv) * (s0 + muv) <= (p0 + muu) * (q0 + mvv)) by (nonlinear_arith)
            requires
                s0 * s0 <= p0 * q0,
                muv * muv == muu * mvv,
                2 * s0 * muv <= p0 * mvv + q0 * muu,
        ;
    }
}

/// Every feature of a matrix row is an `i64` value, so its mathematical
/// image lies in the `i64` range.
pub proof fn lemma_row_in_range(m: &Vec<Vec<i64>>, i: int)
    ensures
        forall|d: int|
            0 <= d < row(m, i).len() ==> i64::MIN <= #[trigger] row(m, i)[d] <= i64::MAX,
{
    assert forall|d: int|
        0 <= d < row(m, i).len() implies i64::MIN <= #[trigger] row(m, i)[d] <= i64::MAX by {
        assert(row(m, i)[d] == m@[i]@[d] as int);
    }
}

/// The dot product is symmetric in its two rows.
pub proof fn lemma_dot_symmetric(a: Seq<int>, b: Seq<int>, n: int)
    ensures
        dot_acc(a, b, n) == dot_acc(b, a, n),
    decreases n,
{
    if n > 0 {
        lemma_dot_symmetric(a, b, n - 1);
        assert(a[n - 1] * b[n - 1] == b[n - 1] * a[n - 1]) by (nonlinear_arith);
    }
}

/// A row's dot product with itself is non-negative.
pub proof fn lemma_dot_self_nonneg(a: Seq<int>, n: int)
    ensures
        0 <= dot_acc(a, a, n),
    decreases n,
{
    if n > 0 {
        lemma_dot_self_nonneg(a, n - 1);
        let v = a[n - 1];
        assert(0 <= v * v) by (nonlinear_arith);
        vstd::arithmetic::div_mod::lemma_div_pos_is_pos(v * v, 4294967296);
    }
}

/// Dot product of two rows, pinned to [`dot_val`].
pub fn row_dot(a: &Vec<i64>, b: &Vec<i64>) -> (r: i64)
    requires
        a@.len() == b@.len(),
    ensures
        r as int == dot_val(ints(a@), ints(b@)),
{
    let mut acc: i64 = 0;
    let mut d: usize = 0;
    while d < a.len()
        invariant
            a@.len() == b@.len(),
            d <= a@.len(),
            acc as int == dot_acc(ints(a@), ints(b@), d as int),
        decreases a@.len() - d,
    {
        acc = fx_add(acc, fx_mul(a[d], b[d]));
        d += 1;
    }
    acc
}

/// Applies `pairwise_fn` to every (row of `x`, row of `y`) pair: cell
/// `(i, j)` of the result holds `pairwise_fn(x[i], y[j])`.  The engine is
/// the shared skeleton of the kernels; it promises of each cell exactly what
/// the scalar function's own contract promises of its result.
pub fn pairwise_kernel<F: Fn(&Vec<i64>, &Vec<i64>) -> i64>(
    x: &Vec<Vec<i64>>,
    y: &Vec<Vec<i64>>,
    pairwise_fn: F,
) -> (result: Vec<Vec<i64>>)
    requires
        forall|i: int, j: int|
            0 <= i < x@.len() && 0 <= j < y@.len() ==> #[trigger] call_requires(
                pairwise_fn,
                (&x@[i], &y@[j]),
            ),
    ensures
        result_shape(result@, x@.len() as int, y@.len() as int),
        forall|i: int, j: int|
            0 <= i < x@.len() && 0 <= j < y@.len() ==> #[trigger] call_ensures(
                pairwise_fn,
                (&x@[i], &y@[j]),
                result@[i]@[j],
            ),
{
    let mut result: Vec<Vec<i64>> = Vec::new();
    let mut i: usize = 0;
    while i < x.len()
        invariant
            i <= x@.len(),
            result@.len() == i,
            forall|i2: int, j2: int|
                0 <= i2 < x@.len() && 0 <= j2 < y@.len() ==> #[trigger] call_requires(
                    pairwise_fn,
                    (&x@[i2], &y@[j2]),
                ),
            forall|i2: int| 0 <= i2 < i ==> #[trigger] result@[i2]@.len() == y@.len(),
            forall|i2: int, j2: int|
                0 <= i2 < i && 0 <= j2 < y@.len() ==> #[trigger] call_ensures(
                    pairwise_fn,
                    (&x@[i2], &y@[j2]),
                    result@[i2]@[j2],
                ),
        decreases x@.len() - i,
    {
        let mut out_row: Vec<i64> = Vec::new();
        let mut j: usize = 0;
        while j < y.len()
            invariant
                i < x@.len(),
                j <= y@.len(),
                out_row@.len() == j,
                forall|i2: int, j2: int|
                    0 <= i2 < x@.len() && 0 <= j2 < y@.len() ==> #[trigger] call_requires(
                        pairwise_fn,
                        (&x@[i2], &y@[j2]),
                    ),
                forall|j2: int|
                    0 <= j2 < j ==> #[trigger] call_ensures(
                        pairwise_fn,
                        (&x@[i as int], &y@[j2]),
                        out_row@[j2],
                    ),
            decreases y@.len() - j,
        {
            let v: i64 = pairwise_fn(&x[i], &y[j]);
            out_row.push(v);
            j += 1;
        }
        result.push(out_row);
        i += 1;
    }
    result
}

} // verus!
