//! The polynomial kernel: `(gamma * x.y + constant) ^ degree`, the real
//! power applied elementwise to the matrix of row-pair dot products.
//!
//! The degree may be fractional or negative.  Where floating-point `powf`
//! would produce a NaN (a negative base with a fractional degree) the
//! fixed-point power yields zero by policy; see [`crate::trans::pow_val`].

use vstd::prelude::*;
use crate::fx::sat_add;
use crate::fx::sat_mul;
use crate::fx::fx_add;
use crate::fx::fx_mul;
use crate::trans::pow_val;
use crate::trans::fx_pow;
use crate::pairwise_kernel::ints;
use crate::pairwise_kernel::row;
use crate::pairwise_kernel::pairs_compatible;
use crate::pairwise_kernel::result_shape;
use crate::pairwise_kernel::pairwise_kernel;
use crate::pairwise_kernel::dot_val;
use crate::pairwise_kernel::row_dot;

verus! {

/// The polynomial kernel value of one row pair.
pub open spec fn poly_val(a: Seq<int>, b: Seq<int>, g: int, c: int, d: int) -> int {
    pow_val(sat_add(sat_mul(g, dot_val(a, b)), c), d)
}

/// The polynomial kernel matrix: cell `(i, j)` holds
/// `poly_val(x[i], y[j], gamma, constant, degree)`.
pub fn polynomial_kernel(
    x: &Vec<Vec<i64>>,
    y: &Vec<Vec<i64>>,
    gamma: i64,
    constant: i64,
    degree: i64,
) -> (result: Vec<Vec<i64>>)
    requires
        pairs_compatible(x, y),
    ensures
        result_shape(result@, x@.len() as int, y@.len() as int),
        forall|i: int, j: int|
            0 <= i < x@.len() && 0 <= j < y@.len() ==> (#[trigger] result@[i]@[j]) as int
                == poly_val(row(x, i), row(y, j), gamma as int, constant as int, degree as int),
{
    let f = |a: &Vec<i64>, b: &Vec<i64>| -> (v: i64)
        requires
            a@.len() == b@.len(),
        ensures
            v as int == poly_val(ints(a@), ints(b@), gamma as int, constant as int,
                degree as int),
        {
            fx_pow(fx_add(fx_mul(gamma, row_dot(a, b)), constant), degree)
        };
    let result = pairwise_kernel(x, y, f);
    proof {
        assert forall|i: int, j: int|
            0 <= i < x@.len() && 0 <= j < y@.len() implies (#[trigger] result@[i]@[j]) as int
            == poly_val(row(x, i), row(y, j), gamma as int, constant as int, degree as int) by {
            assert(call_ensures(f, (&x@[i], &y@[j]), result@[i]@[j]));
        }
    }
    result
}

} // verus!
