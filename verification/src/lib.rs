//! Dense pairwise kernel (similarity) matrices between two sets of feature
//! vectors, for four kernel families: chi-squared, cosine, polynomial and
//! RBF (Gaussian).
//!
//! Matrices are row-major `Vec<Vec<i64>>` whose entries are Q32.32 fixed-point
//! scalars (see [`fx`]): an `i64` holding `round(value * 2^32)`.  Every kernel
//! entry `(i, j)` depends only on row `i` of `x`, row `j` of `y` and the scalar
//! parameters, and each kernel's contract pins the entry to a spec-level
//! formula over the fixed-point arithmetic.

pub mod fx;
pub mod trans;
pub mod pairwise_kernel;
pub mod chi2;
pub mod cosine;
pub mod polynomial;
pub mod rbf;

pub use fx::fx_add;
pub use fx::fx_sub;
pub use fx::fx_neg;
pub use fx::fx_mul;
pub use fx::fx_div;
pub use fx::FX_ONE;
pub use pairwise_kernel::pairwise_kernel;
pub use pairwise_kernel::row_dot;
pub use chi2::chi2_kernel;
pub use cosine::cosine_kernel;
pub use cosine::cosine_kernel_matrix;
pub use polynomial::polynomial_kernel;
pub use rbf::rbf_kernel;
pub use rbf::rbf_kernel_pairwise;
