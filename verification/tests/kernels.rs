use pairwise_kernels::chi2_kernel;
use pairwise_kernels::cosine_kernel;
use pairwise_kernels::cosine_kernel_matrix;
use pairwise_kernels::polynomial_kernel;
use pairwise_kernels::rbf_kernel;
use pairwise_kernels::rbf_kernel_pairwise;
use pairwise_kernels::pairwise_kernel;
use pairwise_kernels::FX_ONE;

/// Converts a real number to its Q32.32 fixed-point representation.
fn fx(v: f64) -> i64 {
    (v * 4294967296.0).round() as i64
}

/// Converts a Q32.32 fixed-point value back to a real number.
fn to_f64(b: i64) -> f64 {
    b as f64 / 4294967296.0
}

/// The matrix `start..start+20` reshaped to 5x4 row-major, in fixed point.
fn range_matrix(start: i64) -> Vec<Vec<i64>> {
    (0..5)
        .map(|r| (0..4).map(|c| fx((start + r * 4 + c) as f64)).collect())
        .collect()
}

fn assert_matrix_close(result: &[Vec<i64>], expected: &[[f64; 5]; 5], epsilon: f64) {
    assert_eq!(result.len(), 5);
    for i in 0..5 {
        assert_eq!(result[i].len(), 5);
        for j in 0..5 {
            let got = to_f64(result[i][j]);
            assert!(
                (got - expected[i][j]).abs() <= epsilon,
                "cell ({}, {}): got {}, expected {}",
                i,
                j,
                got,
                expected[i][j]
            );
        }
    }
}

#[test]
fn test_chi2_kernel() {
    let x = range_matrix(0);
    let y = range_matrix(10);

    let result = chi2_kernel(&x, &y, fx(1.0));

    let expected = [
        [
            1.66529257e-14,
            4.11812542e-21,
            7.73000784e-28,
            1.24623573e-34,
            1.83088295e-41,
        ],
        [
            1.80202638e-04,
            4.28700807e-09,
            1.86259781e-14,
            2.98540324e-20,
            2.53233176e-26,
        ],
        [
            4.62685801e-01,
            3.00735806e-03,
            9.41383015e-07,
            4.31006232e-11,
            5.39587047e-16,
        ],
        [
            5.24563839e-01,
            5.74051233e-01,
            1.24775590e-02,
            1.93942642e-05,
            4.68403060e-09,
        ],
        [
            6.76948903e-03,
            6.14410810e-01,
            6.47898437e-01,
            2.95198283e-02,
            1.34906848e-04,
        ],
    ];
    assert_matrix_close(&result, &expected, 1e-4);
}

#[test]
fn test_cosine_kernel() {
    let x = range_matrix(0);
    let y = range_matrix(10);

    let result = cosine_kernel(&x, &y);

    let expected = [
        [0.85584885, 0.84270097, 0.83467719, 0.82927778, 0.82539834],
        [0.99463515, 0.99175012, 0.98975383, 0.98831736, 0.98724115],
        [0.99979532, 0.99898125, 0.99820794, 0.99757828, 0.99707412],
        [0.99989794, 0.99994358, 0.99967854, 0.99938445, 0.99911832],
        [0.99945175, 0.99996633, 0.99997869, 0.99986779, 0.99973164],
    ];
    assert_matrix_close(&result, &expected, 1e-4);
}

#[test]
fn polynomial_test_polynomial_kernel() {
    let x = range_matrix(0);
    let y = range_matrix(10);
    let gamma = fx(0.1);
    let consant = fx(2.0);
    let degree = fx(-1.0);

    let result = polynomial_kernel(&x, &y, gamma, consant, degree);

    let expected = [
        [0.10638298, 0.08474576, 0.07042254, 0.06024096, 0.05263158],
        [0.03597122, 0.0273224, 0.02202643, 0.01845018, 0.01587302],
        [0.02164502, 0.01628664, 0.01305483, 0.01089325, 0.00934579],
        [0.01547988, 0.01160093, 0.00927644, 0.00772798, 0.00662252],
        [0.01204819, 0.00900901, 0.00719424, 0.00598802, 0.00512821],
    ];
    assert_matrix_close(&result, &expected, 1e-4);
}

#[test]
fn rbf_test_polynomial_kernel() {
    let x = range_matrix(0);
    let y = range_matrix(10);
    let gamma = fx(0.002);

    let result = rbf_kernel(&x, &y, gamma);

    let expected = [
        [0.44932896, 0.20846169, 0.07487015, 0.02081669, 0.00448059],
        [0.74976159, 0.44932896, 0.20846169, 0.07487015, 0.02081669],
        [0.96850658, 0.74976159, 0.44932896, 0.20846169, 0.07487015],
        [0.96850658, 0.96850658, 0.74976159, 0.44932896, 0.20846169],
        [0.74976159, 0.96850658, 0.96850658, 0.74976159, 0.44932896],
    ];
    assert_matrix_close(&result, &expected, 1e-4);
}

#[test]
fn symmetry_on_self_comparison() {
    let x = range_matrix(3);
    let chi2 = chi2_kernel(&x, &x, fx(0.7));
    let cos = cosine_kernel(&x, &x);
    let rbf_m = rbf_kernel(&x, &x, fx(0.01));
    let rbf_p = rbf_kernel_pairwise(&x, &x, fx(0.01));
    for i in 0..5 {
        for j in 0..5 {
            assert_eq!(chi2[i][j], chi2[j][i]);
            assert_eq!(cos[i][j], cos[j][i]);
            assert_eq!(rbf_m[i][j], rbf_m[j][i]);
            assert_eq!(rbf_p[i][j], rbf_p[j][i]);
        }
    }
}

#[test]
fn self_similarity_diagonal_is_one() {
    let x = range_matrix(5);
    let chi2 = chi2_kernel(&x, &x, fx(1.3));
    let rbf_m = rbf_kernel(&x, &x, fx(2.5));
    let rbf_p = rbf_kernel_pairwise(&x, &x, fx(2.5));
    for i in 0..5 {
        assert_eq!(chi2[i][i], FX_ONE);
        assert_eq!(rbf_m[i][i], FX_ONE);
        assert_eq!(rbf_p[i][i], FX_ONE);
    }
}

#[test]
fn range_bounds() {
    let x = range_matrix(0);
    let y = range_matrix(10);
    let chi2 = chi2_kernel(&x, &y, fx(0.5));
    let rbf = rbf_kernel(&x, &y, fx(0.03));
    let cos = cosine_kernel(&x, &y);
    for i in 0..5 {
        for j in 0..5 {
            assert!(0 <= chi2[i][j] && chi2[i][j] <= FX_ONE);
            assert!(0 <= rbf[i][j] && rbf[i][j] <= FX_ONE);
            // on integer inputs the cosine bound holds without epsilon slack
            assert!(-FX_ONE <= cos[i][j] && cos[i][j] <= FX_ONE);
        }
    }
}

#[test]
fn shape_law() {
    let x: Vec<Vec<i64>> = vec![vec![fx(1.0), fx(2.0), fx(3.0)], vec![fx(4.0), fx(5.0), fx(6.0)]];
    let y: Vec<Vec<i64>> = vec![
        vec![fx(0.0), fx(1.0), fx(0.5)],
        vec![fx(2.0), fx(2.0), fx(2.0)],
        vec![fx(-1.0), fx(0.0), fx(1.0)],
        vec![fx(3.0), fx(1.0), fx(4.0)],
    ];
    for result in [
        chi2_kernel(&x, &y, fx(1.0)),
        cosine_kernel(&x, &y),
        cosine_kernel_matrix(&x, &y),
        rbf_kernel(&x, &y, fx(1.0)),
        rbf_kernel_pairwise(&x, &y, fx(1.0)),
        polynomial_kernel(&x, &y, fx(1.0), fx(0.0), fx(2.0)),
    ] {
        assert_eq!(result.len(), 2);
        for row in &result {
            assert_eq!(row.len(), 4);
        }
    }
    let empty: Vec<Vec<i64>> = Vec::new();
    assert_eq!(rbf_kernel(&empty, &y, fx(1.0)).len(), 0);
    assert_eq!(chi2_kernel(&x, &empty, fx(1.0))[0].len(), 0);
}

#[test]
fn rbf_strategies_agree_exactly_on_integer_inputs() {
    let x = range_matrix(0);
    let y = range_matrix(10);
    let mat = rbf_kernel(&x, &y, fx(0.002));
    let pair = rbf_kernel_pairwise(&x, &y, fx(0.002));
    for i in 0..5 {
        for j in 0..5 {
            assert_eq!(mat[i][j], pair[i][j]);
        }
    }
}

#[test]
fn cosine_strategies_agree_within_tolerance() {
    let x = range_matrix(0);
    let y = range_matrix(10);
    let fused = cosine_kernel(&x, &y);
    let mat = cosine_kernel_matrix(&x, &y);
    for i in 0..5 {
        for j in 0..5 {
            assert!((to_f64(fused[i][j]) - to_f64(mat[i][j])).abs() <= 1e-4);
        }
    }
}

#[test]
fn chi2_zero_sum_feature_pair_contributes_nothing() {
    // features 5 and -5 sum to zero: the pair must contribute nothing, so
    // the value equals that of the rows with the pair removed
    let with_pair = chi2_kernel(&vec![vec![fx(5.0), fx(3.0)]], &vec![vec![fx(-5.0), fx(1.0)]], fx(1.0));
    let without = chi2_kernel(&vec![vec![fx(3.0)]], &vec![vec![fx(1.0)]], fx(1.0));
    assert_eq!(with_pair[0][0], without[0][0]);
    // two entirely zero rows accumulate nothing at all: exp(0) = 1
    let zeros = chi2_kernel(&vec![vec![0i64, 0]], &vec![vec![0i64, 0]], fx(2.0));
    assert_eq!(zeros[0][0], FX_ONE);
}

#[test]
fn cosine_degenerate_zero_rows() {
    // a zero row underflows the stabilised denominator; the division policy
    // pins the similarity to zero
    let r = cosine_kernel(&vec![vec![0i64, 0]], &vec![vec![fx(1.0), fx(2.0)]]);
    assert_eq!(r[0][0], 0);
    let rr = cosine_kernel(&vec![vec![0i64, 0]], &vec![vec![0i64, 0]]);
    assert_eq!(rr[0][0], 0);
}

#[test]
fn polynomial_integer_and_edge_degrees() {
    // (1.0 * (2*2) + 0) ^ 2 == 16, integer degree on a positive base
    let x = vec![vec![fx(2.0)]];
    let y = vec![vec![fx(2.0)]];
    let sq = polynomial_kernel(&x, &y, fx(1.0), fx(0.0), fx(2.0));
    assert!((to_f64(sq[0][0]) - 16.0).abs() <= 1e-4);
    // negative base, integer degree: (-2)^2 == 4 with the parity rule
    let neg = polynomial_kernel(&x, &y, fx(-1.0), fx(2.0), fx(2.0));
    assert!((to_f64(neg[0][0]) - 4.0).abs() <= 1e-4);
    // negative base, fractional degree: the NaN stand-in is zero
    let nan = polynomial_kernel(&x, &y, fx(-1.0), fx(2.0), fx(0.5));
    assert_eq!(nan[0][0], 0);
    // zero base: 0^0 == 1 and 0^3 == 0
    let zero = polynomial_kernel(&x, &y, fx(0.0), fx(0.0), fx(0.0));
    assert_eq!(zero[0][0], FX_ONE);
    let zero3 = polynomial_kernel(&x, &y, fx(0.0), fx(0.0), fx(3.0));
    assert_eq!(zero3[0][0], 0);
}

#[test]
fn engine_applies_the_scalar_function_per_pair() {
    let x = vec![vec![fx(1.0), fx(2.0)], vec![fx(3.0), fx(4.0)]];
    let y = vec![vec![fx(10.0), fx(20.0)]];
    let result = pairwise_kernel(&x, &y, |a: &Vec<i64>, b: &Vec<i64>| a[0] + b[0]);
    assert_eq!(result.len(), 2);
    assert_eq!(result[0].len(), 1);
    assert_eq!(result[0][0], fx(11.0));
    assert_eq!(result[1][0], fx(13.0));
}
