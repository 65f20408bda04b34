use detrend::system::plan_detrend;
use detrend::system::assemble_system;
use detrend::system::DetrendPlan;
use detrend::gram::gram_matrix;
use detrend::operator::construct_d2;

use nalgebra::DMatrix;
use nalgebra::DVector;

/// Detrend a signal: fit the penalized trend through the library's
/// verified plan and Gram matrix, solve the float system with
/// nalgebra, and return the residual.
fn detrend_signal(z: &[f64], lambda: f64) -> Vec<f64> {
    let t = z.len();
    match plan_detrend(t) {
        DetrendPlan::ReturnUnchanged => z.to_vec(),
        DetrendPlan::FitTrend { gram } => {
            let mut a = DMatrix::<f64>::zeros(t, t);
            for i in 0..t {
                for j in 0..t {
                    let base = if i == j { 1.0 } else { 0.0 };
                    a[(i, j)] = base + lambda * lambda * (gram.get(i, j) as f64);
                }
            }
            let zv = DVector::<f64>::from_column_slice(z);
            let s = a.lu().solve(&zv).expect("failed to solve linear system");
            (0..t).map(|i| z[i] - s[i]).collect()
        }
    }
}

fn reference_input() -> Vec<f64> {
    vec![
        0.256, 0.357, 0.533, 0.372, 0.712, 0.744, 0.761, 0.525, 0.915, 0.725, 0.739, 0.764,
        0.754, 0.718, 0.707, 0.697, 0.699, 0.718, 0.931, 0.829, 0.814,
    ]
}

#[test]
fn test_detrend_signal() {
    let z = reference_input();
    let lambda = 10.0;

    let expected_detrended = vec![
        -0.10157990356948082,
        -0.05846210744017177,
        0.06067148772483172,
        -0.1545786979643745,
        0.13478104072505737,
        0.12229019600561897,
        0.10214044968255054,
        -0.16369941839896396,
        0.20271796710943413,
        -0.004023024259906305,
        -0.001365202645730479,
        0.016288852055814762,
        0.0015502119750396837,
        -0.038132939278303524,
        -0.053327920214212954,
        -0.06922071994990375,
        -0.07546404840044962,
        -0.06701840828142525,
        0.13391033817559939,
        0.01978651282186772,
        -0.00726466587313257,
    ];

    let detrended_signal = detrend_signal(&z, lambda);

    for (computed, expected) in detrended_signal.iter().zip(expected_detrended.iter()) {
        assert!(
            (computed - expected).abs() <= 1e-6,
            "Values are not approximately equal: computed = {}, expected = {}",
            computed,
            expected
        );
    }
}

#[test]
fn test_length_preserved() {
    let z = vec![1.5, -0.25, 3.0, 0.0, 2.5, 1.25, -4.0];
    let out = detrend_signal(&z, 3.0);
    assert_eq!(out.len(), z.len());
}

#[test]
fn test_short_input_identity() {
    let z = vec![0.5, 0.6];
    let out = detrend_signal(&z, 5.0);
    assert_eq!(out, vec![0.5, 0.6]);

    let one = vec![42.0];
    assert_eq!(detrend_signal(&one, 7.0), vec![42.0]);

    let empty: Vec<f64> = vec![];
    assert_eq!(detrend_signal(&empty, 7.0), empty);
}

#[test]
fn test_sign_invariance() {
    let z = reference_input();
    let pos = detrend_signal(&z, 10.0);
    let neg = detrend_signal(&z, -10.0);
    assert_eq!(pos, neg);
}

#[test]
fn test_small_lambda_near_zero_residual() {
    let z = reference_input();
    let out = detrend_signal(&z, 1e-3);
    for v in out.iter() {
        assert!(v.abs() < 1e-4, "residual {} not near zero", v);
    }
}

#[test]
fn test_not_idempotent() {
    // The smoother is a one-shot estimator, not a projection:
    // detrending the detrended signal changes it again.
    let z = reference_input();
    let once = detrend_signal(&z, 10.0);
    let twice = detrend_signal(&once, 10.0);
    let max_diff = once
        .iter()
        .zip(twice.iter())
        .map(|(a, b)| (a - b).abs())
        .fold(0.0f64, f64::max);
    assert!(max_diff > 1e-9, "re-applying changed nothing");
}

#[test]
fn test_construct_d2_entries() {
    let d2 = construct_d2(5);
    assert_eq!(d2.rows, 3);
    assert_eq!(d2.cols, 5);
    let expected: Vec<Vec<i64>> = vec![
        vec![1, -2, 1, 0, 0],
        vec![0, 1, -2, 1, 0],
        vec![0, 0, 1, -2, 1],
    ];
    assert_eq!(d2.data, expected);
}

#[test]
fn test_gram_matrix_smallest() {
    let g = gram_matrix(3);
    let expected: Vec<Vec<i64>> = vec![vec![1, -2, 1], vec![-2, 4, -2], vec![1, -2, 1]];
    assert_eq!(g.data, expected);
}

#[test]
fn test_gram_matrix_five() {
    let g = gram_matrix(5);
    let expected: Vec<Vec<i64>> = vec![
        vec![1, -2, 1, 0, 0],
        vec![-2, 5, -4, 1, 0],
        vec![1, -4, 6, -4, 1],
        vec![0, 1, -4, 5, -2],
        vec![0, 0, 1, -2, 1],
    ];
    assert_eq!(g.data, expected);
}

#[test]
fn test_gram_matrix_symmetric() {
    let g = gram_matrix(9);
    for i in 0..9 {
        for j in 0..9 {
            assert_eq!(g.data[i][j], g.data[j][i]);
        }
    }
}

#[test]
fn test_assemble_system_values() {
    let a = assemble_system(3, 2);
    // 1 on the diagonal plus lambda^2 = 4 times the Gram entries.
    let expected: Vec<Vec<i64>> = vec![vec![5, -8, 4], vec![-8, 17, -8], vec![4, -8, 5]];
    assert_eq!(a.data, expected);
}

#[test]
fn test_assemble_system_sign_invariant() {
    let pos = assemble_system(7, 11);
    let neg = assemble_system(7, -11);
    assert_eq!(pos.data, neg.data);
}

#[test]
fn test_assemble_system_zero_lambda_identity() {
    let a = assemble_system(6, 0);
    for i in 0..6 {
        for j in 0..6 {
            let expected = if i == j { 1 } else { 0 };
            assert_eq!(a.data[i][j], expected);
        }
    }
}

#[test]
fn test_plan_short_signal_unchanged() {
    assert!(matches!(plan_detrend(0), DetrendPlan::ReturnUnchanged));
    assert!(matches!(plan_detrend(1), DetrendPlan::ReturnUnchanged));
    assert!(matches!(plan_detrend(2), DetrendPlan::ReturnUnchanged));
}

#[test]
fn test_plan_fits_trend_with_gram() {
    match plan_detrend(3) {
        DetrendPlan::ReturnUnchanged => panic!("length 3 must fit a trend"),
        DetrendPlan::FitTrend { gram } => {
            assert_eq!(gram.rows, 3);
            assert_eq!(gram.cols, 3);
            assert_eq!(gram.data, vec![vec![1, -2, 1], vec![-2, 4, -2], vec![1, -2, 1]]);
        }
    }
}

#[test]
fn test_system_matrix_positive_definite_numerically() {
    // The verified lemma states x^T A x > 0 for every nonzero integer
    // vector; cross-check the smallest eigenvalue numerically.
    let t = 12;
    let lam: i64 = 10;
    let a = assemble_system(t, lam);
    let mut af = DMatrix::<f64>::zeros(t, t);
    for i in 0..t {
        for j in 0..t {
            af[(i, j)] = a.data[i][j] as f64;
            assert_eq!(a.data[i][j], a.data[j][i]);
        }
    }
    let eig = af.symmetric_eigen();
    for v in eig.eigenvalues.iter() {
        assert!(*v > 0.0, "eigenvalue {} not positive", v);
    }
}
