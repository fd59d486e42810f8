use genetic_rl::fixed::{HALF_SCALE, SCALE};
use genetic_rl::neuralnetwork::activation::{relu, sigmoid, tanh};
use genetic_rl::neuralnetwork::metrics::{calculate_mse, calculate_mse_time_series};

const ONE: i64 = SCALE;

#[test]
fn relu_exact_values() {
    let out = relu(vec![vec![3 * ONE, -2 * ONE, 0], vec![-1, 1, ONE]]);
    assert_eq!(out, vec![vec![3 * ONE, 0, 0], vec![0, 1, ONE]]);
}

#[test]
fn sigmoid_exact_values() {
    let out = sigmoid(vec![vec![0, ONE, -ONE, 2 * ONE, -2 * ONE, 10 * ONE, -10 * ONE]]);
    assert_eq!(
        out,
        vec![vec![
            HALF_SCALE,
            HALF_SCALE + ONE / 4,
            HALF_SCALE - ONE / 4,
            SCALE,
            0,
            SCALE,
            0,
        ]]
    );
}

#[test]
fn sigmoid_is_symmetric_about_one_half() {
    let xs = vec![vec![1, 5, 123_456, ONE, 3 * ONE / 2]];
    let neg: Vec<Vec<i64>> = vec![xs[0].iter().map(|&x| -x).collect()];
    let up = sigmoid(xs);
    let down = sigmoid(neg);
    for (a, b) in up[0].iter().zip(down[0].iter()) {
        assert_eq!(a + b, SCALE);
    }
}

#[test]
fn tanh_exact_values() {
    let out = tanh(vec![vec![0, ONE / 2, -ONE / 2, ONE, 5 * ONE, -5 * ONE]]);
    assert_eq!(out, vec![vec![0, ONE / 2, -ONE / 2, ONE, SCALE, -SCALE]]);
}

#[test]
fn calculate_mse_exact_value() {
    // Differences 1.0 and 2.0: squares 1.0 and 4.0, mean 2.5.
    let target = vec![vec![ONE, 2 * ONE]];
    let prediction = vec![vec![0, 0]];
    assert_eq!(calculate_mse(&target, &prediction), 5 * ONE / 2);
}

#[test]
fn calculate_mse_zero_for_equal_matrices() {
    let target = vec![vec![ONE, -ONE], vec![ONE / 3, 0]];
    assert_eq!(calculate_mse(&target, &target.clone()), 0);
}

#[test]
fn calculate_mse_time_series_exact_value() {
    // Absolute differences 1.0, 2.0, 3.0 and 1.0: mean 1.75.
    let target = vec![
        vec![vec![ONE, 0]],
        vec![vec![0, -2 * ONE]],
    ];
    let prediction = vec![
        vec![vec![0, 2 * ONE]],
        vec![vec![3 * ONE, -3 * ONE]],
    ];
    assert_eq!(calculate_mse_time_series(&target, &prediction), 7 * ONE / 4);
}
