use genetic_rl::fixed::{clamp, fp_mul, isqrt, SCALE};
use genetic_rl::neuralnetwork::linalgebra::{add_bias, m_addition, m_element_mul, m_substraction,
    mutate_1d, mutate_2d, w_dot_x, w_random_init, W_MAX};

const ONE: i64 = SCALE;

#[test]
fn fp_mul_exact_values() {
    assert_eq!(fp_mul(ONE, ONE), ONE);
    assert_eq!(fp_mul(ONE / 2, ONE / 2), ONE / 4);
    assert_eq!(fp_mul(3 * ONE, -2 * ONE), -6 * ONE);
    assert_eq!(fp_mul(-ONE, -ONE), ONE);
    assert_eq!(fp_mul(0, 123_456), 0);
    // Truncation rounds toward zero on both sides.
    assert_eq!(fp_mul(1, 1), 0);
    assert_eq!(fp_mul(-1, 1), 0);
}

#[test]
fn isqrt_exact_values() {
    assert_eq!(isqrt(0), 0);
    assert_eq!(isqrt(1), 1);
    assert_eq!(isqrt(3), 1);
    assert_eq!(isqrt(4), 2);
    assert_eq!(isqrt(999_999), 999);
    assert_eq!(isqrt(1_000_000_000_000), 1_000_000);
    assert_eq!(isqrt(u64::MAX), 4_294_967_295);
}

#[test]
fn clamp_exact_values() {
    assert_eq!(clamp(5, 0, 10), 5);
    assert_eq!(clamp(-5, 0, 10), 0);
    assert_eq!(clamp(15, 0, 10), 10);
}

#[test]
fn w_dot_x_exact_values() {
    let weights = vec![vec![ONE, 2 * ONE], vec![-ONE, ONE]];
    let inputs = vec![vec![3 * ONE, ONE], vec![ONE / 2, ONE / 2]];
    let out = w_dot_x(&weights, &inputs);
    // Row 0: [3*1 + 1*2, 3*-1 + 1*1] = [5, -2]
    // Row 1: [0.5*1 + 0.5*2, 0.5*-1 + 0.5*1] = [1.5, 0]
    assert_eq!(out, vec![vec![5 * ONE, -2 * ONE], vec![3 * ONE / 2, 0]]);
}

#[test]
fn m_addition_exact_values() {
    let a = vec![vec![ONE, 2 * ONE], vec![3 * ONE, 4 * ONE]];
    let b = vec![vec![10, 20], vec![30, 40]];
    assert_eq!(
        m_addition(&a, &b),
        vec![vec![ONE + 10, 2 * ONE + 20], vec![3 * ONE + 30, 4 * ONE + 40]]
    );
}

#[test]
fn m_substraction_exact_values() {
    let a = vec![vec![ONE, 2 * ONE]];
    let b = vec![vec![10, 20]];
    assert_eq!(m_substraction(&a, &b), vec![vec![ONE - 10, 2 * ONE - 20]]);
}

#[test]
fn m_element_mul_exact_values() {
    let a = vec![vec![ONE / 2, 2 * ONE]];
    let b = vec![vec![ONE / 2, -3 * ONE]];
    assert_eq!(m_element_mul(&a, &b), vec![vec![ONE / 4, -6 * ONE]]);
}

#[test]
fn add_bias_exact_values() {
    let bias = vec![ONE, -ONE];
    let inputs = vec![vec![0, 0], vec![ONE, ONE]];
    assert_eq!(add_bias(&bias, &inputs), vec![vec![ONE, -ONE], vec![2 * ONE, 0]]);
}

#[test]
fn w_random_init_shape_and_amplitude() {
    // If the random source ignored its upper bound, entries would escape
    // the fan amplitude and this test would fail.
    let m = w_random_init(4, 6);
    assert_eq!(m.len(), 6);
    let amp_sq: i64 = 2 * SCALE * SCALE / 10;
    for row in &m {
        assert_eq!(row.len(), 4);
        for &e in row {
            assert!(e * e <= amp_sq, "entry {} out of amplitude", e);
        }
    }
}

#[test]
fn w_random_init_draws_vary() {
    // A constant (or argument-echoing) random source would make two large
    // fresh matrices identical; the genuine one makes that vanishingly
    // unlikely.
    let a = w_random_init(50, 50);
    let b = w_random_init(50, 50);
    assert_ne!(a, b);
}

#[test]
fn mutate_2d_never_grows_a_weight_at_the_cap() {
    // The soft reflecting boundary: at W_MAX the growth range is zero,
    // whatever the rate, so repeated mutation can only shrink the weight.
    for _ in 0..50 {
        let mut weights = vec![vec![W_MAX; 8]; 8];
        mutate_2d(&mut weights, 100 * SCALE);
        for row in &weights {
            for &w in row {
                assert!(w <= W_MAX, "weight {} grew past the cap", w);
            }
        }
    }
}

#[test]
fn mutate_2d_shrink_direction_stays_open_at_the_cap() {
    // At the cap the shrink direction keeps its full range: with enough
    // elements and rounds, some weight must move down.
    let mut moved_down = false;
    for _ in 0..100 {
        let mut weights = vec![vec![W_MAX; 10]; 10];
        mutate_2d(&mut weights, 100 * SCALE);
        if weights.iter().any(|row| row.iter().any(|&w| w < W_MAX)) {
            moved_down = true;
            break;
        }
    }
    assert!(moved_down, "no weight at the cap ever shrank");
}

#[test]
fn mutate_2d_keeps_shape_and_zero_rate_changes_nothing() {
    let orig = vec![vec![ONE, -ONE, ONE / 2], vec![0, ONE / 4, -ONE / 4]];
    let mut weights = orig.clone();
    mutate_2d(&mut weights, 0);
    assert_eq!(weights, orig);
}

#[test]
fn mutate_1d_keeps_length_and_zero_rate_changes_nothing() {
    let orig = vec![ONE, -ONE, 0, ONE / 3];
    let mut bias = orig.clone();
    mutate_1d(&mut bias, 0);
    assert_eq!(bias, orig);
}

#[test]
fn mutate_1d_stays_within_envelope() {
    // At rate 1.0 a bias element can move at most 0.05 in either
    // direction in one round.
    let orig = vec![0i64; 100];
    let mut bias = orig.clone();
    mutate_1d(&mut bias, ONE);
    for &b in &bias {
        assert!(-SCALE / 20 <= b && b <= SCALE / 20, "bias {} escaped its envelope", b);
    }
}
