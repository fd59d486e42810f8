use genetic_rl::fixed::SCALE;
use genetic_rl::neuralnetwork::layer::{GRULayer, LinearLayer};

// One unit on the fixed-point scale.
const ONE: i64 = SCALE;

#[test]
fn test_linear_layer() {
    let mut layer = LinearLayer::new(3, 2);
    layer.set_weights(
        vec![vec![ONE, 2 * ONE, 3 * ONE], vec![2 * ONE, 3 * ONE, 4 * ONE]],
        vec![0, 0],
    );

    let input = vec![vec![ONE, ONE, ONE], vec![ONE / 2, ONE, 3 * ONE / 2]];

    let output = layer.forward(&input);
    let target_output = vec![vec![6 * ONE, 9 * ONE], vec![7 * ONE, 10 * ONE]];

    assert_eq!(output, target_output);
}

#[test]
fn linear_layer_bias_is_added() {
    let mut layer = LinearLayer::new(2, 2);
    layer.set_weights(vec![vec![ONE, 0], vec![0, ONE]], vec![ONE / 4, -ONE / 4]);
    let output = layer.forward(&vec![vec![ONE, 2 * ONE]]);
    assert_eq!(output, vec![vec![ONE + ONE / 4, 2 * ONE - ONE / 4]]);
}

#[test]
fn linear_layer_new_shapes_and_zero_bias() {
    let layer = LinearLayer::new(4, 3);
    assert_eq!(layer.weights.len(), 3);
    for row in &layer.weights {
        assert_eq!(row.len(), 4);
    }
    assert_eq!(layer.bias, vec![0, 0, 0]);
}

#[test]
fn linear_layer_new_weights_within_fan_amplitude() {
    // The fan-in/fan-out amplitude for 3 + 2 features is
    // sqrt(2 * SCALE^2 / 5); squared entries must stay below that square.
    let layer = LinearLayer::new(3, 2);
    let amp_sq: i64 = 2 * SCALE * SCALE / 5;
    for row in &layer.weights {
        for &w in row {
            assert!(w * w <= amp_sq, "weight {} out of amplitude", w);
        }
    }
}

#[test]
fn linear_layer_mutate_keeps_shape() {
    let mut layer = LinearLayer::new(3, 2);
    layer.set_weights(
        vec![vec![ONE, -ONE, 0], vec![ONE / 2, ONE / 4, -ONE / 3]],
        vec![ONE / 10, -ONE / 10],
    );
    let mutated = layer.mutate(ONE);
    assert_eq!(mutated.weights.len(), 2);
    for row in &mutated.weights {
        assert_eq!(row.len(), 3);
    }
    assert_eq!(mutated.bias.len(), 2);
}

#[test]
fn gru_layer_new_shapes() {
    let layer = GRULayer::new(3, 2, 4);
    assert_eq!(layer.w_reset.len(), 2);
    assert_eq!(layer.w_reset[0].len(), 3);
    assert_eq!(layer.u_update.len(), 2);
    assert_eq!(layer.u_update[1].len(), 2);
    assert_eq!(layer.b_candidate, vec![0, 0]);
    assert_eq!(layer.hidden_state, vec![vec![0, 0]; 4]);
}

#[test]
fn gru_reset_zeroes_hidden_state() {
    let mut layer = GRULayer::new(2, 3, 2);
    let input = vec![vec![ONE, -ONE], vec![ONE / 2, ONE / 2]];
    layer.forward(&input);
    layer.forward(&input);
    layer.reset();
    assert_eq!(layer.hidden_state, vec![vec![0, 0, 0], vec![0, 0, 0]]);
}

#[test]
fn gru_reset_keeps_shape_whatever_hidden_held() {
    let mut layer = GRULayer::new(2, 2, 3);
    for _ in 0..5 {
        layer.forward(&vec![vec![3 * ONE, -3 * ONE]; 3]);
    }
    layer.reset();
    assert_eq!(layer.hidden_state.len(), 3);
    for row in &layer.hidden_state {
        assert_eq!(row, &vec![0, 0]);
    }
}

#[test]
fn gru_forward_returns_new_hidden_state() {
    let mut layer = GRULayer::new(2, 2, 1);
    let out = layer.forward(&vec![vec![ONE, ONE]]);
    assert_eq!(out, layer.hidden_state);
    assert_eq!(out.len(), 1);
    assert_eq!(out[0].len(), 2);
}

#[test]
fn gru_hidden_state_stays_within_unit_range() {
    let mut layer = GRULayer::new(2, 2, 2);
    for _ in 0..20 {
        layer.forward(&vec![vec![1000 * ONE, -1000 * ONE], vec![0, 0]]);
        for row in &layer.hidden_state {
            for &h in row {
                assert!(-SCALE <= h && h <= SCALE, "hidden value {} escaped", h);
            }
        }
    }
}

#[test]
fn gru_mutate_leaves_recurrence_and_hidden_untouched() {
    let mut layer = GRULayer::new(2, 2, 1);
    layer.forward(&vec![vec![ONE, -ONE]]);
    let mutated = layer.mutate(ONE);
    assert_eq!(mutated.u_reset, layer.u_reset);
    assert_eq!(mutated.u_update, layer.u_update);
    assert_eq!(mutated.u_candidate, layer.u_candidate);
    assert_eq!(mutated.hidden_state, layer.hidden_state);
}
