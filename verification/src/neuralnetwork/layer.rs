//! The two genome fragments the engine evolves: a stateless dense affine
//! layer and a stateful gated recurrent layer, both over fixed-point
//! scalars.

use crate::fixed::{fp_mul, fp_mul_spec, isqrt, isqrt_spec, lemma_fp_mul_contract,
    lemma_fp_mul_nonneg, tdiv, MAX_DIM, RATE_LIMIT, SCALE, VAL_LIMIT};
use crate::neuralnetwork::activation::{lemma_sigmoid_range, lemma_tanh_range, sigmoid,
    sigmoid_spec, tanh, tanh_spec};
use crate::neuralnetwork::linalgebra::{add_bias, amp_neg_spec, amp_pos_spec, copy_matrix,
    copy_row, dot_spec, init_amplitude_ok, lemma_amp_range, lemma_mat_in_widen,
    lemma_soft_boundary, lemma_vec_in_widen, m_addition, m_element_mul, m_substraction, mat_in,
    mat_shape, mutate_1d, mutate_2d, vec_in, w_dot_x, w_random_init, ADD_LIMIT, BIAS_STEP,
    DOT_LIMIT, WEIGHT_STEP, W_MAX};
use vstd::arithmetic::div_mod::lemma_div_is_ordered_by_denominator;
use vstd::prelude::*;

verus! {

/// The effective weight-matrix mutation rate of a layer: the caller's rate
/// scaled by the fan-in/fan-out coefficient
/// `sqrt(num * SCALE * SCALE / fan)` (in fixed point), so that mutation
/// pressure is comparable across layers of different shape.
pub open spec fn scaled_rate_spec(rate: int, num: int, fan: int) -> int {
    fp_mul_spec(rate, isqrt_spec(num * (SCALE as int) * (SCALE as int) / fan))
}

/// A stateless dense affine layer: a weight matrix (rows = output
/// features, columns = input features) and a bias vector (one entry per
/// output feature).
pub struct LinearLayer {
    pub weights: Vec<Vec<i64>>,
    pub bias: Vec<i64>,
}

impl LinearLayer {
    /// Number of output features.
    pub open spec fn out_features(self) -> int {
        self.weights@.len() as int
    }

    /// Number of input features.
    pub open spec fn in_features(self) -> int {
        if self.weights@.len() > 0 {
            self.weights@[0]@.len() as int
        } else {
            0
        }
    }

    /// Well-formedness: consistent, nonempty, bounded shape — every weight
    /// row as long as the input, one bias entry per output feature, every
    /// scalar within `VAL_LIMIT`.
    pub open spec fn wf(self) -> bool {
        &&& 1 <= self.out_features() <= MAX_DIM
        &&& 1 <= self.in_features() <= MAX_DIM
        &&& mat_shape(self.weights@, self.out_features(), self.in_features())
        &&& self.bias@.len() == self.out_features()
        &&& mat_in(self.weights@, VAL_LIMIT as int)
        &&& vec_in(self.bias@, VAL_LIMIT as int)
    }

    /// A fresh layer: randomly drawn weights at the fan-in/fan-out
    /// amplitude and an all-zero bias.
    pub fn new(input_size: usize, output_size: usize) -> (r: Self)
        requires
            1 <= input_size <= MAX_DIM,
            1 <= output_size <= MAX_DIM,
        ensures
            r.wf(),
            r.in_features() == input_size,
            r.out_features() == output_size,
            forall|j: int| 0 <= j < output_size ==> r.bias@[j] == 0,
            init_amplitude_ok(r.weights@, output_size as int, input_size as int),
    {
        let weights = w_random_init(input_size, output_size);
        let mut bias: Vec<i64> = Vec::new();
        let mut j: usize = 0;
        while j < output_size
            invariant
                0 <= j <= output_size,
                bias@.len() == j,
                forall|k: int| 0 <= k < j ==> bias@[k] == 0,
            decreases output_size - j,
        {
            bias.push(0);
            j = j + 1;
        }
        LinearLayer { weights, bias }
    }

    /// Replaces the parameters wholesale; the arguments must already form
    /// a well-formed layer.
    pub fn set_weights(&mut self, weights: Vec<Vec<i64>>, bias: Vec<i64>)
        requires
            (LinearLayer { weights, bias }).wf(),
        ensures
            final(self).weights == weights,
            final(self).bias == bias,
            final(self).wf(),
    {
        self.weights = weights;
        self.bias = bias;
    }

    /// The affine transform: output feature `j` of each batch row is the
    /// fixed-point dot product of the input row with weight row `j`, plus
    /// `bias[j]`. The layer itself is untouched.
    pub fn forward(&mut self, input: &Vec<Vec<i64>>) -> (r: Vec<Vec<i64>>)
        requires
            old(self).wf(),
            forall|b: int|
                0 <= b < input@.len() ==> (#[trigger] input@[b])@.len() == old(self).in_features(),
            mat_in(input@, VAL_LIMIT as int),
        ensures
            *final(self) == *old(self),
            r@.len() == input@.len(),
            forall|b: int| 0 <= b < r@.len() ==> (#[trigger] r@[b])@.len() == old(
                self,
            ).out_features(),
            forall|b: int, j: int|
                #![trigger r@[b]@[j]]
                0 <= b < r@.len() && 0 <= j < old(self).out_features() ==> r@[b]@[j] == dot_spec(
                    input@[b]@,
                    old(self).weights@[j]@,
                ) + old(self).bias@[j],
    {
        let temp = w_dot_x(&self.weights, input);
        add_bias(&self.bias, &temp)
    }

    /// A perturbed independent copy: weights move inside their
    /// soft-boundary envelopes at the fan-scaled rate, the bias at the
    /// caller's rate. Weights at or beyond `W_MAX` can only shrink, so
    /// well-formedness is preserved.
    pub fn mutate(&self, mutation_rate: i64) -> (r: Self)
        requires
            self.wf(),
            0 <= mutation_rate <= RATE_LIMIT,
        ensures
            r.wf(),
            r.out_features() == self.out_features(),
            r.in_features() == self.in_features(),
            forall|i: int, j: int|
                #![trigger r.weights@[i]@[j]]
                0 <= i < self.out_features() && 0 <= j < self.in_features() ==> {
                    let w0 = self.weights@[i]@[j] as int;
                    let er = scaled_rate_spec(
                        mutation_rate as int,
                        2,
                        self.in_features() + self.out_features(),
                    );
                    w0 - amp_neg_spec(w0, er, WEIGHT_STEP as int) <= r.weights@[i]@[j] <= w0
                        + amp_pos_spec(w0, er, WEIGHT_STEP as int)
                },
            forall|j: int|
                #![trigger r.bias@[j]]
                0 <= j < self.out_features() ==> {
                    let b0 = self.bias@[j] as int;
                    b0 - amp_neg_spec(b0, mutation_rate as int, BIAS_STEP as int) <= r.bias@[j]
                        <= b0 + amp_pos_spec(b0, mutation_rate as int, BIAS_STEP as int)
                },
    {
        let fan: u64 = (self.weights.len() + self.weights[0].len()) as u64;
        let c: u64 = isqrt(2_000_000_000_000u64 / fan);
        proof {
            lemma_div_is_ordered_by_denominator(2_000_000_000_000, 2, fan as int);
            assert(c <= SCALE) by (nonlinear_arith)
                requires
                    (c as int) * (c as int) <= 1_000_000_000_000,
            ;
        }
        let coef: i64 = c as i64;
        proof {
            lemma_fp_mul_nonneg(mutation_rate as int, coef as int);
            lemma_fp_mul_contract(mutation_rate as int, coef as int);
        }
        let wrate: i64 = fp_mul(mutation_rate, coef);
        let mut weights = copy_matrix(&self.weights);
        let mut bias = copy_row(&self.bias);
        mutate_2d(&mut weights, wrate);
        mutate_1d(&mut bias, mutation_rate);
        let r = LinearLayer { weights, bias };
        proof {
            lemma_mutated_matrix_in(self.weights@, r.weights@, wrate as int, WEIGHT_STEP as int);
            lemma_mutated_row_in(self.bias@, r.bias@, mutation_rate as int, BIAS_STEP as int);
        }
        r
    }
}

/// A matrix whose elements stayed inside their soft-boundary envelopes is
/// still bounded by `VAL_LIMIT`: beyond `W_MAX` the growth range is zero,
/// and below it one step cannot overshoot the limit.
proof fn lemma_mutated_matrix_in(m0: Seq<Vec<i64>>, m1: Seq<Vec<i64>>, rate: int, step: int)
    requires
        0 <= rate <= RATE_LIMIT,
        0 <= step <= SCALE,
        mat_in(m0, VAL_LIMIT as int),
        m1.len() == m0.len(),
        forall|i: int| 0 <= i < m0.len() ==> (#[trigger] m1[i])@.len() == m0[i]@.len(),
        forall|i: int, j: int|
            #![trigger m1[i]@[j]]
            0 <= i < m0.len() && 0 <= j < m0[i]@.len() ==> m0[i]@[j] - amp_neg_spec(
                m0[i]@[j] as int,
                rate,
                step,
            ) <= m1[i]@[j] <= m0[i]@[j] + amp_pos_spec(m0[i]@[j] as int, rate, step),
    ensures
        mat_in(m1, VAL_LIMIT as int),
{
    assert forall|i: int, j: int|
        0 <= i < m1.len() && 0 <= j < m1[i]@.len() implies -VAL_LIMIT <= #[trigger] m1[i]@[j]
        <= VAL_LIMIT by {
        lemma_mutated_value_in(m0[i]@[j] as int, m1[i]@[j] as int, rate, step);
    }
}

/// A row whose elements stayed inside their soft-boundary envelopes is
/// still bounded by `VAL_LIMIT`.
proof fn lemma_mutated_row_in(v0: Seq<i64>, v1: Seq<i64>, rate: int, step: int)
    requires
        0 <= rate <= RATE_LIMIT,
        0 <= step <= SCALE,
        vec_in(v0, VAL_LIMIT as int),
        v1.len() == v0.len(),
        forall|j: int|
            #![trigger v1[j]]
            0 <= j < v0.len() ==> v0[j] - amp_neg_spec(v0[j] as int, rate, step) <= v1[j] <= v0[j]
                + amp_pos_spec(v0[j] as int, rate, step),
    ensures
        vec_in(v1, VAL_LIMIT as int),
{
    assert forall|j: int| 0 <= j < v1.len() implies -VAL_LIMIT <= #[trigger] v1[j]
        <= VAL_LIMIT by {
        lemma_mutated_value_in(v0[j] as int, v1[j] as int, rate, step);
    }
}

/// A matrix of one repeated value.
#[verifier::loop_isolation(false)]
fn const_matrix(rows: usize, cols: usize, v: i64) -> (r: Vec<Vec<i64>>)
    ensures
        mat_shape(r@, rows as int, cols as int),
        forall|i: int, j: int|
            #![trigger r@[i]@[j]]
            0 <= i < rows && 0 <= j < cols ==> r@[i]@[j] == v,
{
    let mut r: Vec<Vec<i64>> = Vec::new();
    let mut i: usize = 0;
    while i < rows
        invariant
            0 <= i <= rows,
            r@.len() == i,
            forall|k: int| 0 <= k < i ==> (#[trigger] r@[k])@.len() == cols,
            forall|k: int, j: int|
                #![trigger r@[k]@[j]]
                0 <= k < i && 0 <= j < cols ==> r@[k]@[j] == v,
        decreases rows - i,
    {
        let mut row: Vec<i64> = Vec::new();
        let mut j: usize = 0;
        while j < cols
            invariant
                0 <= j <= cols,
                row@.len() == j,
                forall|k: int| 0 <= k < j ==> row@[k] == v,
            decreases cols - j,
        {
            row.push(v);
            j = j + 1;
        }
        r.push(row);
        i = i + 1;
    }
    r
}

/// A row of one repeated value.
#[verifier::loop_isolation(false)]
fn const_row(n: usize, v: i64) -> (r: Vec<i64>)
    ensures
        r@.len() == n,
        forall|j: int| 0 <= j < n ==> r@[j] == v,
{
    let mut r: Vec<i64> = Vec::new();
    let mut j: usize = 0;
    while j < n
        invariant
            0 <= j <= n,
            r@.len() == j,
            forall|k: int| 0 <= k < j ==> r@[k] == v,
        decreases n - j,
    {
        r.push(v);
        j = j + 1;
    }
    r
}

/// One gating signal before its activation, for every batch row and
/// output feature: `x[b] . w[j] + h[b] . u[j] + bias[j]`.
fn gate_affine(w: &Vec<Vec<i64>>, u: &Vec<Vec<i64>>, bias: &Vec<i64>, x: &Vec<Vec<i64>>, h: &Vec<
    Vec<i64>,
>) -> (r: Vec<Vec<i64>>)
    requires
        x@.len() == h@.len(),
        w@.len() == bias@.len(),
        u@.len() == bias@.len(),
        forall|b: int| 0 <= b < x@.len() ==> (#[trigger] x@[b])@.len() <= MAX_DIM,
        forall|b: int| 0 <= b < h@.len() ==> (#[trigger] h@[b])@.len() <= MAX_DIM,
        forall|b: int, o: int|
            0 <= b < x@.len() && 0 <= o < w@.len() ==> (#[trigger] x@[b])@.len() == (
            #[trigger] w@[o])@.len(),
        forall|b: int, o: int|
            0 <= b < h@.len() && 0 <= o < u@.len() ==> (#[trigger] h@[b])@.len() == (
            #[trigger] u@[o])@.len(),
        mat_in(x@, VAL_LIMIT as int),
        mat_in(h@, VAL_LIMIT as int),
        mat_in(w@, VAL_LIMIT as int),
        mat_in(u@, VAL_LIMIT as int),
        vec_in(bias@, VAL_LIMIT as int),
    ensures
        r@.len() == x@.len(),
        forall|b: int| 0 <= b < r@.len() ==> (#[trigger] r@[b])@.len() == bias@.len(),
        forall|b: int, j: int|
            #![trigger r@[b]@[j]]
            0 <= b < r@.len() && 0 <= j < bias@.len() ==> r@[b]@[j] == dot_spec(x@[b]@, w@[j]@)
                + dot_spec(h@[b]@, u@[j]@) + bias@[j],
        mat_in(r@, ADD_LIMIT as int),
{
    let wx = w_dot_x(w, x);
    let uh = w_dot_x(u, h);
    proof {
        lemma_mat_in_widen(wx@, DOT_LIMIT as int, ADD_LIMIT as int);
        lemma_mat_in_widen(uh@, DOT_LIMIT as int, ADD_LIMIT as int);
    }
    let s = m_addition(&wx, &uh);
    proof {
        assert forall|i: int, j: int|
            0 <= i < s@.len() && 0 <= j < s@[i]@.len() implies -(2 * (DOT_LIMIT as int)) <= (
        #[trigger] s@[i]@[j]) <= 2 * (DOT_LIMIT as int) by {
            assert(-DOT_LIMIT <= wx@[i]@[j] <= DOT_LIMIT);
            assert(-DOT_LIMIT <= uh@[i]@[j] <= DOT_LIMIT);
        }
        lemma_mat_in_widen(s@, 2 * (DOT_LIMIT as int), ADD_LIMIT as int);
        lemma_vec_in_widen(bias@, VAL_LIMIT as int, ADD_LIMIT as int);
    }
    let t = add_bias(bias, &s);
    proof {
        assert forall|i: int, j: int|
            0 <= i < t@.len() && 0 <= j < t@[i]@.len() implies -ADD_LIMIT <= (
        #[trigger] t@[i]@[j]) <= ADD_LIMIT by {
            assert(-(2 * (DOT_LIMIT as int)) <= s@[i]@[j] <= 2 * (DOT_LIMIT as int));
            assert(-VAL_LIMIT <= bias@[j] <= VAL_LIMIT);
        }
    }
    t
}

/// A convex-style gate combination of values inside `[-SCALE, SCALE]`
/// stays inside `[-SCALE, SCALE]`: the gated recurrent update can never
/// let the hidden state escape the unit range.
proof fn lemma_convex_bound(z: int, h: int, hc: int)
    requires
        0 <= z <= SCALE,
        -SCALE <= h <= SCALE,
        -SCALE <= hc <= SCALE,
    ensures
        -SCALE <= fp_mul_spec((SCALE as int) - z, h) + fp_mul_spec(z, hc) <= SCALE,
{
    lemma_fp_mul_contract((SCALE as int) - z, h);
    lemma_fp_mul_contract(z, hc);
}

/// A stateful gated recurrent layer: three weight/recurrence/bias triples
/// (reset gate, update gate, candidate) and a hidden-state matrix that
/// persists across forward calls until explicitly reset.
pub struct GRULayer {
    pub w_reset: Vec<Vec<i64>>,
    pub u_reset: Vec<Vec<i64>>,
    pub b_reset: Vec<i64>,
    pub w_update: Vec<Vec<i64>>,
    pub u_update: Vec<Vec<i64>>,
    pub b_update: Vec<i64>,
    pub w_candidate: Vec<Vec<i64>>,
    pub u_candidate: Vec<Vec<i64>>,
    pub b_candidate: Vec<i64>,
    pub hidden_state: Vec<Vec<i64>>,
}

impl GRULayer {
    /// Number of output features.
    pub open spec fn n_out(self) -> int {
        self.b_update@.len() as int
    }

    /// Number of input features.
    pub open spec fn n_in(self) -> int {
        if self.w_update@.len() > 0 {
            self.w_update@[0]@.len() as int
        } else {
            0
        }
    }

    /// Number of batch rows the hidden state carries.
    pub open spec fn batch(self) -> int {
        self.hidden_state@.len() as int
    }

    /// Well-formedness: all nine parameter blocks agree on the feature
    /// dimensions, every parameter is within `VAL_LIMIT`, and the hidden
    /// state is within `[-SCALE, SCALE]` — the stability invariant every
    /// forward call preserves.
    pub open spec fn wf(self) -> bool {
        &&& 1 <= self.n_out() <= MAX_DIM
        &&& 1 <= self.n_in() <= MAX_DIM
        &&& 1 <= self.batch() <= MAX_DIM
        &&& mat_shape(self.w_reset@, self.n_out(), self.n_in())
        &&& mat_shape(self.w_update@, self.n_out(), self.n_in())
        &&& mat_shape(self.w_candidate@, self.n_out(), self.n_in())
        &&& mat_shape(self.u_reset@, self.n_out(), self.n_out())
        &&& mat_shape(self.u_update@, self.n_out(), self.n_out())
        &&& mat_shape(self.u_candidate@, self.n_out(), self.n_out())
        &&& self.b_reset@.len() == self.n_out()
        &&& self.b_candidate@.len() == self.n_out()
        &&& mat_shape(self.hidden_state@, self.batch(), self.n_out())
        &&& mat_in(self.w_reset@, VAL_LIMIT as int)
        &&& mat_in(self.w_update@, VAL_LIMIT as int)
        &&& mat_in(self.w_candidate@, VAL_LIMIT as int)
        &&& mat_in(self.u_reset@, VAL_LIMIT as int)
        &&& mat_in(self.u_update@, VAL_LIMIT as int)
        &&& mat_in(self.u_candidate@, VAL_LIMIT as int)
        &&& vec_in(self.b_reset@, VAL_LIMIT as int)
        &&& vec_in(self.b_update@, VAL_LIMIT as int)
        &&& vec_in(self.b_candidate@, VAL_LIMIT as int)
        &&& mat_in(self.hidden_state@, SCALE as int)
    }

    /// The update gate for one batch row and output feature.
    pub open spec fn update_gate(self, x: Seq<i64>, h: Seq<i64>, j: int) -> int {
        sigmoid_spec(
            dot_spec(x, self.w_update@[j]@) + dot_spec(h, self.u_update@[j]@)
                + self.b_update@[j],
        )
    }

    /// The reset gate for one batch row and output feature.
    pub open spec fn reset_gate(self, x: Seq<i64>, h: Seq<i64>, j: int) -> int {
        sigmoid_spec(
            dot_spec(x, self.w_reset@[j]@) + dot_spec(h, self.u_reset@[j]@) + self.b_reset@[j],
        )
    }

    /// One batch row of the hidden state, gated elementwise by the reset
    /// gate.
    pub open spec fn gated_hidden(self, x: Seq<i64>, h: Seq<i64>) -> Seq<i64> {
        Seq::new(h.len(), |k: int| fp_mul_spec(self.reset_gate(x, h, k), h[k] as int) as i64)
    }

    /// The candidate value for one batch row and output feature.
    pub open spec fn candidate(self, x: Seq<i64>, h: Seq<i64>, j: int) -> int {
        tanh_spec(
            dot_spec(x, self.w_candidate@[j]@) + dot_spec(
                self.gated_hidden(x, h),
                self.u_candidate@[j]@,
            ) + self.b_candidate@[j],
        )
    }

    /// The new hidden value for one batch row and output feature: the
    /// update gate blends the old hidden value with the candidate.
    pub open spec fn next_hidden(self, x: Seq<i64>, h: Seq<i64>, j: int) -> int {
        let z = self.update_gate(x, h, j);
        fp_mul_spec((SCALE as int) - z, h[j] as int) + fp_mul_spec(z, self.candidate(x, h, j))
    }

    /// A fresh layer: randomly drawn input-facing and recurrent weights,
    /// all-zero biases, and an all-zero hidden state.
    pub fn new(input_size: usize, output_size: usize, batch_size: usize) -> (r: Self)
        requires
            1 <= input_size <= MAX_DIM,
            1 <= output_size <= MAX_DIM,
            1 <= batch_size <= MAX_DIM,
        ensures
            r.wf(),
            r.n_in() == input_size,
            r.n_out() == output_size,
            r.batch() == batch_size,
            forall|b: int, j: int|
                #![trigger r.hidden_state@[b]@[j]]
                0 <= b < batch_size && 0 <= j < output_size ==> r.hidden_state@[b]@[j] == 0,
            forall|j: int| 0 <= j < output_size ==> r.b_reset@[j] == 0,
            forall|j: int| 0 <= j < output_size ==> r.b_update@[j] == 0,
            forall|j: int| 0 <= j < output_size ==> r.b_candidate@[j] == 0,
            init_amplitude_ok(r.w_reset@, output_size as int, input_size as int),
            init_amplitude_ok(r.w_update@, output_size as int, input_size as int),
            init_amplitude_ok(r.w_candidate@, output_size as int, input_size as int),
            init_amplitude_ok(r.u_reset@, output_size as int, output_size as int),
            init_amplitude_ok(r.u_update@, output_size as int, output_size as int),
            init_amplitude_ok(r.u_candidate@, output_size as int, output_size as int),
    {
        let w_reset = w_random_init(input_size, output_size);
        let u_reset = w_random_init(output_size, output_size);
        let b_reset = const_row(output_size, 0);
        let w_update = w_random_init(input_size, output_size);
        let u_update = w_random_init(output_size, output_size);
        let b_update = const_row(output_size, 0);
        let w_candidate = w_random_init(input_size, output_size);
        let u_candidate = w_random_init(output_size, output_size);
        let b_candidate = const_row(output_size, 0);
        let hidden_state = const_matrix(batch_size, output_size, 0);
        GRULayer {
            w_reset,
            u_reset,
            b_reset,
            w_update,
            u_update,
            b_update,
            w_candidate,
            u_candidate,
            b_candidate,
            hidden_state,
        }
    }

    /// One recurrent step over a batched input: computes the update gate,
    /// the reset gate and the candidate, blends them into the new hidden
    /// state, stores it, and returns it. The stability invariant holds
    /// again afterwards: every hidden value stays within
    /// `[-SCALE, SCALE]`.
    pub fn forward(&mut self, input: &Vec<Vec<i64>>) -> (r: Vec<Vec<i64>>)
        requires
            old(self).wf(),
            input@.len() == old(self).batch(),
            forall|b: int|
                0 <= b < input@.len() ==> (#[trigger] input@[b])@.len() == old(self).n_in(),
            mat_in(input@, VAL_LIMIT as int),
        ensures
            final(self).w_reset == old(self).w_reset,
            final(self).u_reset == old(self).u_reset,
            final(self).b_reset == old(self).b_reset,
            final(self).w_update == old(self).w_update,
            final(self).u_update == old(self).u_update,
            final(self).b_update == old(self).b_update,
            final(self).w_candidate == old(self).w_candidate,
            final(self).u_candidate == old(self).u_candidate,
            final(self).b_candidate == old(self).b_candidate,
            final(self).wf(),
            mat_shape(final(self).hidden_state@, old(self).batch(), old(self).n_out()),
            forall|b: int, j: int|
                #![trigger final(self).hidden_state@[b]@[j]]
                0 <= b < old(self).batch() && 0 <= j < old(self).n_out()
                    ==> final(self).hidden_state@[b]@[j] == old(self).next_hidden(
                    input@[b]@,
                    old(self).hidden_state@[b]@,
                    j,
                ),
            r@.len() == old(self).batch(),
            forall|b: int|
                0 <= b < old(self).batch() ==> (#[trigger] r@[b])@
                    == final(self).hidden_state@[b]@,
    {
        let ghost g0 = *self;
        proof {
            lemma_mat_in_widen(self.hidden_state@, SCALE as int, VAL_LIMIT as int);
        }
        let pre_z = gate_affine(&self.w_update, &self.u_update, &self.b_update, input,
            &self.hidden_state);
        let ghost pre_z_v = pre_z@;
        let z = sigmoid(pre_z);
        proof {
            assert forall|b: int, j: int|
                0 <= b < g0.batch() && 0 <= j < g0.n_out() implies 0 <= (#[trigger] z@[b]@[j])
                <= SCALE && z@[b]@[j] == g0.update_gate(
                input@[b]@,
                g0.hidden_state@[b]@,
                j,
            ) by {
                lemma_sigmoid_range(pre_z_v[b]@[j] as int);
            }
        }
        let pre_r = gate_affine(&self.w_reset, &self.u_reset, &self.b_reset, input,
            &self.hidden_state);
        let ghost pre_r_v = pre_r@;
        let rg = sigmoid(pre_r);
        proof {
            assert forall|b: int, j: int|
                0 <= b < g0.batch() && 0 <= j < g0.n_out() implies 0 <= (#[trigger] rg@[b]@[j])
                <= SCALE && rg@[b]@[j] == g0.reset_gate(
                input@[b]@,
                g0.hidden_state@[b]@,
                j,
            ) by {
                lemma_sigmoid_range(pre_r_v[b]@[j] as int);
            }
            lemma_mat_in_widen(rg@, SCALE as int, VAL_LIMIT as int);
        }
        let rh = m_element_mul(&rg, &self.hidden_state);
        proof {
            assert forall|b: int, k: int|
                0 <= b < g0.batch() && 0 <= k < g0.n_out() implies -SCALE <= (
            #[trigger] rh@[b]@[k]) <= SCALE by {
                let xr = input@[b]@;
                let hr = g0.hidden_state@[b]@;
                lemma_sigmoid_range(pre_r_v[b]@[k] as int);
                lemma_fp_mul_contract(rg@[b]@[k] as int, hr[k] as int);
                assert(rh@[b]@[k] == fp_mul_spec(rg@[b]@[k] as int, hr[k] as int));
            }
            assert forall|b: int| 0 <= b < g0.batch() implies (#[trigger] rh@[b])@
                == g0.gated_hidden(input@[b]@, g0.hidden_state@[b]@) by {
                let xr = input@[b]@;
                let hr = g0.hidden_state@[b]@;
                let g = g0.gated_hidden(xr, hr);
                assert forall|k: int| 0 <= k < hr.len() implies rh@[b]@[k] == g[k] by {
                    lemma_fp_mul_contract(g0.reset_gate(xr, hr, k), hr[k] as int);
                    assert(rh@[b]@[k] == fp_mul_spec(rg@[b]@[k] as int, hr[k] as int));
                }
                assert(rh@[b]@ =~= g);
            }
            lemma_mat_in_widen(rh@, SCALE as int, VAL_LIMIT as int);
        }
        let pre_c = gate_affine(&self.w_candidate, &self.u_candidate, &self.b_candidate, input, &rh);
        let ghost pre_c_v = pre_c@;
        let hc = tanh(pre_c);
        proof {
            assert forall|b: int, j: int|
                0 <= b < g0.batch() && 0 <= j < g0.n_out() implies -SCALE <= (
            #[trigger] hc@[b]@[j]) <= SCALE && hc@[b]@[j] == g0.candidate(
                input@[b]@,
                g0.hidden_state@[b]@,
                j,
            ) by {
                lemma_tanh_range(pre_c_v[b]@[j] as int);
                assert(rh@[b]@ == g0.gated_hidden(input@[b]@, g0.hidden_state@[b]@));
            }
        }
        let ones = const_matrix(self.hidden_state.len(), self.b_update.len(), SCALE);
        proof {
            lemma_mat_in_widen(ones@, SCALE as int, ADD_LIMIT as int);
            lemma_mat_in_widen(z@, SCALE as int, ADD_LIMIT as int);
        }
        let omz = m_substraction(&ones, &z);
        proof {
            assert forall|b: int, j: int|
                0 <= b < g0.batch() && 0 <= j < g0.n_out() implies 0 <= (#[trigger] omz@[b]@[j])
                <= SCALE by {
                assert(omz@[b]@[j] == (SCALE as int) - z@[b]@[j]);
            }
            lemma_mat_in_widen(omz@, SCALE as int, VAL_LIMIT as int);
            lemma_mat_in_widen(z@, SCALE as int, VAL_LIMIT as int);
            lemma_mat_in_widen(hc@, SCALE as int, VAL_LIMIT as int);
            lemma_mat_in_widen(self.hidden_state@, SCALE as int, VAL_LIMIT as int);
        }
        let t1 = m_element_mul(&omz, &self.hidden_state);
        let t2 = m_element_mul(&z, &hc);
        proof {
            assert forall|b: int, j: int|
                0 <= b < g0.batch() && 0 <= j < g0.n_out() implies -SCALE <= (
            #[trigger] t1@[b]@[j]) <= SCALE by {
                lemma_fp_mul_contract(omz@[b]@[j] as int, g0.hidden_state@[b]@[j] as int);
            }
            assert forall|b: int, j: int|
                0 <= b < g0.batch() && 0 <= j < g0.n_out() implies -SCALE <= (
            #[trigger] t2@[b]@[j]) <= SCALE by {
                lemma_fp_mul_contract(z@[b]@[j] as int, hc@[b]@[j] as int);
            }
            lemma_mat_in_widen(t1@, SCALE as int, ADD_LIMIT as int);
            lemma_mat_in_widen(t2@, SCALE as int, ADD_LIMIT as int);
        }
        let new_h = m_addition(&t1, &t2);
        proof {
            assert forall|b: int, j: int|
                0 <= b < g0.batch() && 0 <= j < g0.n_out() implies -SCALE <= (
            #[trigger] new_h@[b]@[j]) <= SCALE && new_h@[b]@[j] == g0.next_hidden(
                input@[b]@,
                g0.hidden_state@[b]@,
                j,
            ) by {
                lemma_convex_bound(z@[b]@[j] as int, g0.hidden_state@[b]@[j] as int,
                    hc@[b]@[j] as int);
                assert(new_h@[b]@[j] == t1@[b]@[j] + t2@[b]@[j]);
            }
        }
        self.hidden_state = new_h;
        let out = copy_matrix(&self.hidden_state);
        out
    }

    /// A perturbed independent copy: only the three input-facing weight
    /// matrices move (at the fan-scaled rate) and the three biases (at the
    /// caller's rate); the recurrence matrices and the hidden state are
    /// kept exactly — an asymmetry that the stability of evolved
    /// recurrences rests on.
    pub fn mutate(&self, mutation_rate: i64) -> (r: Self)
        requires
            self.wf(),
            0 <= mutation_rate <= RATE_LIMIT,
        ensures
            r.wf(),
            r.n_out() == self.n_out(),
            r.n_in() == self.n_in(),
            r.batch() == self.batch(),
            mat_eq(r.u_reset@, self.u_reset@),
            mat_eq(r.u_update@, self.u_update@),
            mat_eq(r.u_candidate@, self.u_candidate@),
            mat_eq(r.hidden_state@, self.hidden_state@),
            forall|i: int, j: int|
                #![trigger r.w_reset@[i]@[j]]
                0 <= i < self.n_out() && 0 <= j < self.n_in() ==> gru_weight_enveloped(
                    self.w_reset@[i]@[j] as int,
                    r.w_reset@[i]@[j] as int,
                    mutation_rate as int,
                    self.n_in() + self.n_out(),
                ),
            forall|i: int, j: int|
                #![trigger r.w_update@[i]@[j]]
                0 <= i < self.n_out() && 0 <= j < self.n_in() ==> gru_weight_enveloped(
                    self.w_update@[i]@[j] as int,
                    r.w_update@[i]@[j] as int,
                    mutation_rate as int,
                    self.n_in() + self.n_out(),
                ),
            forall|i: int, j: int|
                #![trigger r.w_candidate@[i]@[j]]
                0 <= i < self.n_out() && 0 <= j < self.n_in() ==> gru_weight_enveloped(
                    self.w_candidate@[i]@[j] as int,
                    r.w_candidate@[i]@[j] as int,
                    mutation_rate as int,
                    self.n_in() + self.n_out(),
                ),
            forall|j: int|
                #![trigger r.b_reset@[j]]
                0 <= j < self.n_out() ==> bias_enveloped(
                    self.b_reset@[j] as int,
                    r.b_reset@[j] as int,
                    mutation_rate as int,
                ),
            forall|j: int|
                #![trigger r.b_update@[j]]
                0 <= j < self.n_out() ==> bias_enveloped(
                    self.b_update@[j] as int,
                    r.b_update@[j] as int,
                    mutation_rate as int,
                ),
            forall|j: int|
                #![trigger r.b_candidate@[j]]
                0 <= j < self.n_out() ==> bias_enveloped(
                    self.b_candidate@[j] as int,
                    r.b_candidate@[j] as int,
                    mutation_rate as int,
                ),
    {
        let fan: u64 = (self.w_reset.len() + self.w_reset[0].len()) as u64;
        let c: u64 = isqrt(1_000_000_000_000u64 / fan);
        proof {
            lemma_div_is_ordered_by_denominator(1_000_000_000_000, 2, fan as int);
            assert(c <= SCALE) by (nonlinear_arith)
                requires
                    (c as int) * (c as int) <= 500_000_000_000,
            ;
        }
        let coef: i64 = c as i64;
        proof {
            lemma_fp_mul_nonneg(mutation_rate as int, coef as int);
            lemma_fp_mul_contract(mutation_rate as int, coef as int);
        }
        let wrate: i64 = fp_mul(mutation_rate, coef);
        let mut w_reset = copy_matrix(&self.w_reset);
        let mut w_update = copy_matrix(&self.w_update);
        let mut w_candidate = copy_matrix(&self.w_candidate);
        let mut b_reset = copy_row(&self.b_reset);
        let mut b_update = copy_row(&self.b_update);
        let mut b_candidate = copy_row(&self.b_candidate);
        mutate_2d(&mut w_reset, wrate);
        mutate_2d(&mut w_update, wrate);
        mutate_2d(&mut w_candidate, wrate);
        mutate_1d(&mut b_reset, mutation_rate);
        mutate_1d(&mut b_update, mutation_rate);
        mutate_1d(&mut b_candidate, mutation_rate);
        let r = GRULayer {
            w_reset,
            u_reset: copy_matrix(&self.u_reset),
            b_reset,
            w_update,
            u_update: copy_matrix(&self.u_update),
            b_update,
            w_candidate,
            u_candidate: copy_matrix(&self.u_candidate),
            b_candidate,
            hidden_state: copy_matrix(&self.hidden_state),
        };
        proof {
            lemma_mutated_matrix_in(self.w_reset@, r.w_reset@, wrate as int, WEIGHT_STEP as int);
            lemma_mutated_matrix_in(self.w_update@, r.w_update@, wrate as int,
                WEIGHT_STEP as int);
            lemma_mutated_matrix_in(self.w_candidate@, r.w_candidate@, wrate as int,
                WEIGHT_STEP as int);
            lemma_mutated_row_in(self.b_reset@, r.b_reset@, mutation_rate as int,
                BIAS_STEP as int);
            lemma_mutated_row_in(self.b_update@, r.b_update@, mutation_rate as int,
                BIAS_STEP as int);
            lemma_mutated_row_in(self.b_candidate@, r.b_candidate@, mutation_rate as int,
                BIAS_STEP as int);
        }
        r
    }

    /// Zeroes the hidden state back to its `(batch, n_out)` shape,
    /// whatever it held; the parameters are untouched.
    pub fn reset(&mut self)
        requires
            old(self).wf(),
        ensures
            final(self).w_reset == old(self).w_reset,
            final(self).u_reset == old(self).u_reset,
            final(self).b_reset == old(self).b_reset,
            final(self).w_update == old(self).w_update,
            final(self).u_update == old(self).u_update,
            final(self).b_update == old(self).b_update,
            final(self).w_candidate == old(self).w_candidate,
            final(self).u_candidate == old(self).u_candidate,
            final(self).b_candidate == old(self).b_candidate,
            final(self).wf(),
            mat_shape(final(self).hidden_state@, old(self).batch(), old(self).n_out()),
            forall|b: int, j: int|
                #![trigger final(self).hidden_state@[b]@[j]]
                0 <= b < old(self).batch() && 0 <= j < old(self).n_out()
                    ==> final(self).hidden_state@[b]@[j] == 0,
    {
        let rows: usize = self.hidden_state.len();
        let cols: usize = self.hidden_state[0].len();
        self.hidden_state = const_matrix(rows, cols, 0);
    }
}

/// The two views of a matrix hold exactly the same rows.
pub open spec fn mat_eq(a: Seq<Vec<i64>>, b: Seq<Vec<i64>>) -> bool {
    a.len() == b.len() && forall|i: int| 0 <= i < a.len() ==> (#[trigger] a[i])@ == b[i]@
}

/// The envelope a recurrent layer's input-facing weight moves in: the
/// soft-boundary range at the rate scaled by the recurrent fan
/// coefficient `sqrt(SCALE * SCALE / fan)`.
pub open spec fn gru_weight_enveloped(w0: int, w1: int, rate: int, fan: int) -> bool {
    let er = scaled_rate_spec(rate, 1, fan);
    w0 - amp_neg_spec(w0, er, WEIGHT_STEP as int) <= w1 <= w0 + amp_pos_spec(
        w0,
        er,
        WEIGHT_STEP as int,
    )
}

/// The envelope a bias element moves in: the soft-boundary range at the
/// caller's unscaled rate.
pub open spec fn bias_enveloped(b0: int, b1: int, rate: int) -> bool {
    b0 - amp_neg_spec(b0, rate, BIAS_STEP as int) <= b1 <= b0 + amp_pos_spec(
        b0,
        rate,
        BIAS_STEP as int,
    )
}

/// One envelope step keeps a scalar within `VAL_LIMIT`: at or beyond
/// `W_MAX` the outward range vanishes, and inside it the step is far too
/// small to reach the limit.
proof fn lemma_mutated_value_in(w0: int, w1: int, rate: int, step: int)
    requires
        0 <= rate <= RATE_LIMIT,
        0 <= step <= SCALE,
        -VAL_LIMIT <= w0 <= VAL_LIMIT,
        w0 - amp_neg_spec(w0, rate, step) <= w1 <= w0 + amp_pos_spec(w0, rate, step),
    ensures
        -VAL_LIMIT <= w1 <= VAL_LIMIT,
{
    lemma_amp_range(w0, rate, step);
    lemma_soft_boundary(w0, rate, step);
    assert(tdiv(step * rate, SCALE as int) <= RATE_LIMIT) by {
        assert(step * rate <= (SCALE as int) * (RATE_LIMIT as int)) by (nonlinear_arith)
            requires
                0 <= step <= SCALE,
                0 <= rate <= RATE_LIMIT,
        ;
        crate::fixed::lemma_tdiv_mono(step * rate, (SCALE as int) * (RATE_LIMIT as int),
            SCALE as int);
        vstd::arithmetic::div_mod::lemma_div_multiples_vanish(RATE_LIMIT as int, SCALE as int);
    };
    if w0 >= W_MAX {
        assert(w1 <= w0 <= VAL_LIMIT);
    } else {
        assert(w1 <= w0 + RATE_LIMIT < VAL_LIMIT);
    }
    if w0 <= -(W_MAX as int) {
        assert(w1 >= w0 >= -VAL_LIMIT);
    } else {
        assert(w1 >= w0 - RATE_LIMIT > -VAL_LIMIT);
    }
}

} // verus!
