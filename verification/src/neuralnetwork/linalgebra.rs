//! Batched matrix and vector primitives over fixed-point scalars, and the
//! bounded, probabilistic, sign-aware mutation operator shared by every
//! layer kind.

use crate::fixed::{fp_mul, fp_mul_spec, isqrt, lemma_fp_mul_bound,
    lemma_fp_mul_contract, lemma_fp_mul_mono_left, lemma_fp_mul_mono_right, lemma_fp_mul_nonneg,
    lemma_fp_mul_one, lemma_tdiv_mono, tdiv, MAX_DIM, RATE_LIMIT, SCALE, VAL_LIMIT};
use vstd::arithmetic::div_mod::{lemma_div_is_ordered, lemma_div_multiples_vanish,
    lemma_div_pos_is_pos};
use rand::Rng;
use vstd::arithmetic::mul::lemma_mul_inequality;
use vstd::prelude::*;

verus! {

/// Largest magnitude a single rescaled product of two in-range scalars can
/// carry: `VAL_LIMIT * VAL_LIMIT / SCALE`.
pub const PROD_LIMIT: i64 = 1_000_000_000_000;

/// Largest magnitude a dot product over at most `MAX_DIM` in-range scalars
/// can carry: `MAX_DIM * PROD_LIMIT`.
pub const DOT_LIMIT: i64 = 10_000_000_000_000_000;

/// Largest magnitude the elementwise sum and difference operations accept;
/// two such values still add without overflow.
pub const ADD_LIMIT: i64 = 4_000_000_000_000_000_000;

/// The soft reflecting boundary for mutation: a weight's growth range
/// shrinks to nothing as its magnitude approaches this cap (three, in
/// fixed-point units).
pub const W_MAX: i64 = 3_000_000;

/// Base half-range of a weight-matrix perturbation (one tenth, in
/// fixed-point units).
pub const WEIGHT_STEP: i64 = 100_000;

/// Base half-range of a bias-vector perturbation (one twentieth, in
/// fixed-point units).
pub const BIAS_STEP: i64 = 50_000;

/// One element in `WEIGHT_MUT_ODDS` is perturbed in a weight matrix.
pub const WEIGHT_MUT_ODDS: u64 = 10;

/// One element in `BIAS_MUT_ODDS` is perturbed in a bias vector.
pub const BIAS_MUT_ODDS: u64 = 5;

/// Every element of the vector lies within `[-b, b]`.
pub open spec fn vec_in(v: Seq<i64>, b: int) -> bool {
    forall|j: int| 0 <= j < v.len() ==> -b <= #[trigger] v[j] <= b
}

/// Every element of the matrix lies within `[-b, b]`.
pub open spec fn mat_in(m: Seq<Vec<i64>>, b: int) -> bool {
    forall|i: int, j: int|
        0 <= i < m.len() && 0 <= j < m[i]@.len() ==> -b <= #[trigger] m[i]@[j] <= b
}

/// The matrix has exactly `rows` rows of exactly `cols` elements each.
pub open spec fn mat_shape(m: Seq<Vec<i64>>, rows: int, cols: int) -> bool {
    m.len() == rows && forall|i: int| 0 <= i < rows ==> (#[trigger] m[i])@.len() == cols
}

/// The fixed-point dot product of two equally long vectors: the sum of the
/// rescaled elementwise products.
pub open spec fn dot_spec(x: Seq<i64>, w: Seq<i64>) -> int
    decreases x.len(),
{
    if x.len() == 0 || w.len() == 0 {
        0
    } else {
        dot_spec(x.drop_last(), w.drop_last()) + fp_mul_spec(x.last() as int, w.last() as int)
    }
}

/// Extending both vectors by one element adds one rescaled product to the
/// dot product.
pub proof fn lemma_dot_take_step(x: Seq<i64>, w: Seq<i64>, k: int)
    requires
        0 <= k < x.len(),
        k < w.len(),
    ensures
        dot_spec(x.take(k + 1), w.take(k + 1)) == dot_spec(x.take(k), w.take(k)) + fp_mul_spec(
            x[k] as int,
            w[k] as int,
        ),
{
    assert(x.take(k + 1).drop_last() =~= x.take(k));
    assert(w.take(k + 1).drop_last() =~= w.take(k));
}

/// The exact fixed-point dot product.
#[verifier::loop_isolation(false)]
fn dot(x: &Vec<i64>, w: &Vec<i64>) -> (r: i64)
    requires
        x@.len() == w@.len(),
        x@.len() <= MAX_DIM,
        vec_in(x@, VAL_LIMIT as int),
        vec_in(w@, VAL_LIMIT as int),
    ensures
        r == dot_spec(x@, w@),
        -DOT_LIMIT <= r <= DOT_LIMIT,
{
    let mut acc: i64 = 0;
    let mut k: usize = 0;
    while k < x.len()
        invariant
            0 <= k <= x@.len(),
            acc == dot_spec(x@.take(k as int), w@.take(k as int)),
            -((k as int) * (PROD_LIMIT as int)) <= acc <= (k as int) * (PROD_LIMIT as int),
        decreases x@.len() - k,
    {
        proof {
            lemma_dot_take_step(x@, w@, k as int);
            lemma_fp_mul_bound(x@[k as int] as int, w@[k as int] as int, VAL_LIMIT as int,
                VAL_LIMIT as int);
        }
        acc = acc + fp_mul(x[k], w[k]);
        k = k + 1;
    }
    proof {
        assert(x@.take(x@.len() as int) =~= x@);
        assert(w@.take(w@.len() as int) =~= w@);
    }
    acc
}

/// The batched matrix product: row `b` of the result pairs input row `b`
/// with every weight row.
#[verifier::loop_isolation(false)]
pub fn w_dot_x(weights: &Vec<Vec<i64>>, inputs: &Vec<Vec<i64>>) -> (r: Vec<Vec<i64>>)
    requires
        forall|b: int| 0 <= b < inputs@.len() ==> (#[trigger] inputs@[b])@.len() <= MAX_DIM,
        forall|b: int, o: int|
            0 <= b < inputs@.len() && 0 <= o < weights@.len() ==> (#[trigger] inputs@[b])@.len()
                == (#[trigger] weights@[o])@.len(),
        mat_in(inputs@, VAL_LIMIT as int),
        mat_in(weights@, VAL_LIMIT as int),
    ensures
        r@.len() == inputs@.len(),
        forall|b: int| 0 <= b < r@.len() ==> (#[trigger] r@[b])@.len() == weights@.len(),
        forall|b: int, o: int|
            #![trigger r@[b]@[o]]
            0 <= b < r@.len() && 0 <= o < weights@.len() ==> r@[b]@[o] == dot_spec(
                inputs@[b]@,
                weights@[o]@,
            ),
        mat_in(r@, DOT_LIMIT as int),
{
    let mut r: Vec<Vec<i64>> = Vec::new();
    let mut b: usize = 0;
    while b < inputs.len()
        invariant
            0 <= b <= inputs@.len(),
            r@.len() == b,
            forall|i: int| 0 <= i < b ==> (#[trigger] r@[i])@.len() == weights@.len(),
            forall|i: int, o: int|
                #![trigger r@[i]@[o]]
                0 <= i < b && 0 <= o < weights@.len() ==> r@[i]@[o] == dot_spec(
                    inputs@[i]@,
                    weights@[o]@,
                ) && -DOT_LIMIT <= r@[i]@[o] <= DOT_LIMIT,
        decreases inputs@.len() - b,
    {
        let mut row: Vec<i64> = Vec::new();
        let mut o: usize = 0;
        while o < weights.len()
            invariant
                0 <= o <= weights@.len(),
                0 <= b < inputs@.len(),
                row@.len() == o,
                forall|j: int|
                    0 <= j < o ==> #[trigger] row@[j] == dot_spec(inputs@[b as int]@, weights@[j]@)
                        && -DOT_LIMIT <= row@[j] <= DOT_LIMIT,
            decreases weights@.len() - o,
        {
            row.push(dot(&inputs[b], &weights[o]));
            o = o + 1;
        }
        r.push(row);
        b = b + 1;
    }
    r
}

/// The exact elementwise sum of two equally long rows.
#[verifier::loop_isolation(false)]
fn row_add(a: &Vec<i64>, b: &Vec<i64>) -> (r: Vec<i64>)
    requires
        a@.len() == b@.len(),
        vec_in(a@, ADD_LIMIT as int),
        vec_in(b@, ADD_LIMIT as int),
    ensures
        r@.len() == a@.len(),
        forall|j: int| 0 <= j < r@.len() ==> #[trigger] r@[j] == a@[j] + b@[j],
{
    let mut r: Vec<i64> = Vec::new();
    let mut j: usize = 0;
    while j < a.len()
        invariant
            0 <= j <= a@.len(),
            r@.len() == j,
            forall|k: int| 0 <= k < j ==> #[trigger] r@[k] == a@[k] + b@[k],
        decreases a@.len() - j,
    {
        r.push(a[j] + b[j]);
        j = j + 1;
    }
    r
}

/// The exact elementwise difference of two equally long rows.
#[verifier::loop_isolation(false)]
fn row_sub(a: &Vec<i64>, b: &Vec<i64>) -> (r: Vec<i64>)
    requires
        a@.len() == b@.len(),
        vec_in(a@, ADD_LIMIT as int),
        vec_in(b@, ADD_LIMIT as int),
    ensures
        r@.len() == a@.len(),
        forall|j: int| 0 <= j < r@.len() ==> #[trigger] r@[j] == a@[j] - b@[j],
{
    let mut r: Vec<i64> = Vec::new();
    let mut j: usize = 0;
    while j < a.len()
        invariant
            0 <= j <= a@.len(),
            r@.len() == j,
            forall|k: int| 0 <= k < j ==> #[trigger] r@[k] == a@[k] - b@[k],
        decreases a@.len() - j,
    {
        r.push(a[j] - b[j]);
        j = j + 1;
    }
    r
}

/// The exact elementwise fixed-point product of two equally long rows.
#[verifier::loop_isolation(false)]
fn row_elem_mul(a: &Vec<i64>, b: &Vec<i64>) -> (r: Vec<i64>)
    requires
        a@.len() == b@.len(),
        vec_in(a@, VAL_LIMIT as int),
        vec_in(b@, VAL_LIMIT as int),
    ensures
        r@.len() == a@.len(),
        forall|j: int|
            0 <= j < r@.len() ==> #[trigger] r@[j] == fp_mul_spec(a@[j] as int, b@[j] as int),
{
    let mut r: Vec<i64> = Vec::new();
    let mut j: usize = 0;
    while j < a.len()
        invariant
            0 <= j <= a@.len(),
            r@.len() == j,
            forall|k: int|
                0 <= k < j ==> #[trigger] r@[k] == fp_mul_spec(a@[k] as int, b@[k] as int),
        decreases a@.len() - j,
    {
        r.push(fp_mul(a[j], b[j]));
        j = j + 1;
    }
    r
}

/// The exact elementwise sum of two matrices of identical shape.
#[verifier::loop_isolation(false)]
pub fn m_addition(m1: &Vec<Vec<i64>>, m2: &Vec<Vec<i64>>) -> (r: Vec<Vec<i64>>)
    requires
        m1@.len() == m2@.len(),
        forall|i: int|
            0 <= i < m1@.len() ==> (#[trigger] m1@[i])@.len() == (#[trigger] m2@[i])@.len(),
        mat_in(m1@, ADD_LIMIT as int),
        mat_in(m2@, ADD_LIMIT as int),
    ensures
        r@.len() == m1@.len(),
        forall|i: int| 0 <= i < r@.len() ==> (#[trigger] r@[i])@.len() == m1@[i]@.len(),
        forall|i: int, j: int|
            #![trigger r@[i]@[j]]
            0 <= i < r@.len() && 0 <= j < m1@[i]@.len() ==> r@[i]@[j] == m1@[i]@[j] + m2@[i]@[j],
{
    let mut r: Vec<Vec<i64>> = Vec::new();
    let mut i: usize = 0;
    while i < m1.len()
        invariant
            0 <= i <= m1@.len(),
            r@.len() == i,
            forall|k: int| 0 <= k < i ==> (#[trigger] r@[k])@.len() == m1@[k]@.len(),
            forall|k: int, j: int|
                #![trigger r@[k]@[j]]
                0 <= k < i && 0 <= j < m1@[k]@.len() ==> r@[k]@[j] == m1@[k]@[j] + m2@[k]@[j],
        decreases m1@.len() - i,
    {
        r.push(row_add(&m1[i], &m2[i]));
        i = i + 1;
    }
    r
}

/// The exact elementwise difference of two matrices of identical shape.
#[verifier::loop_isolation(false)]
pub fn m_substraction(m1: &Vec<Vec<i64>>, m2: &Vec<Vec<i64>>) -> (r: Vec<Vec<i64>>)
    requires
        m1@.len() == m2@.len(),
        forall|i: int|
            0 <= i < m1@.len() ==> (#[trigger] m1@[i])@.len() == (#[trigger] m2@[i])@.len(),
        mat_in(m1@, ADD_LIMIT as int),
        mat_in(m2@, ADD_LIMIT as int),
    ensures
        r@.len() == m1@.len(),
        forall|i: int| 0 <= i < r@.len() ==> (#[trigger] r@[i])@.len() == m1@[i]@.len(),
        forall|i: int, j: int|
            #![trigger r@[i]@[j]]
            0 <= i < r@.len() && 0 <= j < m1@[i]@.len() ==> r@[i]@[j] == m1@[i]@[j] - m2@[i]@[j],
{
    let mut r: Vec<Vec<i64>> = Vec::new();
    let mut i: usize = 0;
    while i < m1.len()
        invariant
            0 <= i <= m1@.len(),
            r@.len() == i,
            forall|k: int| 0 <= k < i ==> (#[trigger] r@[k])@.len() == m1@[k]@.len(),
            forall|k: int, j: int|
                #![trigger r@[k]@[j]]
                0 <= k < i && 0 <= j < m1@[k]@.len() ==> r@[k]@[j] == m1@[k]@[j] - m2@[k]@[j],
        decreases m1@.len() - i,
    {
        r.push(row_sub(&m1[i], &m2[i]));
        i = i + 1;
    }
    r
}

/// The exact elementwise fixed-point product of two matrices of identical
/// shape.
#[verifier::loop_isolation(false)]
pub fn m_element_mul(m1: &Vec<Vec<i64>>, m2: &Vec<Vec<i64>>) -> (r: Vec<Vec<i64>>)
    requires
        m1@.len() == m2@.len(),
        forall|i: int|
            0 <= i < m1@.len() ==> (#[trigger] m1@[i])@.len() == (#[trigger] m2@[i])@.len(),
        mat_in(m1@, VAL_LIMIT as int),
        mat_in(m2@, VAL_LIMIT as int),
    ensures
        r@.len() == m1@.len(),
        forall|i: int| 0 <= i < r@.len() ==> (#[trigger] r@[i])@.len() == m1@[i]@.len(),
        forall|i: int, j: int|
            #![trigger r@[i]@[j]]
            0 <= i < r@.len() && 0 <= j < m1@[i]@.len() ==> r@[i]@[j] == fp_mul_spec(
                m1@[i]@[j] as int,
                m2@[i]@[j] as int,
            ),
{
    let mut r: Vec<Vec<i64>> = Vec::new();
    let mut i: usize = 0;
    while i < m1.len()
        invariant
            0 <= i <= m1@.len(),
            r@.len() == i,
            forall|k: int| 0 <= k < i ==> (#[trigger] r@[k])@.len() == m1@[k]@.len(),
            forall|k: int, j: int|
                #![trigger r@[k]@[j]]
                0 <= k < i && 0 <= j < m1@[k]@.len() ==> r@[k]@[j] == fp_mul_spec(
                    m1@[k]@[j] as int,
                    m2@[k]@[j] as int,
                ),
        decreases m1@.len() - i,
    {
        r.push(row_elem_mul(&m1[i], &m2[i]));
        i = i + 1;
    }
    r
}

/// Broadcasts a bias vector over every row of a batched matrix: element
/// `j` of each row gains `bias[j]`.
#[verifier::loop_isolation(false)]
pub fn add_bias(bias: &Vec<i64>, inputs: &Vec<Vec<i64>>) -> (r: Vec<Vec<i64>>)
    requires
        forall|i: int| 0 <= i < inputs@.len() ==> (#[trigger] inputs@[i])@.len() == bias@.len(),
        mat_in(inputs@, ADD_LIMIT as int),
        vec_in(bias@, ADD_LIMIT as int),
    ensures
        r@.len() == inputs@.len(),
        forall|i: int| 0 <= i < r@.len() ==> (#[trigger] r@[i])@.len() == bias@.len(),
        forall|i: int, j: int|
            #![trigger r@[i]@[j]]
            0 <= i < r@.len() && 0 <= j < bias@.len() ==> r@[i]@[j] == inputs@[i]@[j] + bias@[j],
{
    let mut r: Vec<Vec<i64>> = Vec::new();
    let mut i: usize = 0;
    while i < inputs.len()
        invariant
            0 <= i <= inputs@.len(),
            r@.len() == i,
            forall|k: int| 0 <= k < i ==> (#[trigger] r@[k])@.len() == bias@.len(),
            forall|k: int, j: int|
                #![trigger r@[k]@[j]]
                0 <= k < i && 0 <= j < bias@.len() ==> r@[k]@[j] == inputs@[k]@[j] + bias@[j],
        decreases inputs@.len() - i,
    {
        r.push(row_add(&inputs[i], bias));
        i = i + 1;
    }
    r
}

/// A matrix bounded by `b1` is bounded by any larger `b2`.
pub proof fn lemma_mat_in_widen(m: Seq<Vec<i64>>, b1: int, b2: int)
    requires
        mat_in(m, b1),
        b1 <= b2,
    ensures
        mat_in(m, b2),
{
}

/// A vector bounded by `b1` is bounded by any larger `b2`.
pub proof fn lemma_vec_in_widen(v: Seq<i64>, b1: int, b2: int)
    requires
        vec_in(v, b1),
        b1 <= b2,
    ensures
        vec_in(v, b2),
{
}

/// An independent copy of a row, element for element.
#[verifier::loop_isolation(false)]
pub fn copy_row(a: &Vec<i64>) -> (r: Vec<i64>)
    ensures
        r@ == a@,
{
    let mut r: Vec<i64> = Vec::new();
    let mut j: usize = 0;
    while j < a.len()
        invariant
            0 <= j <= a@.len(),
            r@ == a@.take(j as int),
        decreases a@.len() - j,
    {
        r.push(a[j]);
        proof {
            assert(r@ =~= a@.take(j + 1));
        }
        j = j + 1;
    }
    proof {
        assert(a@.take(a@.len() as int) =~= a@);
    }
    r
}

/// An independent copy of a matrix, row for row.
#[verifier::loop_isolation(false)]
pub fn copy_matrix(m: &Vec<Vec<i64>>) -> (r: Vec<Vec<i64>>)
    ensures
        r@.len() == m@.len(),
        forall|i: int| 0 <= i < m@.len() ==> (#[trigger] r@[i])@ == m@[i]@,
{
    let mut r: Vec<Vec<i64>> = Vec::new();
    let mut i: usize = 0;
    while i < m.len()
        invariant
            0 <= i <= m@.len(),
            r@.len() == i,
            forall|k: int| 0 <= k < i ==> (#[trigger] r@[k])@ == m@[k]@,
        decreases m@.len() - i,
    {
        r.push(copy_row(&m[i]));
        i = i + 1;
    }
    r
}

/// The growth-direction multiplier of the soft reflecting boundary: full
/// (`SCALE`) for a nonpositive value, shrinking linearly to zero as a
/// positive value approaches `W_MAX`.
pub open spec fn pos_mult_spec(w: int) -> int {
    if w > 0 {
        let f = SCALE - tdiv(w * SCALE, W_MAX as int);
        if f > 0 {
            f
        } else {
            0
        }
    } else {
        SCALE as int
    }
}

/// The shrink-direction multiplier: the growth multiplier of the mirrored
/// value.
pub open spec fn neg_mult_spec(w: int) -> int {
    pos_mult_spec(-w)
}

/// Largest upward perturbation a value `w` can receive at a given rate and
/// base step.
pub open spec fn amp_pos_spec(w: int, rate: int, step: int) -> int {
    fp_mul_spec(fp_mul_spec(step, pos_mult_spec(w)), rate)
}

/// Largest downward perturbation a value `w` can receive at a given rate
/// and base step.
pub open spec fn amp_neg_spec(w: int, rate: int, step: int) -> int {
    fp_mul_spec(fp_mul_spec(step, neg_mult_spec(w)), rate)
}

/// The growth multiplier always lies within `[0, SCALE]`.
pub proof fn lemma_pos_mult_range(w: int)
    ensures
        0 <= pos_mult_spec(w) <= SCALE,
{
    if w > 0 {
        assert(0 <= w * SCALE) by (nonlinear_arith)
            requires
                w > 0,
        ;
        lemma_div_pos_is_pos(w * SCALE, W_MAX as int);
    }
}

/// Both perturbation ranges are nonnegative and bounded by the rescaled
/// product of step and rate, independently of the value mutated.
pub proof fn lemma_amp_range(w: int, rate: int, step: int)
    requires
        0 <= rate,
        0 <= step,
    ensures
        0 <= amp_pos_spec(w, rate, step) <= tdiv(step * rate, SCALE as int),
        0 <= amp_neg_spec(w, rate, step) <= tdiv(step * rate, SCALE as int),
{
    lemma_pos_mult_range(w);
    lemma_pos_mult_range(-w);
    lemma_fp_mul_contract(step, pos_mult_spec(w));
    lemma_fp_mul_contract(step, neg_mult_spec(w));
    lemma_fp_mul_nonneg(step, pos_mult_spec(w));
    lemma_fp_mul_nonneg(step, neg_mult_spec(w));
    lemma_fp_mul_mono_left(fp_mul_spec(step, pos_mult_spec(w)), step, rate);
    lemma_fp_mul_mono_left(fp_mul_spec(step, neg_mult_spec(w)), step, rate);
    lemma_fp_mul_nonneg(fp_mul_spec(step, pos_mult_spec(w)), rate);
    lemma_fp_mul_nonneg(fp_mul_spec(step, neg_mult_spec(w)), rate);
}

/// The soft reflecting boundary, stated exactly: at or beyond the cap the
/// growth range vanishes entirely, while the shrink range stays at its
/// full, value-independent extent.
pub proof fn lemma_soft_boundary(w: int, rate: int, step: int)
    requires
        0 <= rate,
        0 <= step,
    ensures
        w >= W_MAX ==> amp_pos_spec(w, rate, step) == 0,
        w <= -W_MAX ==> amp_neg_spec(w, rate, step) == 0,
        w >= 0 ==> amp_neg_spec(w, rate, step) == fp_mul_spec(step, rate),
        w <= 0 ==> amp_pos_spec(w, rate, step) == fp_mul_spec(step, rate),
{
    if w >= W_MAX {
        lemma_boundary_mult_zero(w);
        assert(fp_mul_spec(step, 0) == 0);
        assert(fp_mul_spec(0, rate) == 0);
    }
    if w <= -(W_MAX as int) {
        lemma_boundary_mult_zero(-w);
        assert(fp_mul_spec(step, 0) == 0);
        assert(fp_mul_spec(0, rate) == 0);
    }
    if w >= 0 {
        assert(neg_mult_spec(w) == SCALE);
        lemma_fp_mul_one(step);
    }
    if w <= 0 {
        assert(pos_mult_spec(w) == SCALE);
        lemma_fp_mul_one(step);
    }
}

/// At or beyond the cap the growth multiplier is zero.
proof fn lemma_boundary_mult_zero(w: int)
    requires
        w >= W_MAX,
    ensures
        pos_mult_spec(w) == 0,
{
    assert((W_MAX as int) * (SCALE as int) <= w * SCALE) by (nonlinear_arith)
        requires
            w >= W_MAX,
    ;
    lemma_div_is_ordered((W_MAX as int) * (SCALE as int), w * (SCALE as int), W_MAX as int);
    lemma_div_multiples_vanish(SCALE as int, W_MAX as int);
    assert((W_MAX as int) * (SCALE as int) == (W_MAX as int) * (SCALE as int));
    assert(tdiv(w * SCALE, W_MAX as int) >= SCALE);
}

/// The growth range is monotone non-increasing in the value: the closer a
/// positive weight stands to the cap, the less it can still grow.
pub proof fn lemma_growth_shrinks(w1: int, w2: int, rate: int, step: int)
    requires
        0 < w1 <= w2,
        0 <= rate,
        0 <= step,
    ensures
        amp_pos_spec(w2, rate, step) <= amp_pos_spec(w1, rate, step),
{
    assert(w1 * SCALE <= w2 * SCALE) by (nonlinear_arith)
        requires
            w1 <= w2,
    ;
    lemma_tdiv_mono(w1 * SCALE, w2 * SCALE, W_MAX as int);
    assert(pos_mult_spec(w2) <= pos_mult_spec(w1));
    lemma_pos_mult_range(w1);
    lemma_pos_mult_range(w2);
    lemma_fp_mul_mono_right(step, pos_mult_spec(w2), pos_mult_spec(w1));
    lemma_fp_mul_mono_left(fp_mul_spec(step, pos_mult_spec(w2)), fp_mul_spec(
        step,
        pos_mult_spec(w1),
    ), rate);
}

/// Relies on `rand::Rng::gen_range` over `0..n` with `rand::thread_rng`:
/// a draw from the half-open range, which panics only on an empty range.
#[verifier::external_body]
fn rand_below(n: u64) -> (r: u64)
    requires
        1 <= n,
    ensures
        r < n,
{
    rand::thread_rng().gen_range(0..n)
}

/// The growth-direction multiplier, computed exactly.
fn growth_mult(w: i64) -> (r: i64)
    requires
        -VAL_LIMIT <= w <= VAL_LIMIT,
    ensures
        r == pos_mult_spec(w as int),
        0 <= r <= SCALE,
{
    proof {
        lemma_pos_mult_range(w as int);
    }
    if w > 0 {
        let f: i64 = SCALE - (w * SCALE) / W_MAX;
        proof {
            assert(0 <= (w as int) * (SCALE as int)) by (nonlinear_arith)
                requires
                    w > 0,
            ;
        }
        if f > 0 {
            f
        } else {
            0
        }
    } else {
        SCALE
    }
}

/// One application of the bounded, sign-aware perturbation: the result
/// always stays inside the asymmetric envelope around the old value.
fn mutate_value(w: i64, rate: i64, step: i64) -> (r: i64)
    requires
        -VAL_LIMIT <= w <= VAL_LIMIT,
        0 <= rate <= RATE_LIMIT,
        0 <= step <= SCALE,
    ensures
        w - amp_neg_spec(w as int, rate as int, step as int) <= r <= w + amp_pos_spec(
            w as int,
            rate as int,
            step as int,
        ),
{
    let pm: i64 = growth_mult(w);
    let nm: i64 = growth_mult(-w);
    proof {
        lemma_fp_mul_contract(step as int, pm as int);
        lemma_fp_mul_contract(step as int, nm as int);
    }
    let up: i64 = fp_mul(fp_mul(step, pm), rate);
    let down: i64 = fp_mul(fp_mul(step, nm), rate);
    proof {
        lemma_amp_range(w as int, rate as int, step as int);
        assert((step as int) * (rate as int) <= (SCALE as int) * (RATE_LIMIT as int))
            by (nonlinear_arith)
            requires
                0 <= step <= SCALE,
                0 <= rate <= RATE_LIMIT,
        ;
        lemma_tdiv_mono((step as int) * (rate as int), (SCALE as int) * (RATE_LIMIT as int),
            SCALE as int);
        lemma_div_multiples_vanish(RATE_LIMIT as int, SCALE as int);
    }
    let span: i64 = up + down;
    if span > 0 {
        let d: u64 = rand_below(span as u64);
        w - down + (d as i64)
    } else {
        w
    }
}

/// Perturbs each element of a weight matrix independently with probability
/// one in `WEIGHT_MUT_ODDS`; every element stays inside its soft-boundary
/// envelope, so a weight at or beyond `W_MAX` can only shrink.
#[verifier::loop_isolation(false)]
pub fn mutate_2d(weights: &mut Vec<Vec<i64>>, mutation_rate: i64)
    requires
        0 <= mutation_rate <= RATE_LIMIT,
        mat_in(old(weights)@, VAL_LIMIT as int),
    ensures
        final(weights)@.len() == old(weights)@.len(),
        forall|i: int|
            0 <= i < old(weights)@.len() ==> (#[trigger] final(weights)@[i])@.len() == old(
                weights,
            )@[i]@.len(),
        forall|i: int, j: int|
            #![trigger final(weights)@[i]@[j]]
            0 <= i < old(weights)@.len() && 0 <= j < old(weights)@[i]@.len() ==> old(
                weights,
            )@[i]@[j] - amp_neg_spec(old(weights)@[i]@[j] as int, mutation_rate as int,
                WEIGHT_STEP as int,
            ) <= final(weights)@[i]@[j] <= old(weights)@[i]@[j] + amp_pos_spec(
                old(weights)@[i]@[j] as int,
                mutation_rate as int,
                WEIGHT_STEP as int,
            ),
{
    let mut out: Vec<Vec<i64>> = Vec::new();
    let mut i: usize = 0;
    while i < weights.len()
        invariant
            0 <= i <= weights@.len(),
            weights@ == old(weights)@,
            out@.len() == i,
            forall|k: int| 0 <= k < i ==> (#[trigger] out@[k])@.len() == weights@[k]@.len(),
            forall|k: int, j: int|
                #![trigger out@[k]@[j]]
                0 <= k < i && 0 <= j < weights@[k]@.len() ==> weights@[k]@[j] - amp_neg_spec(
                    weights@[k]@[j] as int,
                    mutation_rate as int,
                    WEIGHT_STEP as int,
                ) <= out@[k]@[j] <= weights@[k]@[j] + amp_pos_spec(
                    weights@[k]@[j] as int,
                    mutation_rate as int,
                    WEIGHT_STEP as int,
                ),
        decreases weights@.len() - i,
    {
        let mut row: Vec<i64> = Vec::new();
        let mut j: usize = 0;
        while j < weights[i].len()
            invariant
                0 <= i < weights@.len(),
                0 <= j <= weights@[i as int]@.len(),
                weights@ == old(weights)@,
                row@.len() == j,
                forall|k: int|
                    #![trigger row@[k]]
                    0 <= k < j ==> weights@[i as int]@[k] - amp_neg_spec(
                        weights@[i as int]@[k] as int,
                        mutation_rate as int,
                        WEIGHT_STEP as int,
                    ) <= row@[k] <= weights@[i as int]@[k] + amp_pos_spec(
                        weights@[i as int]@[k] as int,
                        mutation_rate as int,
                        WEIGHT_STEP as int,
                    ),
            decreases weights@[i as int]@.len() - j,
        {
            let w: i64 = weights[i][j];
            if rand_below(WEIGHT_MUT_ODDS) == 0 {
                row.push(mutate_value(w, mutation_rate, WEIGHT_STEP));
            } else {
                proof {
                    lemma_amp_range(w as int, mutation_rate as int, WEIGHT_STEP as int);
                }
                row.push(w);
            }
            j = j + 1;
        }
        out.push(row);
        i = i + 1;
    }
    *weights = out;
}

/// Perturbs each element of a bias vector independently with probability
/// one in `BIAS_MUT_ODDS`; every element stays inside its soft-boundary
/// envelope.
#[verifier::loop_isolation(false)]
pub fn mutate_1d(weights: &mut Vec<i64>, mutation_rate: i64)
    requires
        0 <= mutation_rate <= RATE_LIMIT,
        vec_in(old(weights)@, VAL_LIMIT as int),
    ensures
        final(weights)@.len() == old(weights)@.len(),
        forall|j: int|
            #![trigger final(weights)@[j]]
            0 <= j < old(weights)@.len() ==> old(weights)@[j] - amp_neg_spec(
                old(weights)@[j] as int,
                mutation_rate as int,
                BIAS_STEP as int,
            ) <= final(weights)@[j] <= old(weights)@[j] + amp_pos_spec(
                old(weights)@[j] as int,
                mutation_rate as int,
                BIAS_STEP as int,
            ),
{
    let mut out: Vec<i64> = Vec::new();
    let mut j: usize = 0;
    while j < weights.len()
        invariant
            0 <= j <= weights@.len(),
            weights@ == old(weights)@,
            out@.len() == j,
            forall|k: int|
                #![trigger out@[k]]
                0 <= k < j ==> weights@[k] - amp_neg_spec(
                    weights@[k] as int,
                    mutation_rate as int,
                    BIAS_STEP as int,
                ) <= out@[k] <= weights@[k] + amp_pos_spec(
                    weights@[k] as int,
                    mutation_rate as int,
                    BIAS_STEP as int,
                ),
        decreases weights@.len() - j,
    {
        let w: i64 = weights[j];
        if rand_below(BIAS_MUT_ODDS) == 0 {
            out.push(mutate_value(w, mutation_rate, BIAS_STEP));
        } else {
            proof {
                lemma_amp_range(w as int, mutation_rate as int, BIAS_STEP as int);
            }
            out.push(w);
        }
        j = j + 1;
    }
    *weights = out;
}

/// Every entry's square of a fresh `rows x cols` weight matrix is bounded
/// by the fixed-point square of its fan-in/fan-out amplitude,
/// `2 * SCALE * SCALE / (rows + cols)`.
pub open spec fn init_amplitude_ok(m: Seq<Vec<i64>>, rows: int, cols: int) -> bool {
    forall|i: int, j: int|
        #![trigger m[i]@[j]]
        0 <= i < rows && 0 <= j < cols ==> (m[i]@[j] as int) * (m[i]@[j] as int) <= 2 * (
        SCALE as int) * (SCALE as int) / (rows + cols)
}

/// A freshly drawn weight matrix: every entry's square is bounded by
/// `2 * SCALE * SCALE / (input_size + output_size)`, the fixed-point
/// square of the fan-in/fan-out amplitude.
#[verifier::loop_isolation(false)]
pub fn w_random_init(input_size: usize, output_size: usize) -> (r: Vec<Vec<i64>>)
    requires
        1 <= input_size <= MAX_DIM,
        1 <= output_size <= MAX_DIM,
    ensures
        mat_shape(r@, output_size as int, input_size as int),
        init_amplitude_ok(r@, output_size as int, input_size as int),
        mat_in(r@, 2_000_000),
{
    let n: u64 = (input_size + output_size) as u64;
    let amp_sq: u64 = 2_000_000_000_000u64 / n;
    let amp: u64 = isqrt(amp_sq);
    proof {
        lemma_div_is_ordered(amp_sq as int, 2_000_000_000_000, 1);
        assert(amp <= 2_000_000) by (nonlinear_arith)
            requires
                (amp as int) * (amp as int) <= 2_000_000_000_000,
        ;
    }
    let mut r: Vec<Vec<i64>> = Vec::new();
    let mut i: usize = 0;
    while i < output_size
        invariant
            0 <= i <= output_size,
            r@.len() == i,
            forall|k: int| 0 <= k < i ==> (#[trigger] r@[k])@.len() == input_size,
            forall|k: int, j: int|
                #![trigger r@[k]@[j]]
                0 <= k < i && 0 <= j < input_size ==> -(amp as int) <= r@[k]@[j] <= amp as int,
        decreases output_size - i,
    {
        let mut row: Vec<i64> = Vec::new();
        let mut j: usize = 0;
        while j < input_size
            invariant
                0 <= j <= input_size,
                row@.len() == j,
                forall|k: int|
                    #![trigger row@[k]]
                    0 <= k < j ==> -(amp as int) <= row@[k] <= amp as int,
            decreases input_size - j,
        {
            if amp == 0 {
                row.push(0);
            } else {
                let d: u64 = rand_below(2 * amp);
                row.push((d as i64) - (amp as i64));
            }
            j = j + 1;
        }
        r.push(row);
        i = i + 1;
    }
    proof {
        assert forall|i: int, j: int|
            0 <= i < output_size && 0 <= j < input_size implies (#[trigger] r@[i]@[j] as int) * (
        r@[i]@[j] as int) <= 2 * (SCALE as int) * (SCALE as int) / (output_size + input_size) by {
            let e = r@[i]@[j] as int;
            assert(e * e <= (amp as int) * (amp as int)) by (nonlinear_arith)
                requires
                    -(amp as int) <= e <= amp as int,
            ;
            assert(2 * (SCALE as int) * (SCALE as int) == 2_000_000_000_000);
        }
    }
    r
}

} // verus!
