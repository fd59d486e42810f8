//! Pure elementwise activation maps over batched fixed-point matrices.
//!
//! The logistic and hyperbolic-tangent gates are the standard piecewise
//! linear fixed-point surrogates (a hard sigmoid and a hard tanh): exact,
//! monotone, and confined to the same output ranges as their smooth
//! namesakes, which is what the gated recurrent layer's stability rests on.

use crate::fixed::{clamp, clamp_spec, tdiv, HALF_SCALE, SCALE};
use crate::neuralnetwork::linalgebra::{mat_in, ADD_LIMIT};
use vstd::prelude::*;

verus! {

/// The rectified-linear map: negative values flatten to zero.
pub open spec fn relu_spec(x: int) -> int {
    if x > 0 {
        x
    } else {
        0
    }
}

/// The piecewise-linear logistic gate: one half plus a quarter of the
/// argument, clamped into `[0, SCALE]`.
pub open spec fn sigmoid_spec(x: int) -> int {
    clamp_spec(HALF_SCALE + tdiv(x, 4), 0, SCALE as int)
}

/// The piecewise-linear hyperbolic-tangent gate: the argument clamped
/// into `[-SCALE, SCALE]`.
pub open spec fn tanh_spec(x: int) -> int {
    clamp_spec(x, -(SCALE as int), SCALE as int)
}

/// The logistic gate never leaves `[0, SCALE]`.
pub proof fn lemma_sigmoid_range(x: int)
    ensures
        0 <= sigmoid_spec(x) <= SCALE,
{
}

/// The hyperbolic-tangent gate never leaves `[-SCALE, SCALE]`.
pub proof fn lemma_tanh_range(x: int)
    ensures
        -SCALE <= tanh_spec(x) <= SCALE,
{
}

/// The rectified-linear activation, applied elementwise to a batched
/// matrix.
#[verifier::loop_isolation(false)]
pub fn relu(input: Vec<Vec<i64>>) -> (r: Vec<Vec<i64>>)
    ensures
        r@.len() == input@.len(),
        forall|i: int| 0 <= i < r@.len() ==> (#[trigger] r@[i])@.len() == input@[i]@.len(),
        forall|i: int, j: int|
            #![trigger r@[i]@[j]]
            0 <= i < r@.len() && 0 <= j < input@[i]@.len() ==> r@[i]@[j] == relu_spec(
                input@[i]@[j] as int,
            ),
{
    let mut r: Vec<Vec<i64>> = Vec::new();
    let mut i: usize = 0;
    while i < input.len()
        invariant
            0 <= i <= input@.len(),
            r@.len() == i,
            forall|k: int| 0 <= k < i ==> (#[trigger] r@[k])@.len() == input@[k]@.len(),
            forall|k: int, j: int|
                #![trigger r@[k]@[j]]
                0 <= k < i && 0 <= j < input@[k]@.len() ==> r@[k]@[j] == relu_spec(
                    input@[k]@[j] as int,
                ),
        decreases input@.len() - i,
    {
        let mut row: Vec<i64> = Vec::new();
        let mut j: usize = 0;
        while j < input[i].len()
            invariant
                0 <= i < input@.len(),
                0 <= j <= input@[i as int]@.len(),
                row@.len() == j,
                forall|k: int|
                    #![trigger row@[k]]
                    0 <= k < j ==> row@[k] == relu_spec(input@[i as int]@[k] as int),
            decreases input@[i as int]@.len() - j,
        {
            let x: i64 = input[i][j];
            if x > 0 {
                row.push(x);
            } else {
                row.push(0);
            }
            j = j + 1;
        }
        r.push(row);
        i = i + 1;
    }
    r
}

/// The logistic activation, applied elementwise to a batched matrix.
#[verifier::loop_isolation(false)]
pub fn sigmoid(input: Vec<Vec<i64>>) -> (r: Vec<Vec<i64>>)
    requires
        mat_in(input@, ADD_LIMIT as int),
    ensures
        r@.len() == input@.len(),
        forall|i: int| 0 <= i < r@.len() ==> (#[trigger] r@[i])@.len() == input@[i]@.len(),
        forall|i: int, j: int|
            #![trigger r@[i]@[j]]
            0 <= i < r@.len() && 0 <= j < input@[i]@.len() ==> r@[i]@[j] == sigmoid_spec(
                input@[i]@[j] as int,
            ),
{
    let mut r: Vec<Vec<i64>> = Vec::new();
    let mut i: usize = 0;
    while i < input.len()
        invariant
            0 <= i <= input@.len(),
            r@.len() == i,
            forall|k: int| 0 <= k < i ==> (#[trigger] r@[k])@.len() == input@[k]@.len(),
            forall|k: int, j: int|
                #![trigger r@[k]@[j]]
                0 <= k < i && 0 <= j < input@[k]@.len() ==> r@[k]@[j] == sigmoid_spec(
                    input@[k]@[j] as int,
                ),
        decreases input@.len() - i,
    {
        let mut row: Vec<i64> = Vec::new();
        let mut j: usize = 0;
        while j < input[i].len()
            invariant
                0 <= i < input@.len(),
                0 <= j <= input@[i as int]@.len(),
                row@.len() == j,
                forall|k: int|
                    #![trigger row@[k]]
                    0 <= k < j ==> row@[k] == sigmoid_spec(input@[i as int]@[k] as int),
            decreases input@[i as int]@.len() - j,
        {
            let x: i64 = input[i][j];
            let q: i64 = if x >= 0 {
                x / 4
            } else {
                -((-x) / 4)
            };
            row.push(clamp(HALF_SCALE + q, 0, SCALE));
            j = j + 1;
        }
        r.push(row);
        i = i + 1;
    }
    r
}

/// The hyperbolic-tangent activation, applied elementwise to a batched
/// matrix.
#[verifier::loop_isolation(false)]
pub fn tanh(input: Vec<Vec<i64>>) -> (r: Vec<Vec<i64>>)
    ensures
        r@.len() == input@.len(),
        forall|i: int| 0 <= i < r@.len() ==> (#[trigger] r@[i])@.len() == input@[i]@.len(),
        forall|i: int, j: int|
            #![trigger r@[i]@[j]]
            0 <= i < r@.len() && 0 <= j < input@[i]@.len() ==> r@[i]@[j] == tanh_spec(
                input@[i]@[j] as int,
            ),
{
    let mut r: Vec<Vec<i64>> = Vec::new();
    let mut i: usize = 0;
    while i < input.len()
        invariant
            0 <= i <= input@.len(),
            r@.len() == i,
            forall|k: int| 0 <= k < i ==> (#[trigger] r@[k])@.len() == input@[k]@.len(),
            forall|k: int, j: int|
                #![trigger r@[k]@[j]]
                0 <= k < i && 0 <= j < input@[k]@.len() ==> r@[k]@[j] == tanh_spec(
                    input@[k]@[j] as int,
                ),
        decreases input@.len() - i,
    {
        let mut row: Vec<i64> = Vec::new();
        let mut j: usize = 0;
        while j < input[i].len()
            invariant
                0 <= i < input@.len(),
                0 <= j <= input@[i as int]@.len(),
                row@.len() == j,
                forall|k: int|
                    #![trigger row@[k]]
                    0 <= k < j ==> row@[k] == tanh_spec(input@[i as int]@[k] as int),
            decreases input@[i as int]@.len() - j,
        {
            row.push(clamp(input[i][j], -SCALE, SCALE));
            j = j + 1;
        }
        r.push(row);
        i = i + 1;
    }
    r
}

} // verus!
