//! The capability any evolvable policy must offer to the training engine.

use vstd::prelude::*;

verus! {

/// An evolvable policy: a value that can drive a forward pass, clear its
/// transient state, and produce an independently perturbed copy of itself.
///
/// The engine states nothing about what these operations compute; a
/// simulation gives a policy its meaning, and the engine's own guarantees
/// (population sizes, ranking order) hold for every implementation.
pub trait Agent: Clone + Send + Sync + 'static {
    /// Drives one forward pass over a batched input matrix.
    fn step(&mut self, input: &Vec<Vec<i64>>) -> Vec<Vec<i64>>;

    /// Clears transient state (such as a recurrent hidden state) for a
    /// fresh episode.
    fn reset(&mut self);

    /// Returns an independent copy perturbed at the given fixed-point
    /// mutation rate.
    fn mutate(&self, mutation_rate: i64) -> Self;
}

} // verus!
