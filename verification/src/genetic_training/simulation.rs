//! The capability any fitness-evaluation scenario must offer to the engine.

use crate::genetic_training::agent::Agent;
use vstd::prelude::*;

verus! {

/// A fitness-evaluation scenario. Each genome is evaluated against an
/// independent clone of the scenario, so concurrent evaluations never share
/// mutable state.
///
/// Fitness is a fixed-point scalar (`crate::fixed::SCALE` units per real
/// unit); higher is better. Because fitness is integral, every score admits
/// a total order and the engine's ranking never meets an unordered value.
pub trait Simulation: Clone + Send + Sync + 'static {
    /// Drives the agent through zero or more steps and returns its scalar
    /// fitness.
    fn evaluate_agent<A: Agent>(&self, agent: &mut A) -> i64;

    /// Advances the scenario's own non-fitness state (for example,
    /// regenerating a noisy target) strictly between generations.
    fn on_generation(&mut self, generation_number: usize);
}

} // verus!
