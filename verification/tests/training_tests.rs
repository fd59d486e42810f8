use genetic_rl::fixed::SCALE;
use genetic_rl::genetic_training::agent::Agent;
use genetic_rl::genetic_training::simulation::Simulation;
use genetic_rl::genetic_training::training::{mutation_rate_at, rank_results, reproduce,
    run_generation, select_survivors, training_from_checkpoint, TrainingError};
use rand::Rng;

const ONE: i64 = SCALE;

/// A genome holding a single scalar guess; its policy output is the guess
/// itself.
#[derive(Clone, Debug)]
struct GuessAgent {
    guess: i64,
}

impl Agent for GuessAgent {
    fn step(&mut self, _input: &Vec<Vec<i64>>) -> Vec<Vec<i64>> {
        vec![vec![self.guess]]
    }

    fn reset(&mut self) {}

    fn mutate(&self, mutation_rate: i64) -> Self {
        let span = if mutation_rate > 0 { mutation_rate } else { 1 };
        let delta = rand::thread_rng().gen_range(-span..=span);
        GuessAgent { guess: self.guess + delta }
    }
}

/// Scores a policy by how close its output stands to a fixed target:
/// fitness is the negated absolute distance, so zero is best.
#[derive(Clone)]
struct GuessSimulation {
    target: i64,
}

impl Simulation for GuessSimulation {
    fn evaluate_agent<A: Agent>(&self, agent: &mut A) -> i64 {
        let out = agent.step(&vec![vec![0]]);
        -(out[0][0] - self.target).abs()
    }

    fn on_generation(&mut self, _generation_number: usize) {}
}

fn guess_population(guesses: &[i64]) -> Vec<GuessAgent> {
    guesses.iter().map(|&g| GuessAgent { guess: g }).collect()
}

fn best_fitness(population: &[GuessAgent], sim: &GuessSimulation) -> i64 {
    population
        .iter()
        .map(|a| sim.evaluate_agent(&mut a.clone()))
        .max()
        .expect("population must not be empty")
}

#[test]
fn mutation_rate_at_exact_values() {
    // decay 0.5: 1.0, 0.5, 0.25, 0.125
    assert_eq!(mutation_rate_at(ONE, ONE / 2, 0), ONE);
    assert_eq!(mutation_rate_at(ONE, ONE / 2, 1), ONE / 2);
    assert_eq!(mutation_rate_at(ONE, ONE / 2, 2), ONE / 4);
    assert_eq!(mutation_rate_at(ONE, ONE / 2, 3), ONE / 8);
}

#[test]
fn mutation_rate_decay_is_monotone_non_increasing() {
    let mut prev = mutation_rate_at(ONE, 900_000, 0);
    for g in 1..30 {
        let cur = mutation_rate_at(ONE, 900_000, g);
        assert!(cur <= prev, "rate grew from {} to {} at generation {}", prev, cur, g);
        prev = cur;
    }
    assert!(prev < ONE);
}

#[test]
fn mutation_rate_constant_for_unit_decay() {
    for g in 0..10 {
        assert_eq!(mutation_rate_at(ONE / 3, SCALE, g), ONE / 3);
    }
}

#[test]
fn rank_results_sorts_by_descending_score() {
    let pairs = vec![
        (GuessAgent { guess: 1 }, -5),
        (GuessAgent { guess: 2 }, 7),
        (GuessAgent { guess: 3 }, 0),
        (GuessAgent { guess: 4 }, 7),
        (GuessAgent { guess: 5 }, -1),
    ];
    let ranked = rank_results(pairs);
    let scores: Vec<i64> = ranked.iter().map(|p| p.1).collect();
    assert_eq!(scores, vec![7, 7, 0, -1, -5]);
    // The ranking is deterministic: the two entries scoring 7 keep their
    // input order.
    let guesses: Vec<i64> = ranked.iter().map(|p| p.0.guess).collect();
    assert_eq!(guesses, vec![2, 4, 3, 5, 1]);
}

#[test]
fn run_generation_ranks_population_by_fitness() {
    let population = guess_population(&[40, 10, 25, 5]);
    let sim = GuessSimulation { target: 0 };
    let results = run_generation(population, &sim);
    assert_eq!(results.len(), 4);
    let guesses: Vec<i64> = results.iter().map(|p| p.0.guess).collect();
    assert_eq!(guesses, vec![5, 10, 25, 40]);
    let scores: Vec<i64> = results.iter().map(|p| p.1).collect();
    assert_eq!(scores, vec![-5, -10, -25, -40]);
}

#[test]
fn selection_keeps_exactly_the_top_k() {
    let population = guess_population(&[9, 1, 7, 3, 5, 2, 8, 4]);
    let sim = GuessSimulation { target: 0 };
    let ranked = run_generation(population, &sim);
    let worst_kept = ranked[2].1;
    let best_dropped = ranked[3].1;
    let survivors = select_survivors(ranked, 3);
    assert_eq!(survivors.len(), 3);
    let mut kept: Vec<i64> = survivors.iter().map(|a| a.guess).collect();
    kept.sort();
    assert_eq!(kept, vec![1, 2, 3]);
    assert!(worst_kept >= best_dropped);
}

#[test]
fn reproduce_restores_exact_population_size() {
    let survivors = guess_population(&[1, 2, 3]);
    let next = reproduce(survivors, 10, ONE);
    assert_eq!(next.len(), 10);
    let next_again = reproduce(next, 10, ONE);
    assert_eq!(next_again.len(), 10);
}

#[test]
fn training_population_size_is_restored_every_generation() {
    let mut sim = GuessSimulation { target: 0 };
    let result = training_from_checkpoint(
        guess_population(&[50, -20]),
        &mut sim,
        12,
        3,
        ONE / 2,
        ONE,
        900_000,
    );
    let population = result.expect("valid configuration must be accepted");
    assert_eq!(population.len(), 12);
}

#[test]
fn training_rejects_zero_target() {
    let mut sim = GuessSimulation { target: 0 };
    let r = training_from_checkpoint(guess_population(&[1]), &mut sim, 0, 1, ONE, ONE, ONE);
    assert_eq!(r.unwrap_err(), TrainingError::ZeroTarget);
}

#[test]
fn training_rejects_survival_rate_out_of_range() {
    let mut sim = GuessSimulation { target: 0 };
    let r = training_from_checkpoint(guess_population(&[1]), &mut sim, 10, 1, 0, ONE, ONE);
    assert_eq!(r.unwrap_err(), TrainingError::SurvivalRateOutOfRange);
    let r = training_from_checkpoint(
        guess_population(&[1]),
        &mut sim,
        10,
        1,
        SCALE + 1,
        ONE,
        ONE,
    );
    assert_eq!(r.unwrap_err(), TrainingError::SurvivalRateOutOfRange);
}

#[test]
fn training_rejects_negative_mutation_rate() {
    let mut sim = GuessSimulation { target: 0 };
    let r = training_from_checkpoint(guess_population(&[1]), &mut sim, 10, 1, ONE, -1, ONE);
    assert_eq!(r.unwrap_err(), TrainingError::MutationRateOutOfRange);
}

#[test]
fn training_rejects_decay_out_of_range() {
    let mut sim = GuessSimulation { target: 0 };
    let r = training_from_checkpoint(guess_population(&[1]), &mut sim, 10, 1, ONE, ONE, 0);
    assert_eq!(r.unwrap_err(), TrainingError::MutationDecayOutOfRange);
    let r = training_from_checkpoint(
        guess_population(&[1]),
        &mut sim,
        10,
        1,
        ONE,
        ONE,
        SCALE + 1,
    );
    assert_eq!(r.unwrap_err(), TrainingError::MutationDecayOutOfRange);
}

#[test]
fn training_rejects_empty_population() {
    let mut sim = GuessSimulation { target: 0 };
    let r = training_from_checkpoint(Vec::<GuessAgent>::new(), &mut sim, 10, 1, ONE, ONE, ONE);
    assert_eq!(r.unwrap_err(), TrainingError::EmptyPopulation);
}

#[test]
fn training_rejects_oversized_population() {
    let mut sim = GuessSimulation { target: 0 };
    let big = guess_population(&vec![0i64; 101]);
    let r = training_from_checkpoint(big, &mut sim, 1, 1, ONE, ONE, ONE);
    assert_eq!(r.unwrap_err(), TrainingError::PopulationTooLarge);
}

#[test]
fn training_rejects_configurations_with_zero_survivors() {
    let mut sim = GuessSimulation { target: 0 };
    // One individual at a 50% survival rate truncates to zero survivors.
    let r = training_from_checkpoint(guess_population(&[1]), &mut sim, 1, 1, ONE / 2, ONE, ONE);
    assert_eq!(r.unwrap_err(), TrainingError::NoSurvivors);
}

#[test]
fn training_converges_toward_a_single_best_genome() {
    // A scoring function with one best possible genome (the target): with
    // survivors carried over unmutated, the best fitness never falls, and
    // with this many perturbations a strict improvement on the far-off
    // start is overwhelmingly certain.
    let start = guess_population(&[50 * ONE]);
    let sim_template = GuessSimulation { target: 0 };
    let initial_best = best_fitness(&start, &sim_template);
    let mut sim = sim_template.clone();
    let trained = training_from_checkpoint(start, &mut sim, 20, 10, ONE / 2, 100 * ONE, 900_000)
        .expect("valid configuration must be accepted");
    assert_eq!(trained.len(), 20);
    let final_best = best_fitness(&trained, &sim_template);
    assert!(
        final_best > initial_best,
        "no improvement: started at {}, ended at {}",
        initial_best,
        final_best
    );
}
