//! The training engine: population lifecycle, parallel fitness
//! evaluation, deterministic ranking, survival selection, mutation-driven
//! reproduction, and mutation-rate annealing across generations.

use crate::fixed::{fp_mul, fp_mul_spec, lemma_fp_mul_contract, lemma_fp_mul_nonneg,
    lemma_fp_mul_one, lemma_tdiv_mono, RATE_LIMIT, SCALE};
use crate::genetic_training::agent::Agent;
use crate::genetic_training::simulation::Simulation;
use rayon::iter::{IntoParallelRefIterator, ParallelIterator};
use vstd::arithmetic::div_mod::{lemma_div_is_ordered, lemma_div_multiples_vanish,
    lemma_div_multiples_vanish_fancy, lemma_div_pos_is_pos};
use vstd::arithmetic::mul::lemma_mul_inequality;
use vstd::multiset::Multiset;
use vstd::prelude::*;

verus! {

broadcast use vstd::seq_lib::group_to_multiset_ensures, vstd::multiset::group_multiset_axioms;

/// How many mutated candidates the bootstrap phase seeds for each slot of
/// the target population.
pub const OVERSAMPLING: usize = 100;

/// The annealed mutation rate of generation `g`: the base rate multiplied
/// by the decay factor `g` times, each product rescaled with truncation.
pub open spec fn decayed_rate_spec(base: int, decay: int, g: nat) -> int
    decreases g,
{
    if g == 0 {
        base
    } else {
        fp_mul_spec(decayed_rate_spec(base, decay, (g - 1) as nat), decay)
    }
}

/// Mutation-rate annealing is monotone non-increasing for any decay of at
/// most one; it is constant when the decay is exactly one, and strictly
/// decreasing while the rate is positive when the decay is below one.
pub proof fn lemma_mutation_rate_decay(base: int, decay: int, g: nat)
    requires
        0 <= base,
        0 < decay <= SCALE,
    ensures
        0 <= decayed_rate_spec(base, decay, (g + 1) as nat) <= decayed_rate_spec(base, decay, g),
        decayed_rate_spec(base, decay, g) <= base,
        decay == SCALE ==> decayed_rate_spec(base, decay, g) == base,
        decay < SCALE && decayed_rate_spec(base, decay, g) > 0 ==> decayed_rate_spec(
            base,
            decay,
            (g + 1) as nat,
        ) < decayed_rate_spec(base, decay, g),
    decreases g,
{
    if g > 0 {
        lemma_mutation_rate_decay(base, decay, (g - 1) as nat);
    }
    let rg = decayed_rate_spec(base, decay, g);
    lemma_fp_mul_nonneg(rg, decay);
    lemma_fp_mul_contract(rg, decay);
    if decay == SCALE {
        lemma_fp_mul_one(rg);
        if g > 0 {
            lemma_fp_mul_one(decayed_rate_spec(base, decay, (g - 1) as nat));
        }
    }
    if decay < SCALE && rg > 0 {
        assert(rg * decay <= (rg - 1) * (SCALE as int) + (SCALE as int) - 1) by (nonlinear_arith)
            requires
                0 < rg,
                0 < decay < SCALE,
        ;
        lemma_tdiv_mono(rg * decay, (rg - 1) * (SCALE as int) + (SCALE as int) - 1, SCALE as int);
        lemma_div_multiples_vanish_fancy(rg - 1, (SCALE as int) - 1, SCALE as int);
        assert((SCALE as int) * (rg - 1) == (rg - 1) * (SCALE as int)) by (nonlinear_arith);
    }
}

/// The annealed mutation rate of one generation, computed exactly.
#[verifier::loop_isolation(false)]
pub fn mutation_rate_at(base: i64, decay: i64, generation: usize) -> (r: i64)
    requires
        0 <= base <= RATE_LIMIT,
        0 < decay <= SCALE,
    ensures
        r == decayed_rate_spec(base as int, decay as int, generation as nat),
        0 <= r <= base,
{
    let mut cur: i64 = base;
    let mut g: usize = 0;
    while g < generation
        invariant
            0 <= g <= generation,
            cur == decayed_rate_spec(base as int, decay as int, g as nat),
            0 <= cur <= base,
        decreases generation - g,
    {
        proof {
            lemma_fp_mul_nonneg(cur as int, decay as int);
            lemma_fp_mul_contract(cur as int, decay as int);
        }
        cur = fp_mul(cur, decay);
        g = g + 1;
    }
    cur
}

/// The genomes of a ranked sequence, in ranking order.
pub open spec fn genomes_of<A>(s: Seq<(A, i64)>) -> Seq<A> {
    s.map_values(|p: (A, i64)| p.0)
}

/// Scores never increase along the sequence.
pub open spec fn scores_sorted_desc<A>(s: Seq<(A, i64)>) -> bool {
    forall|i: int, j: int| 0 <= i <= j < s.len() ==> (#[trigger] s[i]).1 >= (#[trigger] s[j]).1
}

/// Taking the genomes commutes with removing an element.
proof fn lemma_genomes_remove<A>(s: Seq<(A, i64)>, i: int)
    requires
        0 <= i < s.len(),
    ensures
        genomes_of(s.remove(i)) =~= genomes_of(s).remove(i),
{
}

/// Taking the genomes commutes with appending an element.
proof fn lemma_genomes_push<A>(s: Seq<(A, i64)>, p: (A, i64))
    ensures
        genomes_of(s.push(p)) =~= genomes_of(s).push(p.0),
{
}

/// The earliest index holding the greatest score of a sequence.
pub open spec fn first_best_index<A>(s: Seq<(A, i64)>) -> int
    decreases s.len(),
{
    if s.len() <= 1 {
        0
    } else {
        let t = first_best_index(s.drop_last());
        if s.last().1 > s[t].1 {
            s.len() - 1
        } else {
            t
        }
    }
}

/// The earliest-best index of a nonempty sequence is a valid index.
proof fn lemma_first_best_index_in_range<A>(s: Seq<(A, i64)>)
    requires
        s.len() > 0,
    ensures
        0 <= first_best_index(s) < s.len(),
    decreases s.len(),
{
    if s.len() > 1 {
        lemma_first_best_index_in_range(s.drop_last());
    }
}

/// The deterministic ranking of scored genomes: repeatedly move the
/// earliest highest-scored entry to the front of what remains, so that
/// equal scores keep their input order.
pub open spec fn rank_spec<A>(s: Seq<(A, i64)>) -> Seq<(A, i64)>
    decreases s.len(),
    via rank_spec_decreases::<A>
{
    if s.len() == 0 {
        Seq::empty()
    } else {
        let i = first_best_index(s);
        seq![s[i]] + rank_spec(s.remove(i))
    }
}

#[via_fn]
proof fn rank_spec_decreases<A>(s: Seq<(A, i64)>) {
    if s.len() > 0 {
        lemma_first_best_index_in_range(s);
    }
}

/// Moving one occurrence of `x` from one multiset to another changes
/// neither their combined contents.
proof fn lemma_multiset_transfer<T>(m1: Multiset<T>, m2: Multiset<T>, x: T)
    requires
        m2.count(x) >= 1,
    ensures
        m1.insert(x).add(m2.remove(x)) =~= m1.add(m2),
{
}

/// Relies on rayon's `par_iter().map(..).collect::<Vec<_>>()` over a
/// slice: an indexed parallel map that yields exactly one score per
/// genome, in the genomes' order. Each genome is evaluated on its own
/// clone against the shared, immutably borrowed simulation, so no two
/// concurrent evaluations share mutable state.
#[verifier::external_body]
fn evaluate_all<A: Agent, S: Simulation>(population: &Vec<A>, simulation: &S) -> (scores: Vec<
    i64,
>)
    ensures
        scores@.len() == population@.len(),
{
    population.par_iter().map(|agent| simulation.evaluate_agent(&mut agent.clone())).collect()
}

/// Ranks scored genomes by descending score. The result is a permutation
/// of the input, both as scored pairs and as bare genomes, and is pinned
/// exactly by `rank_spec`: a function of the input alone, under which
/// equal scores keep their input order.
#[verifier::loop_isolation(false)]
pub fn rank_results<A: Agent>(results: Vec<(A, i64)>) -> (ranked: Vec<(A, i64)>)
    ensures
        ranked@.len() == results@.len(),
        scores_sorted_desc(ranked@),
        ranked@.to_multiset() == results@.to_multiset(),
        genomes_of(ranked@).to_multiset() == genomes_of(results@).to_multiset(),
        ranked@ == rank_spec(results@),
{
    let ghost orig = results@;
    let mut rem = results;
    let mut out: Vec<(A, i64)> = Vec::new();
    proof {
        assert(out@.to_multiset().add(rem@.to_multiset()) =~= orig.to_multiset());
        assert(genomes_of(out@).to_multiset().add(genomes_of(rem@).to_multiset())
            =~= genomes_of(orig).to_multiset());
        assert(out@ + rank_spec(rem@) =~= rank_spec(orig));
    }
    while rem.len() > 0
        invariant
            out@.len() + rem@.len() == orig.len(),
            scores_sorted_desc(out@),
            forall|i: int, j: int|
                0 <= i < out@.len() && 0 <= j < rem@.len() ==> (#[trigger] out@[i]).1 >= (
                #[trigger] rem@[j]).1,
            out@.to_multiset().add(rem@.to_multiset()) == orig.to_multiset(),
            genomes_of(out@).to_multiset().add(genomes_of(rem@).to_multiset()) == genomes_of(
                orig,
            ).to_multiset(),
            out@ + rank_spec(rem@) == rank_spec(orig),
        decreases rem@.len(),
    {
        let mut best: usize = 0;
        let mut k: usize = 1;
        while k < rem.len()
            invariant
                0 < rem@.len(),
                1 <= k <= rem@.len(),
                0 <= best < k,
                forall|t: int| 0 <= t < k ==> (#[trigger] rem@[t]).1 <= rem@[best as int].1,
                best == first_best_index(rem@.take(k as int)),
            decreases rem@.len() - k,
        {
            proof {
                lemma_first_best_index_in_range(rem@.take(k as int));
                assert(rem@.take(k as int + 1).drop_last() =~= rem@.take(k as int));
            }
            let cand = &rem[k];
            let cur = &rem[best];
            if cand.1 > cur.1 {
                best = k;
            }
            k = k + 1;
        }
        proof {
            assert(rem@.take(rem@.len() as int) =~= rem@);
        }
        let ghost rem_before = rem@;
        let ghost out_before = out@;
        let chosen = rem.remove(best);
        out.push(chosen);
        proof {
            assert(rem_before.to_multiset().count(chosen) >= 1);
            lemma_multiset_transfer(out_before.to_multiset(), rem_before.to_multiset(), chosen);
            lemma_genomes_remove(rem_before, best as int);
            lemma_genomes_push(out_before, chosen);
            assert(genomes_of(rem_before).to_multiset().count(chosen.0) >= 1) by {
                assert(genomes_of(rem_before)[best as int] == chosen.0);
            };
            lemma_multiset_transfer(genomes_of(out_before).to_multiset(), genomes_of(
                rem_before,
            ).to_multiset(), chosen.0);
            assert forall|j: int| 0 <= j < rem@.len() implies (#[trigger] rem@[j]).1 <= chosen.1
            by {
                assert(rem@[j] == if j < best { rem_before[j] } else { rem_before[j + 1] });
            }
            assert(rank_spec(rem_before) == seq![chosen] + rank_spec(rem_before.remove(
                best as int,
            )));
            assert(out@ + rank_spec(rem@) =~= out_before + rank_spec(rem_before));
        }
    }
    proof {
        assert(rank_spec(rem@) == Seq::<(A, i64)>::empty());
        assert(out@ + rank_spec(rem@) =~= out@);
    }
    out
}

/// Evaluates the whole population in parallel (one independent simulation
/// per genome) and ranks the results by descending fitness. The returned
/// genomes are exactly the population's genomes, reordered.
pub fn run_generation<A: Agent, S: Simulation>(population: Vec<A>, simulation: &S) -> (results:
    Vec<(A, i64)>)
    ensures
        results@.len() == population@.len(),
        scores_sorted_desc(results@),
        genomes_of(results@).to_multiset() == population@.to_multiset(),
{
    let ghost orig = population@;
    let scores = evaluate_all(&population, simulation);
    let mut pop = population;
    let mut pairs: Vec<(A, i64)> = Vec::new();
    proof {
        assert(genomes_of(pairs@).to_multiset().add(pop@.to_multiset()) =~= orig.to_multiset());
    }
    while pop.len() > 0
        invariant
            pairs@.len() + pop@.len() == orig.len(),
            scores@.len() == orig.len(),
            genomes_of(pairs@).to_multiset().add(pop@.to_multiset()) == orig.to_multiset(),
        decreases pop@.len(),
    {
        let ghost pop_before = pop@;
        let ghost pairs_before = pairs@;
        let a = pop.remove(0);
        let idx = pairs.len();
        let pair = (a, scores[idx]);
        pairs.push(pair);
        proof {
            lemma_genomes_push(pairs_before, pair);
            assert(pop_before.to_multiset().count(pair.0) >= 1);
            lemma_multiset_transfer(genomes_of(pairs_before).to_multiset(),
                pop_before.to_multiset(), pair.0);
        }
    }
    rank_results(pairs)
}

/// Keeps the first `nb_keep` genomes of a ranked sequence: exactly
/// `nb_keep` survive, and every survivor's fitness is at least every
/// non-survivor's fitness.
#[verifier::loop_isolation(false)]
pub fn select_survivors<A: Agent>(ranked: Vec<(A, i64)>, nb_keep: usize) -> (survivors: Vec<A>)
    requires
        nb_keep <= ranked@.len(),
        scores_sorted_desc(ranked@),
    ensures
        survivors@.len() == nb_keep,
        forall|i: int| 0 <= i < nb_keep ==> survivors@[i] == (#[trigger] ranked@[i]).0,
        forall|i: int, j: int|
            0 <= i < nb_keep && nb_keep <= j < ranked@.len() ==> (#[trigger] ranked@[i]).1 >= (
            #[trigger] ranked@[j]).1,
{
    let ghost orig = ranked@;
    let mut rem = ranked;
    let mut survivors: Vec<A> = Vec::new();
    proof {
        assert(rem@ =~= orig.skip(0));
    }
    while survivors.len() < nb_keep
        invariant
            survivors@.len() <= nb_keep,
            rem@ =~= orig.skip(survivors@.len() as int),
            forall|i: int| 0 <= i < survivors@.len() ==> survivors@[i] == (#[trigger] orig[i]).0,
        decreases nb_keep - survivors@.len(),
    {
        let ghost rem_before = rem@;
        let p = rem.remove(0);
        survivors.push(p.0);
        proof {
            assert(rem@ =~= orig.skip(survivors@.len() as int));
        }
    }
    survivors
}

/// Restores a population to exactly `nb_individus` members: the survivors
/// come first, then mutated clones of the survivors taken cyclically;
/// afterwards every member's transient state is reset.
#[verifier::loop_isolation(false)]
pub fn reproduce<A: Agent>(population: Vec<A>, nb_individus: usize, mutation_rate: i64) -> (r:
    Vec<A>)
    requires
        1 <= population@.len() <= nb_individus,
    ensures
        r@.len() == nb_individus,
{
    let pop: usize = population.len();
    let mut population = population;
    let mut i: usize = 0;
    while population.len() < nb_individus
        invariant
            population@.len() == pop + i,
            pop + i <= nb_individus,
        decreases nb_individus - population@.len(),
    {
        let idx: usize = i % pop;
        let parent: &A = &population[idx];
        let child = parent.mutate(mutation_rate);
        population.push(child);
        i = i + 1;
    }
    let mut out: Vec<A> = Vec::new();
    while population.len() > 0
        invariant
            out@.len() + population@.len() == nb_individus,
        decreases population@.len(),
    {
        let mut a = population.remove(0);
        a.reset();
        out.push(a);
    }
    out
}

/// Why a training configuration was rejected before any generation ran.
#[derive(Clone, Copy, Debug, PartialEq, Eq, Structural)]
pub enum TrainingError {
    /// The target population size is zero.
    ZeroTarget,
    /// The survival rate lies outside `(0, 1]` (in fixed-point units,
    /// `(0, SCALE]`).
    SurvivalRateOutOfRange,
    /// The initial mutation rate lies outside `[0, RATE_LIMIT]`.
    MutationRateOutOfRange,
    /// The mutation decay lies outside `(0, 1]` (in fixed-point units,
    /// `(0, SCALE]`).
    MutationDecayOutOfRange,
    /// The starting population holds no genome to clone from.
    EmptyPopulation,
    /// The starting population already exceeds the bootstrap size.
    PopulationTooLarge,
    /// The configuration would keep zero survivors each generation.
    NoSurvivors,
}

/// How many genomes survive each generation: the target size times the
/// survival rate, truncated.
pub open spec fn nb_keep_spec(nb_individus: int, survival_rate: int) -> int {
    nb_individus * survival_rate / (SCALE as int)
}

/// Whether a training configuration is accepted.
pub open spec fn config_ok<A>(
    population: Seq<A>,
    nb_individus: int,
    survival_rate: int,
    mutation_rate: int,
    mutation_decay: int,
) -> bool {
    &&& nb_individus > 0
    &&& 0 < survival_rate <= SCALE
    &&& 0 <= mutation_rate <= RATE_LIMIT
    &&& 0 < mutation_decay <= SCALE
    &&& population.len() > 0
    &&& population.len() <= nb_individus * (OVERSAMPLING as int)
    &&& nb_keep_spec(nb_individus, survival_rate) >= 1
}

/// Runs the full training loop from an existing population.
///
/// The configuration is validated first and rejected with a descriptive
/// error before any generation runs. On success the engine bootstraps the
/// population to `nb_individus * OVERSAMPLING` mutated candidates, then
/// for each generation evaluates all genomes in parallel, ranks them by
/// descending fitness, keeps the top `nb_individus * survivial_rate /
/// SCALE` (truncated), reproduces back to `nb_individus` members at the
/// annealed rate `mutation_rate * mutation_decay^g`, and lets the
/// simulation advance its own state strictly between generations.
#[verifier::loop_isolation(false)]
pub fn training_from_checkpoint<A: Agent, S: Simulation>(
    population: Vec<A>,
    simulation: &mut S,
    nb_individus: usize,
    nb_generation: usize,
    survivial_rate: i64,
    mutation_rate: i64,
    mutation_decay: i64,
) -> (r: Result<Vec<A>, TrainingError>)
    requires
        nb_individus <= usize::MAX / 100,
    ensures
        r == Err::<Vec<A>, TrainingError>(TrainingError::ZeroTarget) <==> nb_individus == 0,
        r == Err::<Vec<A>, TrainingError>(TrainingError::SurvivalRateOutOfRange) <==> nb_individus
            > 0 && !(0 < survivial_rate <= SCALE),
        r == Err::<Vec<A>, TrainingError>(TrainingError::MutationRateOutOfRange) <==> nb_individus
            > 0 && 0 < survivial_rate <= SCALE && !(0 <= mutation_rate <= RATE_LIMIT),
        r == Err::<Vec<A>, TrainingError>(TrainingError::MutationDecayOutOfRange) <==> nb_individus
            > 0 && 0 < survivial_rate <= SCALE && 0 <= mutation_rate <= RATE_LIMIT && !(0
            < mutation_decay <= SCALE),
        r == Err::<Vec<A>, TrainingError>(TrainingError::EmptyPopulation) <==> nb_individus > 0
            && 0 < survivial_rate <= SCALE && 0 <= mutation_rate <= RATE_LIMIT && 0
            < mutation_decay <= SCALE && population@.len() == 0,
        r == Err::<Vec<A>, TrainingError>(TrainingError::PopulationTooLarge) <==> nb_individus > 0
            && 0 < survivial_rate <= SCALE && 0 <= mutation_rate <= RATE_LIMIT && 0
            < mutation_decay <= SCALE && population@.len() > 0 && population@.len() > nb_individus
            * (OVERSAMPLING as int),
        r == Err::<Vec<A>, TrainingError>(TrainingError::NoSurvivors) <==> nb_individus > 0 && 0
            < survivial_rate <= SCALE && 0 <= mutation_rate <= RATE_LIMIT && 0 < mutation_decay
            <= SCALE && 0 < population@.len() <= nb_individus * (OVERSAMPLING as int)
            && nb_keep_spec(nb_individus as int, survivial_rate as int) == 0,
        r matches Ok(p) ==> config_ok(
            population@,
            nb_individus as int,
            survivial_rate as int,
            mutation_rate as int,
            mutation_decay as int,
        ) && p@.len() == (if nb_generation == 0 {
            nb_individus * (OVERSAMPLING as int)
        } else {
            nb_individus as int
        }),
        (r matches Err(_)) <==> !config_ok(
            population@,
            nb_individus as int,
            survivial_rate as int,
            mutation_rate as int,
            mutation_decay as int,
        ),
{
    if nb_individus == 0 {
        return Err(TrainingError::ZeroTarget);
    }
    if survivial_rate <= 0 || survivial_rate > SCALE {
        return Err(TrainingError::SurvivalRateOutOfRange);
    }
    if mutation_rate < 0 || mutation_rate > RATE_LIMIT {
        return Err(TrainingError::MutationRateOutOfRange);
    }
    if mutation_decay <= 0 || mutation_decay > SCALE {
        return Err(TrainingError::MutationDecayOutOfRange);
    }
    if population.len() == 0 {
        return Err(TrainingError::EmptyPopulation);
    }
    let nb_boot: usize = nb_individus * OVERSAMPLING;
    if population.len() > nb_boot {
        return Err(TrainingError::PopulationTooLarge);
    }
    proof {
        assert((nb_individus as int) * (survivial_rate as int) <= (nb_individus as int) * (
        SCALE as int)) by (nonlinear_arith)
            requires
                0 < survivial_rate <= SCALE,
                nb_individus > 0,
        ;
        assert((nb_individus as int) * (SCALE as int) < 0x1_0000_0000_0000_0000_0000_0000_0000_0000int)
            by (nonlinear_arith)
            requires
                nb_individus <= 0xffff_ffff_ffff_ffffu64,
        ;
        lemma_div_is_ordered((nb_individus as int) * (survivial_rate as int), (
        nb_individus as int) * (SCALE as int), SCALE as int);
        lemma_div_multiples_vanish(nb_individus as int, SCALE as int);
        assert((SCALE as int) * (nb_individus as int) == (nb_individus as int) * (SCALE as int))
            by (nonlinear_arith);
        lemma_div_pos_is_pos((nb_individus as int) * (survivial_rate as int), SCALE as int);
    }
    let nk_wide: u128 = (nb_individus as u128) * (survivial_rate as u128) / 1_000_000u128;
    let nb_keep: usize = nk_wide as usize;
    if nb_keep == 0 {
        return Err(TrainingError::NoSurvivors);
    }
    let mut population = reproduce(population, nb_boot, mutation_rate);
    let mut gen_rate: i64 = mutation_rate;
    let mut g: usize = 0;
    while g < nb_generation
        invariant
            0 <= g <= nb_generation,
            population@.len() == (if g == 0 {
                nb_boot as int
            } else {
                nb_individus as int
            }),
            0 <= gen_rate <= mutation_rate,
            gen_rate == decayed_rate_spec(mutation_rate as int, mutation_decay as int, g as nat),
        decreases nb_generation - g,
    {
        let ranked = run_generation(population, &*simulation);
        let survivors = select_survivors(ranked, nb_keep);
        population = reproduce(survivors, nb_individus, gen_rate);
        simulation.on_generation(g);
        proof {
            lemma_fp_mul_nonneg(gen_rate as int, mutation_decay as int);
            lemma_fp_mul_contract(gen_rate as int, mutation_decay as int);
        }
        gen_rate = fp_mul(gen_rate, mutation_decay);
        g = g + 1;
    }
    Ok(population)
}

} // verus!
