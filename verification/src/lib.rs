//! Evolutionary root search over integer candidate values.
//!
//! A fixed-size population of integer candidates is evolved, generation by
//! generation, toward a root of a fixed cubic objective. Fitness of a
//! candidate `x` is `|objective(x)|`; lower is better and `0` marks an exact
//! root. Two selection strategies (elitism and tournament recombination) and
//! two diversity-maintenance strategies (genocide and random predation) are
//! provided, together with a run loop that tracks the best candidate seen so
//! far and stops on convergence or on a generation budget.
//!
//! The search works over whole-unit candidates: values, mutation offsets,
//! fitness and the convergence tolerance are all integers, so arithmetic is
//! exact, every comparison is total, and a run converges exactly when it has
//! found a true root of the objective. All candidates and spawn-interval
//! endpoints live inside `[-VALUE_LIMIT, VALUE_LIMIT]`; the operators force
//! results back into that range, which keeps every fitness evaluation and
//! population-wide sum inside machine integers.

use vstd::prelude::*;

mod rng;
mod population;

pub use population::Population;
pub use population::Selection;
pub use population::Rearrangement;
pub use population::Summary;
pub use population::Trace;
pub use population::individual;
pub use population::mutation;

verus! {

/// Largest magnitude a candidate value or a spawn-interval endpoint may take.
/// Keeping every candidate inside this range keeps the objective, and the
/// population-wide sum of objective values, inside `i128`.
pub const VALUE_LIMIT: i64 = 100_000_000_000;

/// Largest admissible population size; with at most this many individuals the
/// sum of objective values over a population stays inside `i128`.
pub const POPULATION_LIMIT: usize = 100_000;

/// Default number of individuals in a population.
pub const POPULATION_SIZE: usize = 100;

/// Default spawn interval: fresh individuals are drawn uniformly from
/// `[INITIAL_LO, INITIAL_HI)`.
pub const INITIAL_LO: i64 = -100;

/// Upper end (exclusive) of the default spawn interval.
pub const INITIAL_HI: i64 = 100;

/// Mutation offsets are drawn uniformly from `[MUTATION_LO, MUTATION_HI)`.
pub const MUTATION_LO: i64 = -10;

/// Upper end (exclusive) of the mutation offset interval.
pub const MUTATION_HI: i64 = 10;

/// Generation budget: the run loop stops once the generation counter exceeds
/// this bound.
pub const MAX_GENERATIONS: u64 = 100_000;

/// A global best whose fitness falls below this tolerance counts as a root.
pub const FITNESS_TOLERANCE: i128 = 1;

/// Stagnation threshold on the distance between two consecutive generation
/// bests; a smaller distance counts as a stagnant generation.
pub const BEST_DELTA: i64 = 1;

/// Number of consecutive stagnant generations that triggers a genocide.
pub const GENOCIDE_THRESHOLD: u8 = 5;

/// Genocide rescales the spawn interval by `m / SCALE_DEN` with `m` drawn
/// uniformly from `[SCALE_LO, SCALE_HI)`.
pub const SCALE_LO: i64 = 100;

/// Upper end (exclusive) of the genocide multiplier numerator.
pub const SCALE_HI: i64 = 2000;

/// Denominator of the genocide interval multiplier.
pub const SCALE_DEN: i64 = 1000;

/// Bound on `|objective(x)|` over all valid candidate values.
pub const OBJECTIVE_BOUND: i128 = 1_001_000_000_000_000_000_000_000_000_000_000;

/// A candidate value the population may hold.
pub open spec fn valid_value(x: int) -> bool {
    -VALUE_LIMIT <= x <= VALUE_LIMIT
}

/// Magnitude of an integer.
pub open spec fn abs_int(x: int) -> int {
    if x < 0 { -x } else { x }
}

/// The objective whose roots are sought: a cubic with roots at `478`,
/// `-4567` and `1240`.
pub open spec fn spec_objective(x: int) -> int {
    (x - 478) * (x + 4567) * (x - 1240)
}

/// Fitness of a candidate: magnitude of the objective; `0` at an exact root.
pub open spec fn spec_fitness(x: int) -> int {
    abs_int(spec_objective(x))
}

/// Bounded factors have a bounded product.
pub proof fn lemma_mul_bound(a: int, b: int, k1: int, k2: int)
    requires
        -k1 <= a <= k1,
        -k2 <= b <= k2,
        0 <= k1,
        0 <= k2,
    ensures
        -(k1 * k2) <= a * b <= k1 * k2,
{
    assert(-(k1 * k2) <= a * b <= k1 * k2) by (nonlinear_arith)
        requires
            -k1 <= a <= k1,
            -k2 <= b <= k2,
            0 <= k1,
            0 <= k2,
    ;
}

/// Over valid candidates the objective stays within `OBJECTIVE_BOUND`.
pub proof fn lemma_objective_bound(x: int)
    requires
        valid_value(x),
    ensures
        abs_int(spec_objective(x)) <= OBJECTIVE_BOUND,
{
    let k: int = 100_000_005_000;
    lemma_mul_bound(x - 478, x + 4567, k, k);
    lemma_mul_bound((x - 478) * (x + 4567), x - 1240, k * k, k);
}

/// Evaluates the objective on a candidate value.
pub fn objective(x: i64) -> (r: i128)
    requires
        valid_value(x as int),
    ensures
        r == spec_objective(x as int),
        -OBJECTIVE_BOUND <= r <= OBJECTIVE_BOUND,
{
    proof {
        lemma_objective_bound(x as int);
    }
    let xl = x as i128;
    let a = xl - 478;
    let b = xl + 4567;
    let c = xl - 1240;
    proof {
        lemma_mul_bound(a as int, b as int, 100_000_005_000, 100_000_005_000);
    }
    let ab = a * b;
    ab * c
}

} // verus!
