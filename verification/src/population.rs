//! The population and the operators that evolve it.

use vstd::prelude::*;

use crate::rng::gen_i64;
use crate::rng::gen_index;
use crate::BEST_DELTA;
use crate::FITNESS_TOLERANCE;
use crate::GENOCIDE_THRESHOLD;
use crate::INITIAL_HI;
use crate::INITIAL_LO;
use crate::MAX_GENERATIONS;
use crate::MUTATION_HI;
use crate::MUTATION_LO;
use crate::OBJECTIVE_BOUND;
use crate::POPULATION_LIMIT;
use crate::POPULATION_SIZE;
use crate::SCALE_DEN;
use crate::SCALE_HI;
use crate::SCALE_LO;
use crate::VALUE_LIMIT;
use crate::abs_int;
use crate::objective;
use crate::spec_fitness;
use crate::spec_objective;
use crate::valid_value;

verus! {

/// How the next generation is produced from the current one.
#[derive(Clone, Copy, Debug, PartialEq, Eq, Structural)]
pub enum Selection {
    /// Every non-champion is pulled toward the champion and perturbed.
    Elitism,
    /// Children come from mini-tournaments between randomly drawn parents.
    Tournament,
}

/// Optional diversity-maintenance step applied after selection.
#[derive(Clone, Copy, Debug, PartialEq, Eq, Structural)]
pub enum Rearrangement {
    /// The population evolves under selection alone.
    Off,
    /// On sustained stagnation the spawn interval is rescaled and the whole
    /// population is redrawn from it.
    Genocide,
    /// Every generation the single worst individual is replaced by a fresh
    /// draw from the default spawn interval.
    RandomPredation,
}

impl Selection {
    /// Short name of the strategy, for reports.
    pub fn label(&self) -> (r: &'static str)
        ensures
            self is Elitism ==> r@ == "elitism"@,
            self is Tournament ==> r@ == "tournament"@,
    {
        match self {
            Selection::Elitism => "elitism",
            Selection::Tournament => "tournament",
        }
    }
}

impl Rearrangement {
    /// Short name of the strategy, for reports; empty when switched off.
    pub fn label(&self) -> (r: &'static str)
        ensures
            self is Off ==> r@ == ""@,
            self is Genocide ==> r@ == "genocide"@,
            self is RandomPredation ==> r@ == "random_predation"@,
    {
        match self {
            Rearrangement::Off => "",
            Rearrangement::Genocide => "genocide",
            Rearrangement::RandomPredation => "random_predation",
        }
    }
}

/// Truncating division (the quotient is rounded toward zero), for a positive
/// divisor; this is the division the machine performs on signed values.
pub open spec fn tdiv_spec(a: int, b: int) -> int {
    if a >= 0 {
        a / b
    } else {
        -((-a) / b)
    }
}

/// A value forced into the valid candidate range.
pub open spec fn clamp_spec(x: int) -> int {
    if x < -VALUE_LIMIT {
        -VALUE_LIMIT as int
    } else if x > VALUE_LIMIT {
        VALUE_LIMIT as int
    } else {
        x
    }
}

/// Midpoint of two candidates, rounded toward zero.
pub open spec fn mid_spec(a: int, b: int) -> int {
    tdiv_spec(a + b, 2)
}

/// `r` is a possible mutation of `x`: `x` shifted by some offset from the
/// mutation interval and forced back into the valid range.
pub open spec fn is_mutation_of(x: int, r: int) -> bool {
    exists|d: int| MUTATION_LO <= d < MUTATION_HI && r == #[trigger] clamp_spec(x + d)
}

/// Winner of a two-individual mini-tournament: strictly lower fitness wins
/// and ties go to the first drawn.
pub open spec fn winner_spec(a: int, b: int) -> int {
    if spec_fitness(a) <= spec_fitness(b) {
        a
    } else {
        b
    }
}

/// `v` is a value a mini-tournament over generation `s` can produce: the
/// winner of some pair of individuals drawn from `s`.
pub open spec fn is_tournament_winner(s: Seq<i64>, v: int) -> bool {
    exists|j: int, k: int|
        0 <= j < s.len() && 0 <= k < s.len() && v == #[trigger] winner_spec(
            s[j] as int,
            s[k] as int,
        )
}

/// `r` is a child tournament selection can produce from generation `s`: a
/// mutation of the midpoint of two tournament winners, both taken from `s`.
pub open spec fn is_tournament_child(s: Seq<i64>, r: int) -> bool {
    exists|pa: int, pb: int|
        is_tournament_winner(s, pa) && is_tournament_winner(s, pb) && is_mutation_of(
            #[trigger] mid_spec(pa, pb),
            r,
        )
}

/// A spawn-interval endpoint rescaled by the per-mille multiplier `m`,
/// rounded toward zero and forced back into the valid range.
pub open spec fn scale_point(p: int, m: int) -> int {
    clamp_spec(tdiv_spec(p * m, SCALE_DEN as int))
}

/// Lower endpoint of the genocide-rescaled interval: the rescaled lower
/// endpoint, stepped back by one only when rounding or clamping has collapsed
/// the interval against the upper end of the valid range.
pub open spec fn scaled_lo(lo: int, hi: int, m: int) -> int {
    let a = scale_point(lo, m);
    let b = scale_point(hi, m);
    if a < b {
        a
    } else if a < VALUE_LIMIT {
        a
    } else {
        VALUE_LIMIT - 1
    }
}

/// Upper endpoint of the genocide-rescaled interval: the rescaled upper
/// endpoint, widened to keep the interval non-empty when rounding has
/// collapsed it.
pub open spec fn scaled_hi(lo: int, hi: int, m: int) -> int {
    let a = scale_point(lo, m);
    let b = scale_point(hi, m);
    if a < b {
        b
    } else if a < VALUE_LIMIT {
        a + 1
    } else {
        VALUE_LIMIT as int
    }
}

/// Sum of the raw (signed) objective values over a generation.
pub open spec fn sum_objective(s: Seq<i64>) -> int
    decreases s.len(),
{
    if s.len() == 0 {
        0
    } else {
        sum_objective(s.drop_last()) + spec_objective(s.last() as int)
    }
}

/// Arithmetic mean of the raw objective values, rounded toward zero.
pub open spec fn avg_spec(s: Seq<i64>) -> int {
    tdiv_spec(sum_objective(s), s.len() as int)
}

/// `b` is the index the champion scan returns: no individual is strictly
/// fitter, and every earlier individual is strictly less fit (first
/// occurrence wins ties).
pub open spec fn is_champion_index(s: Seq<i64>, b: int) -> bool {
    &&& 0 <= b < s.len()
    &&& forall|j: int|
        0 <= j < s.len() ==> spec_fitness(s[b] as int) <= spec_fitness(#[trigger] s[j] as int)
    &&& forall|j: int|
        0 <= j < b ==> spec_fitness(#[trigger] s[j] as int) > spec_fitness(s[b] as int)
}

/// The unique index that `is_champion_index` accepts.
pub open spec fn champion_index(s: Seq<i64>) -> int {
    choose|b: int| is_champion_index(s, b)
}

/// `w` is the index the worst-individual scan returns: no individual is
/// strictly less fit, and every earlier individual is strictly fitter (first
/// occurrence wins ties).
pub open spec fn is_worst_index(s: Seq<i64>, w: int) -> bool {
    &&& 0 <= w < s.len()
    &&& forall|j: int|
        0 <= j < s.len() ==> spec_fitness(s[w] as int) >= spec_fitness(#[trigger] s[j] as int)
    &&& forall|j: int|
        0 <= j < w ==> spec_fitness(#[trigger] s[j] as int) < spec_fitness(s[w] as int)
}

/// The unique index that `is_worst_index` accepts.
pub open spec fn worst_index_of(s: Seq<i64>) -> int {
    choose|w: int| is_worst_index(s, w)
}

/// At most one index satisfies `is_champion_index`.
pub proof fn lemma_champion_unique(s: Seq<i64>, b1: int, b2: int)
    requires
        is_champion_index(s, b1),
        is_champion_index(s, b2),
    ensures
        b1 == b2,
{
    if b1 < b2 {
        assert(spec_fitness(s[b1] as int) > spec_fitness(s[b2] as int));
        assert(spec_fitness(s[b2] as int) <= spec_fitness(s[b1] as int));
    }
    if b2 < b1 {
        assert(spec_fitness(s[b2] as int) > spec_fitness(s[b1] as int));
        assert(spec_fitness(s[b1] as int) <= spec_fitness(s[b2] as int));
    }
}

/// At most one index satisfies `is_worst_index`.
pub proof fn lemma_worst_unique(s: Seq<i64>, w1: int, w2: int)
    requires
        is_worst_index(s, w1),
        is_worst_index(s, w2),
    ensures
        w1 == w2,
{
    if w1 < w2 {
        assert(spec_fitness(s[w1] as int) < spec_fitness(s[w2] as int));
        assert(spec_fitness(s[w2] as int) >= spec_fitness(s[w1] as int));
    }
    if w2 < w1 {
        assert(spec_fitness(s[w2] as int) < spec_fitness(s[w1] as int));
        assert(spec_fitness(s[w1] as int) >= spec_fitness(s[w2] as int));
    }
}

/// The generation has stalled: both remembered bests are set and they differ
/// by less than the stagnation threshold.
pub open spec fn stagnant_spec(p: Population) -> bool {
    &&& p.best is Some
    &&& p.last_best is Some
    &&& abs_int(p.best->0 - p.last_best->0) < BEST_DELTA
}

/// The run loop's stop condition holds of `p`: the global best is within
/// tolerance or the generation budget is exhausted.
pub open spec fn finished(p: Population) -> bool {
    &&& p.global_best is Some
    &&& (spec_fitness(p.global_best->0 as int) < FITNESS_TOLERANCE || p.generation
        > MAX_GENERATIONS)
}

/// The evaluate step: the champion becomes the remembered generation best,
/// the prior best shifts back one slot, and the global best drops to the
/// champion when the champion is strictly fitter (or was still unset);
/// nothing else moves.
pub open spec fn evaluate_rel(pre: Population, post: Population) -> bool {
    let c = pre.ind[champion_index(pre.ind@)];
    &&& post.ind@ == pre.ind@
    &&& post.generation == pre.generation
    &&& unchanged_strategies(pre, post)
    &&& post.best == Some(c)
    &&& post.last_best == pre.best
    &&& (pre.global_best is Some ==> post.global_best == (if spec_fitness(c as int)
        < spec_fitness(pre.global_best->0 as int) {
        Some(c)
    } else {
        pre.global_best
    }))
    &&& (pre.global_best is None ==> post.global_best == Some(c))
}

/// The elitism step: the champion survives unchanged at its index, every
/// other slot becomes a mutation of the midpoint between its own value and
/// the champion's, and one generation completes.
pub open spec fn elitism_rel(pre: Population, post: Population) -> bool {
    let b = champion_index(pre.ind@);
    &&& post.ind.len() == pre.ind.len()
    &&& post.generation == pre.generation + 1
    &&& unchanged_strategies(pre, post)
    &&& post.global_best == pre.global_best
    &&& post.best == pre.best
    &&& post.last_best == pre.last_best
    &&& post.ind[b] == pre.ind[b]
    &&& forall|i: int|
        0 <= i < pre.ind.len() && i != b ==> is_mutation_of(
            mid_spec(pre.ind[i] as int, pre.ind[b] as int),
            #[trigger] post.ind[i] as int,
        )
}

/// The tournament step: the champion survives unchanged at its index, every
/// other slot is bred from two mini-tournament winners over the pre-selection
/// generation, and one generation completes.
pub open spec fn tournament_rel(pre: Population, post: Population) -> bool {
    let b = champion_index(pre.ind@);
    &&& post.ind.len() == pre.ind.len()
    &&& post.generation == pre.generation + 1
    &&& unchanged_strategies(pre, post)
    &&& post.global_best == pre.global_best
    &&& post.best == pre.best
    &&& post.last_best == pre.last_best
    &&& post.ind[b] == pre.ind[b]
    &&& forall|i: int|
        0 <= i < pre.ind.len() && i != b ==> is_tournament_child(
            pre.ind@,
            #[trigger] post.ind[i] as int,
        )
}

/// The selection step the population is configured for.
pub open spec fn select_rel(pre: Population, post: Population) -> bool {
    match pre.selection {
        Selection::Elitism => elitism_rel(pre, post),
        Selection::Tournament => tournament_rel(pre, post),
    }
}

/// The genocide event: the spawn interval is rescaled by some admissible
/// per-mille multiplier, both remembered bests are cleared, and every
/// individual is redrawn inside the new interval; the global best and the
/// generation counter are untouched.
pub open spec fn genocide_rel(pre: Population, post: Population) -> bool {
    &&& post.ind.len() == pre.ind.len()
    &&& post.generation == pre.generation
    &&& post.selection == pre.selection
    &&& post.rearrangement == pre.rearrangement
    &&& post.global_best == pre.global_best
    &&& post.best is None
    &&& post.last_best is None
    &&& (exists|m: int|
        SCALE_LO <= m < SCALE_HI && post.range_lo == #[trigger] scaled_lo(
            pre.range_lo as int,
            pre.range_hi as int,
            m,
        ) && post.range_hi == scaled_hi(pre.range_lo as int, pre.range_hi as int, m))
    &&& forall|i: int|
        0 <= i < post.ind.len() ==> post.range_lo <= #[trigger] post.ind[i] < post.range_hi
}

/// The random-predation step: exactly the first-occurrence worst individual
/// is replaced, by a fresh draw from the default spawn interval; everything
/// else is untouched.
pub open spec fn predation_rel(pre: Population, post: Population) -> bool {
    let w = worst_index_of(pre.ind@);
    &&& unchanged_run_state(pre, post)
    &&& INITIAL_LO <= post.ind[w] < INITIAL_HI
    &&& post.ind@ == pre.ind@.update(w, post.ind@[w])
}

/// The rearrangement step, with the stagnation counter threaded through:
/// `Off` changes nothing; `RandomPredation` fires every generation and leaves
/// the counter alone; `Genocide` counts consecutive stagnant generations,
/// resets the count whenever the stagnation test fails (also when a previous
/// best is unset), and fires exactly when the count reaches the threshold.
pub open spec fn rearrange_rel(pre: Population, post: Population, c0: int, c1: int) -> bool {
    match pre.rearrangement {
        Rearrangement::Off => post == pre && c1 == c0,
        Rearrangement::Genocide => {
            if stagnant_spec(pre) {
                if c0 + 1 >= GENOCIDE_THRESHOLD {
                    genocide_rel(pre, post) && c1 == 0
                } else {
                    post == pre && c1 == c0 + 1
                }
            } else {
                post == pre && c1 == 0
            }
        },
        Rearrangement::RandomPredation => predation_rel(pre, post) && c1 == c0,
    }
}

/// One full generation of the run loop: an evaluate step, then the configured
/// selection, then the configured rearrangement, with the stagnation counter
/// going from `c0` to `c1`.
pub open spec fn step_rel(pre: Population, post: Population, c0: int, c1: int) -> bool {
    exists|e: Population, s: Population|
        #[trigger] evaluate_rel(pre, e) && #[trigger] select_rel(e, s) && rearrange_rel(
            s,
            post,
            c0,
            c1,
        )
}

/// Per-generation series recorded by a run, for downstream plotting: one
/// entry per generation of the fitness of the generation best, one of the
/// mean raw objective value over the population, and the observed maximum of
/// each series for display scaling.
pub struct Trace {
    /// Fitness of the generation best, one entry per generation.
    pub best_series: Vec<i128>,
    /// Mean raw objective value over the population, one entry per
    /// generation.
    pub aveg_series: Vec<i128>,
    /// Largest entry of `best_series`, or zero when none is positive.
    pub y_max_best: i128,
    /// Largest entry of `aveg_series`, or zero when none is positive.
    pub y_max_aveg: i128,
    /// Ghost history of the run: the population state at entry and after
    /// every completed generation, so `history@[k]` is the state the `k`-th
    /// recorded entries were taken from.
    pub history: Ghost<Seq<Population>>,
    /// Ghost history of the stagnation counter, aligned with `history`.
    pub counters: Ghost<Seq<u8>>,
}

/// Final record of one run, for downstream reporting.
pub struct Summary {
    /// Selection strategy the run used.
    pub selection: Selection,
    /// Rearrangement strategy the run used.
    pub rearrangement: Rearrangement,
    /// Best candidate found over the whole run.
    pub global_best: i64,
    /// Fitness of that candidate.
    pub fitness: i128,
    /// Number of generations completed.
    pub generation: u64,
    /// Whether the run ended because the tolerance was reached, rather than
    /// because the generation budget ran out.
    pub converged: bool,
}

/// The strategy choices and the spawn interval of `b` are those of `a`.
pub open spec fn unchanged_strategies(a: Population, b: Population) -> bool {
    &&& b.selection == a.selection
    &&& b.rearrangement == a.rearrangement
    &&& b.range_lo == a.range_lo
    &&& b.range_hi == a.range_hi
}

/// Everything but the candidate values of `b` is as in `a`.
pub open spec fn unchanged_run_state(a: Population, b: Population) -> bool {
    &&& unchanged_strategies(a, b)
    &&& b.generation == a.generation
    &&& b.global_best == a.global_best
    &&& b.best == a.best
    &&& b.last_best == a.last_best
}

/// Forces a value back into the valid candidate range.
pub(crate) fn clamp_value(x: i64) -> (r: i64)
    ensures
        r == clamp_spec(x as int),
        valid_value(r as int),
{
    if x < -VALUE_LIMIT {
        -VALUE_LIMIT
    } else if x > VALUE_LIMIT {
        VALUE_LIMIT
    } else {
        x
    }
}

/// Quotient of `a` and a positive divisor `d`, rounded toward zero.
pub(crate) fn tdiv64(a: i64, d: i64) -> (r: i64)
    requires
        0 < d,
        -0x4000_0000_0000_0000 < a < 0x4000_0000_0000_0000,
    ensures
        r == tdiv_spec(a as int, d as int),
        -abs_int(a as int) <= r <= abs_int(a as int),
{
    if a >= 0 {
        proof {
            vstd::arithmetic::div_mod::lemma_div_nonincreasing(a as int, d as int);
            vstd::arithmetic::div_mod::lemma_div_pos_is_pos(a as int, d as int);
        }
        let q = (a as u64) / (d as u64);
        q as i64
    } else {
        let na = -a;
        proof {
            vstd::arithmetic::div_mod::lemma_div_nonincreasing(na as int, d as int);
            vstd::arithmetic::div_mod::lemma_div_pos_is_pos(na as int, d as int);
        }
        let q = (na as u64) / (d as u64);
        -(q as i64)
    }
}

/// Midpoint of two candidates, rounded toward zero; stays in the valid range.
pub(crate) fn midpoint(a: i64, b: i64) -> (r: i64)
    requires
        valid_value(a as int),
        valid_value(b as int),
    ensures
        r == mid_spec(a as int, b as int),
        valid_value(r as int),
{
    let s = a + b;
    let r = tdiv64(s, 2);
    proof {
        vstd::arithmetic::div_mod::lemma_div_by_multiple(VALUE_LIMIT as int, 2);
        if s >= 0 {
            vstd::arithmetic::div_mod::lemma_div_is_ordered(s as int, 2 * VALUE_LIMIT as int, 2);
            vstd::arithmetic::div_mod::lemma_div_pos_is_pos(s as int, 2);
        } else {
            vstd::arithmetic::div_mod::lemma_div_is_ordered(-s as int, 2 * VALUE_LIMIT as int, 2);
            vstd::arithmetic::div_mod::lemma_div_pos_is_pos(-s as int, 2);
        }
    }
    r
}

/// Draws a fresh individual uniformly from the default spawn interval; this
/// interval is fixed and ignores any genocide-rescaled interval.
pub fn individual(rng: &mut rand::rngs::StdRng) -> (r: i64)
    ensures
        INITIAL_LO <= r < INITIAL_HI,
        valid_value(r as int),
{
    gen_i64(rng, INITIAL_LO, INITIAL_HI)
}

/// Perturbs a candidate by an offset drawn uniformly from the mutation
/// interval, forcing the result back into the valid range.
pub fn mutation(rng: &mut rand::rngs::StdRng, x: i64) -> (r: i64)
    requires
        valid_value(x as int),
    ensures
        is_mutation_of(x as int, r as int),
        valid_value(r as int),
{
    let d = gen_i64(rng, MUTATION_LO, MUTATION_HI);
    let r = clamp_value(x + d);
    proof {
        assert(MUTATION_LO <= (d as int) && (d as int) < MUTATION_HI && r as int == clamp_spec(
            x as int + d as int,
        ));
    }
    r
}

/// Quotient of `a` and a positive divisor `d`, rounded toward zero.
fn tdiv128(a: i128, d: usize) -> (r: i128)
    requires
        0 < d,
        i128::MIN < a,
    ensures
        r == tdiv_spec(a as int, d as int),
        -abs_int(a as int) <= r <= abs_int(a as int),
{
    let dd = d as u128;
    if a >= 0 {
        proof {
            vstd::arithmetic::div_mod::lemma_div_nonincreasing(a as int, d as int);
            vstd::arithmetic::div_mod::lemma_div_pos_is_pos(a as int, d as int);
        }
        let q = (a as u128) / dd;
        q as i128
    } else {
        let na = -a;
        proof {
            vstd::arithmetic::div_mod::lemma_div_nonincreasing(na as int, d as int);
            vstd::arithmetic::div_mod::lemma_div_pos_is_pos(na as int, d as int);
        }
        let q = (na as u128) / dd;
        -(q as i128)
    }
}

/// Rescales one spawn-interval endpoint by the per-mille multiplier `m`.
fn scale_endpoint(p: i64, m: i64) -> (r: i64)
    requires
        valid_value(p as int),
        SCALE_LO <= m < SCALE_HI,
    ensures
        r == scale_point(p as int, m as int),
        valid_value(r as int),
{
    proof {
        crate::lemma_mul_bound(p as int, m as int, VALUE_LIMIT as int, SCALE_HI as int);
    }
    let t = p * m;
    let q = tdiv64(t, SCALE_DEN);
    clamp_value(q)
}

/// A fixed-size ordered collection of integer candidate values together with
/// the per-run search state.
pub struct Population {
    /// Selection strategy this population evolves under.
    pub selection: Selection,
    /// Diversity-maintenance strategy applied after selection.
    pub rearrangement: Rearrangement,
    /// The candidate values; indices are positional identity for one
    /// generation only.
    pub ind: Vec<i64>,
    /// Lower end (inclusive) of the current spawn interval.
    pub range_lo: i64,
    /// Upper end (exclusive) of the current spawn interval.
    pub range_hi: i64,
    /// Number of completed generations.
    pub generation: u64,
    /// Best candidate seen over the whole run so far.
    pub global_best: Option<i64>,
    /// Champion value of the most recently evaluated generation.
    pub best: Option<i64>,
    /// Champion value of the generation before that.
    pub last_best: Option<i64>,
}

impl Population {
    /// Well-formedness: the population is non-empty and small enough for the
    /// objective sums to fit, the spawn interval is a non-empty interval
    /// inside the value range, every candidate and every remembered best is a
    /// valid value, and the global best is a running minimum: whenever a
    /// current best is remembered, the global best is at least as fit.
    pub open spec fn wf(self) -> bool {
        &&& 1 <= self.ind.len() <= POPULATION_LIMIT
        &&& -VALUE_LIMIT <= self.range_lo
        &&& self.range_lo < self.range_hi
        &&& self.range_hi <= VALUE_LIMIT
        &&& forall|i: int| 0 <= i < self.ind.len() ==> valid_value(#[trigger] self.ind[i] as int)
        &&& self.global_best is Some ==> valid_value(self.global_best->0 as int)
        &&& self.best is Some ==> valid_value(self.best->0 as int)
        &&& self.last_best is Some ==> valid_value(self.last_best->0 as int)
        &&& self.best is Some ==> {
            &&& self.global_best is Some
            &&& spec_fitness(self.global_best->0 as int) <= spec_fitness(self.best->0 as int)
        }
    }

    /// Builds a population of `n` individuals drawn uniformly from the
    /// default spawn interval, with no generation evolved yet.
    pub fn with_size(
        selection: Selection,
        rearrangement: Rearrangement,
        n: usize,
        rng: &mut rand::rngs::StdRng,
    ) -> (p: Population)
        requires
            1 <= n <= POPULATION_LIMIT,
        ensures
            p.wf(),
            p.ind.len() == n,
            p.selection == selection,
            p.rearrangement == rearrangement,
            p.generation == 0,
            p.global_best is None,
            p.best is None,
            p.last_best is None,
            p.range_lo == INITIAL_LO,
            p.range_hi == INITIAL_HI,
            forall|i: int| 0 <= i < n ==> INITIAL_LO <= #[trigger] p.ind[i] < INITIAL_HI,
    {
        let mut ind: Vec<i64> = Vec::new();
        let mut k: usize = 0;
        while k < n
            invariant
                k <= n,
                ind.len() == k,
                forall|i: int| 0 <= i < k ==> INITIAL_LO <= #[trigger] ind[i] < INITIAL_HI,
            decreases n - k,
        {
            let v = individual(rng);
            ind.push(v);
            k += 1;
        }
        Population {
            selection,
            rearrangement,
            ind,
            range_lo: INITIAL_LO,
            range_hi: INITIAL_HI,
            generation: 0,
            global_best: None,
            best: None,
            last_best: None,
        }
    }

    /// Builds a population of the default size.
    pub fn new(
        selection: Selection,
        rearrangement: Rearrangement,
        rng: &mut rand::rngs::StdRng,
    ) -> (p: Population)
        ensures
            p.wf(),
            p.ind.len() == POPULATION_SIZE,
            p.selection == selection,
            p.rearrangement == rearrangement,
            p.generation == 0,
            p.global_best is None,
            p.best is None,
            p.last_best is None,
            p.range_lo == INITIAL_LO,
            p.range_hi == INITIAL_HI,
            forall|i: int|
                0 <= i < POPULATION_SIZE ==> INITIAL_LO <= #[trigger] p.ind[i] < INITIAL_HI,
    {
        Population::with_size(selection, rearrangement, POPULATION_SIZE, rng)
    }

    /// Fitness of a candidate: magnitude of the objective at it.
    pub fn fitness(x: i64) -> (r: i128)
        requires
            valid_value(x as int),
        ensures
            r == spec_fitness(x as int),
            0 <= r <= OBJECTIVE_BOUND,
    {
        let y = objective(x);
        if y < 0 {
            -y
        } else {
            y
        }
    }

    /// Value of the individual at `index`.
    pub fn value(&self, index: usize) -> (r: i64)
        requires
            index < self.ind.len(),
        ensures
            r == self.ind[index as int],
    {
        self.ind[index]
    }

    /// Index of the fittest individual of the current generation; ties go to
    /// the first occurrence, because only a strictly fitter individual
    /// replaces the running best.
    pub fn best_index(&self) -> (r: usize)
        requires
            self.wf(),
        ensures
            r < self.ind.len(),
            is_champion_index(self.ind@, r as int),
            champion_index(self.ind@) == r as int,
    {
        let n = self.ind.len();
        let mut index: usize = 0;
        let mut best: i128 = Population::fitness(self.value(0));
        let mut i: usize = 1;
        while i < n
            invariant
                1 <= i <= n,
                n == self.ind.len(),
                self.wf(),
                index < i,
                best == spec_fitness(self.ind[index as int] as int),
                forall|j: int|
                    0 <= j < i ==> best <= spec_fitness(#[trigger] self.ind[j] as int),
                forall|j: int|
                    0 <= j < index ==> spec_fitness(#[trigger] self.ind[j] as int) > best,
            decreases n - i,
        {
            let current = Population::fitness(self.value(i));
            if current < best {
                best = current;
                index = i;
            }
            i += 1;
        }
        proof {
            assert(is_champion_index(self.ind@, index as int));
            lemma_champion_unique(self.ind@, index as int, champion_index(self.ind@));
        }
        index
    }

    /// Index of the least fit individual of the current generation; ties go
    /// to the first occurrence, because only a strictly less fit individual
    /// replaces the running worst.
    pub fn worst_index(&self) -> (r: usize)
        requires
            self.wf(),
        ensures
            r < self.ind.len(),
            is_worst_index(self.ind@, r as int),
            worst_index_of(self.ind@) == r as int,
    {
        let n = self.ind.len();
        let mut index: usize = 0;
        let mut worst: i128 = Population::fitness(self.value(0));
        let mut i: usize = 1;
        while i < n
            invariant
                1 <= i <= n,
                n == self.ind.len(),
                self.wf(),
                index < i,
                worst == spec_fitness(self.ind[index as int] as int),
                forall|j: int|
                    0 <= j < i ==> worst >= spec_fitness(#[trigger] self.ind[j] as int),
                forall|j: int|
                    0 <= j < index ==> spec_fitness(#[trigger] self.ind[j] as int) < worst,
            decreases n - i,
        {
            let current = Population::fitness(self.value(i));
            if current > worst {
                worst = current;
                index = i;
            }
            i += 1;
        }
        proof {
            assert(is_worst_index(self.ind@, index as int));
            lemma_worst_unique(self.ind@, index as int, worst_index_of(self.ind@));
        }
        index
    }

    /// Overwrites the individual at `index` with `v`.
    pub fn set(&mut self, index: usize, v: i64)
        requires
            index < old(self).ind.len(),
            valid_value(v as int),
        ensures
            final(self).ind@ == old(self).ind@.update(index as int, v),
            unchanged_run_state(*old(self), *final(self)),
    {
        self.ind.set(index, v);
    }

    /// Elitism selection: the champion is carried over unchanged at its
    /// index, and every other individual is replaced by a mutation of the
    /// midpoint between its own value and the champion's. Completes one
    /// generation.
    pub fn elitism(&mut self, rng: &mut rand::rngs::StdRng)
        requires
            old(self).wf(),
            old(self).generation < u64::MAX,
        ensures
            final(self).wf(),
            is_champion_index(old(self).ind@, champion_index(old(self).ind@)),
            elitism_rel(*old(self), *final(self)),
    {
        let b = self.best_index();
        let best = self.value(b);
        let n = self.ind.len();
        let mut i: usize = 0;
        while i < n
            invariant
                i <= n,
                b < n,
                n == self.ind.len(),
                n == old(self).ind.len(),
                self.wf(),
                unchanged_run_state(*old(self), *self),
                is_champion_index(old(self).ind@, b as int),
                best == old(self).ind[b as int],
                forall|j: int| i <= j < n ==> self.ind[j] == old(self).ind[j],
                self.ind[b as int] == old(self).ind[b as int],
                forall|j: int|
                    0 <= j < i && j != b ==> is_mutation_of(
                        mid_spec(old(self).ind[j] as int, old(self).ind[b as int] as int),
                        #[trigger] self.ind[j] as int,
                    ),
            decreases n - i,
        {
            if i != b {
                let v = self.value(i);
                let m = midpoint(v, best);
                let child = mutation(rng, m);
                self.set(i, child);
            }
            i += 1;
        }
        self.generation = self.generation + 1;
        proof {
            let s = old(self).ind@;
            assert(is_champion_index(s, b as int));
            assert(exists|c: int| is_champion_index(s, c));
            lemma_champion_unique(s, b as int, champion_index(s));
        }
    }

    /// One mini-tournament: two individuals are drawn uniformly with
    /// replacement and the fitter one wins; ties go to the first drawn.
    fn duel(&self, rng: &mut rand::rngs::StdRng) -> (v: i64)
        requires
            self.wf(),
        ensures
            is_tournament_winner(self.ind@, v as int),
            valid_value(v as int),
    {
        let n = self.ind.len();
        let j = gen_index(rng, n);
        let k = gen_index(rng, n);
        let x1 = self.value(j);
        let x2 = self.value(k);
        let v = if Population::fitness(x1) <= Population::fitness(x2) {
            x1
        } else {
            x2
        };
        proof {
            assert(v as int == winner_spec(self.ind[j as int] as int, self.ind[k as int] as int));
        }
        v
    }

    /// Tournament selection: the champion is preserved unchanged at its
    /// index; every other slot is filled by a child bred from two
    /// mini-tournament winners, all drawn from the pre-selection generation;
    /// the children are committed only after every one is bred. Completes one
    /// generation.
    pub fn tournament(&mut self, rng: &mut rand::rngs::StdRng)
        requires
            old(self).wf(),
            old(self).generation < u64::MAX,
        ensures
            final(self).wf(),
            is_champion_index(old(self).ind@, champion_index(old(self).ind@)),
            tournament_rel(*old(self), *final(self)),
    {
        let b = self.best_index();
        let best = self.value(b);
        let n = self.ind.len();
        let mut children: Vec<i64> = Vec::new();
        let mut i: usize = 0;
        while i < n
            invariant
                i <= n,
                b < n,
                n == self.ind.len(),
                self.wf(),
                *self == *old(self),
                children.len() == i,
                is_champion_index(old(self).ind@, b as int),
                best == old(self).ind[b as int],
                forall|j: int| 0 <= j < i ==> valid_value(#[trigger] children[j] as int),
                b < i ==> children[b as int] == old(self).ind[b as int],
                forall|j: int|
                    0 <= j < i && j != b ==> is_tournament_child(
                        old(self).ind@,
                        #[trigger] children[j] as int,
                    ),
            decreases n - i,
        {
            if i != b {
                let dad = self.duel(rng);
                let mom = self.duel(rng);
                let m = midpoint(dad, mom);
                let child = mutation(rng, m);
                proof {
                    assert(is_tournament_winner(old(self).ind@, dad as int)
                        && is_tournament_winner(old(self).ind@, mom as int) && is_mutation_of(
                        mid_spec(dad as int, mom as int),
                        child as int,
                    ));
                }
                children.push(child);
            } else {
                children.push(best);
            }
            i += 1;
        }
        let mut k: usize = 0;
        while k < n
            invariant
                k <= n,
                b < n,
                n == self.ind.len(),
                n == old(self).ind.len(),
                children.len() == n,
                self.wf(),
                unchanged_run_state(*old(self), *self),
                is_champion_index(old(self).ind@, b as int),
                children[b as int] == old(self).ind[b as int],
                forall|j: int| 0 <= j < n ==> valid_value(#[trigger] children[j] as int),
                forall|j: int|
                    0 <= j < n && j != b ==> is_tournament_child(
                        old(self).ind@,
                        #[trigger] children[j] as int,
                    ),
                forall|j: int| 0 <= j < k ==> self.ind[j] == children[j],
                forall|j: int| k <= j < n ==> self.ind[j] == old(self).ind[j],
            decreases n - k,
        {
            let c = children[k];
            self.set(k, c);
            k += 1;
        }
        self.generation = self.generation + 1;
        proof {
            let s = old(self).ind@;
            assert(is_champion_index(s, b as int));
            assert(exists|c: int| is_champion_index(s, c));
            lemma_champion_unique(s, b as int, champion_index(s));
            assert forall|i: int| 0 <= i < n && i != b as int implies is_tournament_child(
                s,
                #[trigger] self.ind[i] as int,
            ) by {
                assert(self.ind[i] == children[i]);
                assert(is_tournament_child(s, children[i] as int));
            }
        }
    }

    /// Genocide: a hard diversity reset. The spawn interval is rescaled by a
    /// random per-mille multiplier, the remembered generation bests are
    /// cleared, and every individual is redrawn uniformly from the new
    /// interval. The global best and the generation counter are untouched.
    pub fn genocide(&mut self, rng: &mut rand::rngs::StdRng)
        requires
            old(self).wf(),
        ensures
            final(self).wf(),
            genocide_rel(*old(self), *final(self)),
    {
        let m = gen_i64(rng, SCALE_LO, SCALE_HI);
        let a = scale_endpoint(self.range_lo, m);
        let bp = scale_endpoint(self.range_hi, m);
        let lo: i64;
        let hi: i64;
        if a < bp {
            lo = a;
            hi = bp;
        } else if a < VALUE_LIMIT {
            lo = a;
            hi = a + 1;
        } else {
            lo = VALUE_LIMIT - 1;
            hi = VALUE_LIMIT;
        }
        self.range_lo = lo;
        self.range_hi = hi;
        self.best = None;
        self.last_best = None;
        let n = self.ind.len();
        let mut i: usize = 0;
        while i < n
            invariant
                i <= n,
                n == self.ind.len(),
                n == old(self).ind.len(),
                self.wf(),
                self.range_lo == lo,
                self.range_hi == hi,
                -VALUE_LIMIT <= lo < hi <= VALUE_LIMIT,
                self.generation == old(self).generation,
                self.selection == old(self).selection,
                self.rearrangement == old(self).rearrangement,
                self.global_best == old(self).global_best,
                self.best is None,
                self.last_best is None,
                forall|j: int| 0 <= j < i ==> lo <= #[trigger] self.ind[j] < hi,
            decreases n - i,
        {
            let v = gen_i64(rng, lo, hi);
            self.set(i, v);
            i += 1;
        }
        proof {
            assert(self.range_lo == scaled_lo(
                old(self).range_lo as int,
                old(self).range_hi as int,
                m as int,
            ) && self.range_hi == scaled_hi(
                old(self).range_lo as int,
                old(self).range_hi as int,
                m as int,
            ));
        }
    }

    /// Random predation: the single least fit individual of the current
    /// generation is replaced by a fresh draw from the default spawn
    /// interval, whatever the current (possibly rescaled) interval is; every
    /// other individual is untouched.
    pub fn random_predation(&mut self, rng: &mut rand::rngs::StdRng)
        requires
            old(self).wf(),
        ensures
            final(self).wf(),
            final(self).ind.len() == old(self).ind.len(),
            is_worst_index(old(self).ind@, worst_index_of(old(self).ind@)),
            predation_rel(*old(self), *final(self)),
    {
        let w = self.worst_index();
        let fresh = individual(rng);
        self.set(w, fresh);
        proof {
            let s = old(self).ind@;
            assert(is_worst_index(s, w as int));
            assert(exists|c: int| is_worst_index(s, c));
            lemma_worst_unique(s, w as int, worst_index_of(s));
        }
    }

    /// Evaluation step of the run loop: remembers the previous generation
    /// best, records the current champion's value as the generation best, and
    /// lowers the global best to the champion whenever the champion is
    /// strictly fitter (or the global best was still unset).
    pub fn evaluate(&mut self)
        requires
            old(self).wf(),
        ensures
            final(self).wf(),
            is_champion_index(old(self).ind@, champion_index(old(self).ind@)),
            evaluate_rel(*old(self), *final(self)),
            final(self).global_best is Some,
            spec_fitness(final(self).global_best->0 as int) <= spec_fitness(
                old(self).ind[champion_index(old(self).ind@)] as int,
            ),
            old(self).global_best is Some ==> spec_fitness(final(self).global_best->0 as int)
                <= spec_fitness(old(self).global_best->0 as int),
    {
        let b = self.best_index();
        let best = self.value(b);
        self.last_best = self.best;
        self.best = Some(best);
        match self.global_best {
            Some(global) => {
                if Population::fitness(best) < Population::fitness(global) {
                    self.global_best = Some(best);
                }
            },
            None => {
                self.global_best = Some(best);
            },
        }
        proof {
            let s = old(self).ind@;
            assert(is_champion_index(s, b as int));
            assert(exists|c: int| is_champion_index(s, c));
            lemma_champion_unique(s, b as int, champion_index(s));
        }
    }

    /// Mean raw objective value over the current generation, rounded toward
    /// zero.
    pub fn average_objective(&self) -> (r: i128)
        requires
            self.wf(),
        ensures
            r == avg_spec(self.ind@),
            -OBJECTIVE_BOUND <= r <= OBJECTIVE_BOUND,
    {
        let n = self.ind.len();
        let mut sum: i128 = 0;
        let mut i: usize = 0;
        while i < n
            invariant
                i <= n,
                n == self.ind.len(),
                self.wf(),
                sum == sum_objective(self.ind@.take(i as int)),
                -((i as int) * OBJECTIVE_BOUND) <= sum <= (i as int) * OBJECTIVE_BOUND,
            decreases n - i,
        {
            let y = crate::objective(self.value(i));
            proof {
                let t = self.ind@.take(i + 1);
                assert(t.drop_last() =~= self.ind@.take(i as int));
                assert(t.last() == self.ind[i as int]);
                vstd::arithmetic::mul::lemma_mul_inequality(
                    i + 1,
                    POPULATION_LIMIT as int,
                    OBJECTIVE_BOUND as int,
                );
                assert((i as int) * OBJECTIVE_BOUND + OBJECTIVE_BOUND == (i + 1)
                    * OBJECTIVE_BOUND) by (nonlinear_arith);
            }
            sum = sum + y;
            i += 1;
        }
        proof {
            assert(self.ind@.take(n as int) =~= self.ind@);
            vstd::arithmetic::mul::lemma_mul_inequality(
                n as int,
                POPULATION_LIMIT as int,
                OBJECTIVE_BOUND as int,
            );
        }
        let r = tdiv128(sum, n);
        proof {
            vstd::arithmetic::div_mod::lemma_div_by_multiple(OBJECTIVE_BOUND as int, n as int);
            if sum >= 0 {
                vstd::arithmetic::div_mod::lemma_div_is_ordered(
                    sum as int,
                    (n as int) * OBJECTIVE_BOUND,
                    n as int,
                );
                vstd::arithmetic::div_mod::lemma_div_pos_is_pos(sum as int, n as int);
            } else {
                vstd::arithmetic::div_mod::lemma_div_is_ordered(
                    -(sum as int),
                    (n as int) * OBJECTIVE_BOUND,
                    n as int,
                );
                vstd::arithmetic::div_mod::lemma_div_pos_is_pos(-(sum as int), n as int);
            }
        }
        r
    }

    /// Runs the evolutionary loop: evaluate, select, rearrange, then stop
    /// once the global best is within tolerance or the generation budget is
    /// exhausted. When `record` is set, the per-generation series are
    /// collected for plotting; otherwise the returned trace is empty.
    ///
    /// The trace carries a ghost history of the run: one population state per
    /// completed generation, starting from the entry state and ending at the
    /// final one. Every consecutive pair is related by `step_rel` — an
    /// evaluate step, the configured selection, then the configured
    /// rearrangement with the stagnation counter threaded through — every
    /// state between the first and the last fails the stop condition, and
    /// each recorded series entry equals the champion fitness (respectively
    /// the mean objective value) of the state it was taken from.
    pub fn run(&mut self, rng: &mut rand::rngs::StdRng, record: bool) -> (t: Trace)
        requires
            old(self).wf(),
            old(self).generation < u64::MAX,
        ensures
            final(self).wf(),
            final(self).ind.len() == old(self).ind.len(),
            final(self).selection == old(self).selection,
            final(self).rearrangement == old(self).rearrangement,
            final(self).global_best is Some,
            spec_fitness(final(self).global_best->0 as int) < FITNESS_TOLERANCE
                || final(self).generation > MAX_GENERATIONS,
            old(self).global_best is Some ==> spec_fitness(final(self).global_best->0 as int)
                <= spec_fitness(old(self).global_best->0 as int),
            final(self).generation > old(self).generation,
            final(self).generation <= MAX_GENERATIONS + 1
                || final(self).generation == old(self).generation + 1,
            t.best_series@.len() == t.aveg_series@.len(),
            record ==> t.best_series@.len() == final(self).generation - old(self).generation,
            !record ==> t.best_series@.len() == 0,
            forall|k: int|
                0 <= k < t.best_series@.len() ==> 0 <= #[trigger] t.best_series@[k]
                    <= t.y_max_best,
            forall|k: int|
                0 <= k < t.aveg_series@.len() ==> #[trigger] t.aveg_series@[k] <= t.y_max_aveg,
            t.y_max_best >= 0,
            t.y_max_aveg >= 0,
            t.y_max_best == 0 || exists|k: int|
                0 <= k < t.best_series@.len() && #[trigger] t.best_series@[k] == t.y_max_best,
            t.y_max_aveg == 0 || exists|k: int|
                0 <= k < t.aveg_series@.len() && #[trigger] t.aveg_series@[k] == t.y_max_aveg,
            is_champion_index(old(self).ind@, champion_index(old(self).ind@)),
            spec_fitness(final(self).global_best->0 as int) <= spec_fitness(
                old(self).ind[champion_index(old(self).ind@)] as int,
            ),
            !(final(self).rearrangement is Genocide) ==> final(self).best is Some,
            record ==> t.best_series@[0] == spec_fitness(
                old(self).ind[champion_index(old(self).ind@)] as int,
            ) && t.aveg_series@[0] == avg_spec(old(self).ind@),
            ({
                let h = t.history@;
                let cs = t.counters@;
                &&& h.len() == cs.len()
                &&& h.len() == final(self).generation - old(self).generation + 1
                &&& h[0] == *old(self)
                &&& h[h.len() - 1] == *final(self)
                &&& cs[0] == 0
                &&& forall|k: int|
                    0 <= k < h.len() - 1 ==> step_rel(
                        #[trigger] h[k],
                        h[k + 1],
                        cs[k] as int,
                        cs[k + 1] as int,
                    )
                &&& forall|k: int| 1 <= k < h.len() - 1 ==> !finished(#[trigger] h[k])
                &&& (record ==> forall|k: int|
                    0 <= k < h.len() - 1 ==> t.best_series@[k] == spec_fitness(
                        #[trigger] h[k].ind[champion_index(h[k].ind@)] as int,
                    ) && t.aveg_series@[k] == avg_spec(h[k].ind@))
            }),
    {
        let ghost g0 = self.generation;
        let ghost mut hist: Seq<Population> = seq![*self];
        let ghost mut cs: Seq<u8> = seq![0u8];
        let mut best_data: Vec<i128> = Vec::new();
        let mut aveg_data: Vec<i128> = Vec::new();
        let mut y_max_best: i128 = 0;
        let mut y_max_aveg: i128 = 0;
        let mut counter: u8 = 0;
        let mut done: bool = false;
        while !done
            invariant
                self.wf(),
                self.ind.len() == old(self).ind.len(),
                self.selection == old(self).selection,
                self.rearrangement == old(self).rearrangement,
                counter < GENOCIDE_THRESHOLD,
                g0 == old(self).generation,
                g0 < u64::MAX,
                self.generation >= g0,
                !done ==> self.generation == g0 || self.generation <= MAX_GENERATIONS,
                done ==> self.generation > g0,
                done ==> self.generation <= MAX_GENERATIONS + 1 || self.generation == g0 + 1,
                done ==> self.global_best is Some && (spec_fitness(self.global_best->0 as int)
                    < FITNESS_TOLERANCE || self.generation > MAX_GENERATIONS),
                old(self).global_best is Some ==> self.global_best is Some && spec_fitness(
                    self.global_best->0 as int,
                ) <= spec_fitness(old(self).global_best->0 as int),
                best_data.len() == aveg_data.len(),
                record ==> best_data.len() == self.generation - g0,
                !record ==> best_data.len() == 0,
                forall|k: int|
                    0 <= k < best_data.len() ==> 0 <= #[trigger] best_data[k] <= y_max_best,
                forall|k: int| 0 <= k < aveg_data.len() ==> #[trigger] aveg_data[k] <= y_max_aveg,
                y_max_best >= 0,
                y_max_aveg >= 0,
                y_max_best == 0 || exists|k: int|
                    0 <= k < best_data.len() && #[trigger] best_data[k] == y_max_best,
                y_max_aveg == 0 || exists|k: int|
                    0 <= k < aveg_data.len() && #[trigger] aveg_data[k] == y_max_aveg,
                hist.len() == cs.len(),
                hist.len() == self.generation - g0 + 1,
                hist[0] == *old(self),
                hist[hist.len() - 1] == *self,
                cs[0] == 0,
                cs[cs.len() - 1] == counter,
                forall|k: int|
                    0 <= k < hist.len() - 1 ==> step_rel(
                        #[trigger] hist[k],
                        hist[k + 1],
                        cs[k] as int,
                        cs[k + 1] as int,
                    ),
                forall|k: int| 1 <= k < hist.len() - 1 ==> !finished(#[trigger] hist[k]),
                !done && hist.len() > 1 ==> !finished(hist[hist.len() - 1]),
                record ==> (forall|k: int|
                    0 <= k < hist.len() - 1 ==> best_data[k] == spec_fitness(
                        #[trigger] hist[k].ind[champion_index(hist[k].ind@)] as int,
                    ) && aveg_data[k] == avg_spec(hist[k].ind@)),
                self.generation > g0 ==> is_champion_index(
                    old(self).ind@,
                    champion_index(old(self).ind@),
                ),
                self.generation > g0 ==> self.global_best is Some && spec_fitness(
                    self.global_best->0 as int,
                ) <= spec_fitness(old(self).ind[champion_index(old(self).ind@)] as int),
                self.generation > g0 && !(self.rearrangement is Genocide) ==> self.best is Some,
            decreases (if done {
                0int
            } else if self.generation > MAX_GENERATIONS {
                1int
            } else {
                MAX_GENERATIONS + 2 - self.generation
            }),
        {
            let ghost pre = *self;
            let ghost c0 = counter;
            self.evaluate();
            let ghost e_state = *self;
            let best = self.best.unwrap();
            if record {
                let aveg = self.average_objective();
                let f = Population::fitness(best);
                let ghost pre_b = best_data@;
                let ghost pre_a = aveg_data@;
                let ghost pre_ymb = y_max_best;
                let ghost pre_yma = y_max_aveg;
                aveg_data.push(aveg);
                best_data.push(f);
                if f > y_max_best {
                    y_max_best = f;
                }
                if aveg > y_max_aveg {
                    y_max_aveg = aveg;
                }
                proof {
                    assert(best == pre.ind[champion_index(pre.ind@)]);
                    assert(best_data@[best_data@.len() - 1] == spec_fitness(
                        pre.ind[champion_index(pre.ind@)] as int,
                    ));
                    assert(aveg_data@[aveg_data@.len() - 1] == avg_spec(pre.ind@));
                    if f > pre_ymb {
                        assert(best_data@[best_data@.len() - 1] == y_max_best);
                    } else if pre_ymb != 0 {
                        let c = choose|k: int| 0 <= k < pre_b.len() && #[trigger] pre_b[k] == pre_ymb;
                        assert(best_data@[c] == y_max_best);
                    }
                    if aveg > pre_yma {
                        assert(aveg_data@[aveg_data@.len() - 1] == y_max_aveg);
                    } else if pre_yma != 0 {
                        let c = choose|k: int| 0 <= k < pre_a.len() && #[trigger] pre_a[k] == pre_yma;
                        assert(aveg_data@[c] == y_max_aveg);
                    }
                }
            }
            match self.selection {
                Selection::Elitism => self.elitism(rng),
                Selection::Tournament => self.tournament(rng),
            }
            let ghost s_state = *self;
            proof {
                assert(evaluate_rel(pre, e_state));
                assert(select_rel(e_state, s_state));
            }
            match self.rearrangement {
                Rearrangement::Off => {},
                Rearrangement::Genocide => {
                    let stagnant: bool = match (self.best, self.last_best) {
                        (Some(bv), Some(lv)) => {
                            let d = if bv >= lv {
                                bv - lv
                            } else {
                                lv - bv
                            };
                            d < BEST_DELTA
                        },
                        _ => false,
                    };
                    if stagnant {
                        counter = counter + 1;
                        if counter >= GENOCIDE_THRESHOLD {
                            self.genocide(rng);
                            counter = 0;
                        }
                    } else {
                        counter = 0;
                    }
                },
                Rearrangement::RandomPredation => self.random_predation(rng),
            }
            proof {
                let post = *self;
                assert(rearrange_rel(s_state, post, c0 as int, counter as int));
                assert(step_rel(pre, post, c0 as int, counter as int));
                let h0 = hist;
                let cs0 = cs;
                hist = hist.push(post);
                cs = cs.push(counter);
                assert forall|k: int| 0 <= k < hist.len() - 1 implies step_rel(
                    #[trigger] hist[k],
                    hist[k + 1],
                    cs[k] as int,
                    cs[k + 1] as int,
                ) by {
                    if k < h0.len() - 1 {
                        assert(hist[k] == h0[k]);
                        assert(hist[k + 1] == h0[k + 1]);
                        assert(step_rel(h0[k], h0[k + 1], cs0[k] as int, cs0[k + 1] as int));
                    } else {
                        assert(hist[k] == pre);
                        assert(hist[k + 1] == post);
                        assert(cs0[k] == c0);
                    }
                }
                if record {
                    assert forall|k: int| 0 <= k < hist.len() - 1 implies best_data@[k]
                        == spec_fitness(
                        #[trigger] hist[k].ind[champion_index(hist[k].ind@)] as int,
                    ) && aveg_data@[k] == avg_spec(hist[k].ind@) by {
                        if k < h0.len() - 1 {
                            assert(hist[k] == h0[k]);
                        } else {
                            assert(hist[k] == pre);
                        }
                    }
                }
            }
            let g = self.global_best.unwrap();
            if Population::fitness(g) < FITNESS_TOLERANCE || self.generation > MAX_GENERATIONS {
                done = true;
            }
        }
        Trace {
            best_series: best_data,
            aveg_series: aveg_data,
            y_max_best,
            y_max_aveg,
            history: Ghost(hist),
            counters: Ghost(cs),
        }
    }

    /// Final record of the run: the strategies, the global best and its
    /// fitness, the generation count, and whether the tolerance was reached.
    pub fn results(&self) -> (s: Summary)
        requires
            self.wf(),
            self.global_best is Some,
        ensures
            s.selection == self.selection,
            s.rearrangement == self.rearrangement,
            s.global_best == self.global_best->0,
            s.fitness == spec_fitness(self.global_best->0 as int),
            s.generation == self.generation,
            s.converged == (spec_fitness(self.global_best->0 as int) < FITNESS_TOLERANCE),
    {
        let g = self.global_best.unwrap();
        let f = Population::fitness(g);
        Summary {
            selection: self.selection,
            rearrangement: self.rearrangement,
            global_best: g,
            fitness: f,
            generation: self.generation,
            converged: f < FITNESS_TOLERANCE,
        }
    }
}

} // verus!
