use evoroot::FITNESS_TOLERANCE;
use evoroot::INITIAL_HI;
use evoroot::INITIAL_LO;
use evoroot::MAX_GENERATIONS;
use evoroot::POPULATION_SIZE;
use evoroot::Population;
use evoroot::Rearrangement;
use evoroot::Selection;
use evoroot::individual;
use evoroot::mutation;
use evoroot::objective;
use rand::SeedableRng;
use rand::rngs::StdRng;

fn rng(seed: u64) -> StdRng {
    StdRng::seed_from_u64(seed)
}

#[test]
fn new_population_has_default_size() {
    let mut r = rng(1);
    let p = Population::new(Selection::Elitism, Rearrangement::Off, &mut r);
    assert_eq!(p.ind.len(), POPULATION_SIZE);
    assert_eq!(p.generation, 0);
    assert_eq!(p.global_best, None);
    assert_eq!(p.best, None);
    assert_eq!(p.last_best, None);
    assert_eq!(p.range_lo, INITIAL_LO);
    assert_eq!(p.range_hi, INITIAL_HI);
}

#[test]
fn initial_individuals_lie_in_default_interval() {
    let mut r = rng(2);
    let p = Population::new(Selection::Tournament, Rearrangement::Genocide, &mut r);
    for &v in p.ind.iter() {
        assert!(INITIAL_LO <= v && v < INITIAL_HI);
    }
    let distinct = p.ind.iter().any(|&v| v != p.ind[0]);
    assert!(distinct);
}

#[test]
fn objective_and_fitness_exact_values() {
    assert_eq!(objective(478), 0);
    assert_eq!(objective(-4567), 0);
    assert_eq!(objective(1240), 0);
    assert_eq!(objective(0), 2_706_952_240);
    assert_eq!(Population::fitness(478), 0);
    assert_eq!(Population::fitness(-4567), 0);
    assert_eq!(Population::fitness(1240), 0);
    assert_eq!(Population::fitness(0), 2_706_952_240);
    // One step left of the root: |f| is the product of the other two factors.
    assert_eq!(Population::fitness(477), 5044 * 763);
}

#[test]
fn average_objective_truncates_toward_zero() {
    let mut r = rng(19);
    let mut p = Population::with_size(Selection::Elitism, Rearrangement::Off, 3, &mut r);
    p.set(0, 478);
    p.set(1, 500);
    p.set(2, 477);
    assert_eq!(objective(478), 0);
    assert_eq!(objective(500), -82_490_760);
    assert_eq!(objective(477), 3_848_572);
    // (0 - 82_490_760 + 3_848_572) / 3, rounded toward zero.
    assert_eq!(p.average_objective(), -26_214_062);
}

#[test]
fn population_at_the_size_limit_still_works() {
    let mut r = rng(20);
    let mut p = Population::with_size(
        Selection::Elitism,
        Rearrangement::Off,
        evoroot::POPULATION_LIMIT,
        &mut r,
    );
    assert_eq!(p.ind.len(), evoroot::POPULATION_LIMIT);
    let b = p.best_index();
    assert!(b < p.ind.len());
    p.evaluate();
    assert!(p.global_best.is_some());
    let a = p.average_objective();
    assert!(a > 0);
}

#[test]
fn value_and_set_round_trip() {
    let mut r = rng(3);
    let mut p = Population::with_size(Selection::Elitism, Rearrangement::Off, 3, &mut r);
    p.set(1, 42);
    assert_eq!(p.value(1), 42);
    assert_eq!(p.ind.len(), 3);
}

#[test]
fn best_index_prefers_lower_fitness() {
    let mut r = rng(4);
    let mut p = Population::with_size(Selection::Elitism, Rearrangement::Off, 4, &mut r);
    // 7 is closer to the root 478 than 5, so its fitness is strictly lower.
    p.set(0, 5);
    p.set(1, 7);
    p.set(2, 5);
    p.set(3, 7);
    assert_eq!(p.best_index(), 1);
    assert_eq!(p.worst_index(), 0);
}

#[test]
fn best_and_worst_index_tie_break_on_first_occurrence() {
    let mut r = rng(5);
    let mut p = Population::with_size(Selection::Elitism, Rearrangement::Off, 4, &mut r);
    for i in 0..4 {
        p.set(i, 3);
    }
    assert_eq!(p.best_index(), 0);
    assert_eq!(p.worst_index(), 0);
}

#[test]
fn mutation_stays_within_offset_interval() {
    let mut r = rng(6);
    for x in [-100i64, -1, 0, 55, 99] {
        for _ in 0..50 {
            let m = mutation(&mut r, x);
            assert!(x - 10 <= m && m < x + 10);
        }
    }
}

#[test]
fn individual_draws_from_default_interval() {
    let mut r = rng(7);
    let mut seen_distinct = false;
    let first = individual(&mut r);
    for _ in 0..100 {
        let v = individual(&mut r);
        assert!(INITIAL_LO <= v && v < INITIAL_HI);
        if v != first {
            seen_distinct = true;
        }
    }
    assert!(seen_distinct);
}

#[test]
fn elitism_preserves_champion_at_its_index() {
    let mut r = rng(8);
    let mut p = Population::with_size(Selection::Elitism, Rearrangement::Off, 5, &mut r);
    p.set(0, -50);
    p.set(1, 10);
    p.set(2, 90);
    p.set(3, 90);
    p.set(4, -2);
    let b = p.best_index();
    assert_eq!(b, 2);
    let champion = p.value(b);
    p.elitism(&mut r);
    assert_eq!(p.ind.len(), 5);
    assert_eq!(p.generation, 1);
    assert_eq!(p.value(b), champion);
}

#[test]
fn elitism_children_stay_near_the_champion_midpoint() {
    let mut r = rng(9);
    let mut p = Population::with_size(Selection::Elitism, Rearrangement::Off, 4, &mut r);
    p.set(0, 0);
    p.set(1, 40);
    p.set(2, 80);
    p.set(3, 60);
    let before: Vec<i64> = p.ind.clone();
    let b = p.best_index();
    assert_eq!(b, 2);
    p.elitism(&mut r);
    for i in 0..4 {
        if i != b {
            let mid = (before[i] + before[b]) / 2;
            let v = p.value(i);
            assert!(mid - 10 <= v && v < mid + 10);
        }
    }
}

#[test]
fn tournament_preserves_champion_and_breeds_from_old_values() {
    let mut r = rng(10);
    let mut p = Population::with_size(Selection::Tournament, Rearrangement::Off, 6, &mut r);
    for (i, v) in [-90i64, -40, 5, 70, 99, 20].iter().enumerate() {
        p.set(i, *v);
    }
    let b = p.best_index();
    assert_eq!(b, 4);
    let champion = p.value(b);
    let lo = -90 - 10;
    let hi = 99 + 10;
    p.tournament(&mut r);
    assert_eq!(p.ind.len(), 6);
    assert_eq!(p.generation, 1);
    assert_eq!(p.value(b), champion);
    // Every child is a perturbed midpoint of two pre-selection values, so it
    // must lie inside the envelope of the old generation plus the mutation
    // interval.
    for &v in p.ind.iter() {
        assert!(lo <= v && v < hi);
    }
}

#[test]
fn selection_copes_with_a_population_of_one() {
    let mut r = rng(11);
    let mut p = Population::with_size(Selection::Elitism, Rearrangement::Off, 1, &mut r);
    p.set(0, 7);
    p.elitism(&mut r);
    assert_eq!(p.ind, vec![7]);
    let mut q = Population::with_size(Selection::Tournament, Rearrangement::Off, 1, &mut r);
    q.set(0, 9);
    q.tournament(&mut r);
    assert_eq!(q.ind, vec![9]);
}

#[test]
fn random_predation_replaces_exactly_the_worst() {
    let mut r = rng(12);
    let mut p = Population::with_size(Selection::Elitism, Rearrangement::RandomPredation, 5, &mut r);
    p.set(0, 10);
    p.set(1, 20);
    p.set(2, 30);
    // -90 is the farthest from the nearest root, so it is the worst.
    p.set(3, -90);
    p.set(4, 40);
    let w = p.worst_index();
    assert_eq!(w, 3);
    let before: Vec<i64> = p.ind.clone();
    // Shrink the current spawn interval to show predation ignores it.
    p.range_lo = -5;
    p.range_hi = 5;
    p.random_predation(&mut r);
    for i in 0..5 {
        if i == w {
            let v = p.value(i);
            assert!(INITIAL_LO <= v && v < INITIAL_HI);
        } else {
            assert_eq!(p.value(i), before[i]);
        }
    }
    assert_eq!(p.generation, 0);
}

#[test]
fn genocide_respawns_everyone_inside_the_new_interval() {
    let mut r = rng(13);
    let mut p = Population::with_size(Selection::Elitism, Rearrangement::Genocide, 8, &mut r);
    p.best = Some(5);
    p.last_best = Some(5);
    p.global_best = Some(5);
    p.generation = 17;
    p.genocide(&mut r);
    assert!(p.range_lo < p.range_hi);
    for &v in p.ind.iter() {
        assert!(p.range_lo <= v && v < p.range_hi);
    }
    assert_eq!(p.best, None);
    assert_eq!(p.last_best, None);
    assert_eq!(p.global_best, Some(5));
    assert_eq!(p.generation, 17);
    assert_eq!(p.ind.len(), 8);
}

#[test]
fn evaluate_tracks_generation_and_global_bests() {
    let mut r = rng(14);
    let mut p = Population::with_size(Selection::Elitism, Rearrangement::Off, 3, &mut r);
    p.set(0, 1);
    p.set(1, 50);
    p.set(2, -3);
    p.evaluate();
    assert_eq!(p.best, Some(50));
    assert_eq!(p.global_best, Some(50));
    assert_eq!(p.last_best, None);
    // A worse generation keeps the global best.
    p.set(1, 2);
    p.evaluate();
    assert_eq!(p.best, Some(2));
    assert_eq!(p.last_best, Some(50));
    assert_eq!(p.global_best, Some(50));
}

#[test]
fn global_best_fitness_never_worsens_across_generations() {
    let mut r = rng(15);
    let mut p = Population::new(Selection::Tournament, Rearrangement::RandomPredation, &mut r);
    let mut last = None;
    for _ in 0..50 {
        p.evaluate();
        let g = p.global_best.unwrap();
        let f = Population::fitness(g);
        if let Some(prev) = last {
            assert!(f <= prev);
        }
        last = Some(f);
        p.tournament(&mut r);
        p.random_predation(&mut r);
    }
}

#[test]
fn run_halts_within_the_generation_budget() {
    let mut r = rng(16);
    let mut p = Population::with_size(Selection::Tournament, Rearrangement::Off, 1, &mut r);
    // A lone individual away from every root never improves under
    // tournament selection, so the budget is what stops the run.
    p.set(0, 0);
    let t = p.run(&mut r, false);
    assert_eq!(p.generation, MAX_GENERATIONS + 1);
    assert_eq!(p.global_best, Some(0));
    assert_eq!(t.best_series.len(), 0);
    assert_eq!(t.aveg_series.len(), 0);
    let s = p.results();
    assert!(!s.converged);
    assert_eq!(s.generation, MAX_GENERATIONS + 1);
    assert_eq!(s.fitness, Population::fitness(0));
}

#[test]
fn run_with_genocide_still_halts() {
    let mut r = rng(17);
    let mut p = Population::with_size(Selection::Elitism, Rearrangement::Genocide, 1, &mut r);
    p.set(0, 3);
    p.run(&mut r, false);
    assert!(p.generation <= MAX_GENERATIONS + 1);
    assert!(p.global_best.is_some());
}

#[test]
fn seeded_elitism_run_finds_a_root() {
    let mut r = rng(42);
    let mut p = Population::new(Selection::Elitism, Rearrangement::Off, &mut r);
    let t = p.run(&mut r, true);
    let s = p.results();
    assert!(s.converged);
    assert!(s.fitness < FITNESS_TOLERANCE);
    assert!([478i64, -4567, 1240].contains(&s.global_best));
    assert_eq!(t.best_series.len() as u64, p.generation);
    assert_eq!(t.aveg_series.len(), t.best_series.len());
    let observed_max = t.best_series.iter().copied().max().unwrap().max(0);
    assert_eq!(t.y_max_best, observed_max);
}

#[test]
fn seeded_runs_are_reproducible() {
    let mut r1 = rng(42);
    let mut p1 = Population::new(Selection::Elitism, Rearrangement::Off, &mut r1);
    let t1 = p1.run(&mut r1, true);
    let mut r2 = rng(42);
    let mut p2 = Population::new(Selection::Elitism, Rearrangement::Off, &mut r2);
    let t2 = p2.run(&mut r2, true);
    assert_eq!(p1.global_best, p2.global_best);
    assert_eq!(p1.generation, p2.generation);
    assert_eq!(t1.best_series, t2.best_series);
    assert_eq!(t1.aveg_series, t2.aveg_series);
}

#[test]
fn strategy_labels_match_their_names() {
    assert_eq!(Selection::Elitism.label(), "elitism");
    assert_eq!(Selection::Tournament.label(), "tournament");
    assert_eq!(Rearrangement::Off.label(), "");
    assert_eq!(Rearrangement::Genocide.label(), "genocide");
    assert_eq!(Rearrangement::RandomPredation.label(), "random_predation");
}

#[test]
fn results_reports_the_run_outcome() {
    let mut r = rng(18);
    let mut p = Population::with_size(Selection::Tournament, Rearrangement::Genocide, 2, &mut r);
    p.set(0, 478);
    p.set(1, 3);
    p.evaluate();
    let s = p.results();
    assert_eq!(s.selection, Selection::Tournament);
    assert_eq!(s.rearrangement, Rearrangement::Genocide);
    assert_eq!(s.global_best, 478);
    assert_eq!(s.fitness, 0);
    assert!(s.converged);
    assert_eq!(s.generation, 0);
}
