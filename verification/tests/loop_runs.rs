//! Tests of the generational loop: convergence scenarios, determinism
//! under a fixed seed, and the reported statistics.

use queens_evolution::evolution::EvolutionLoop;
use queens_evolution::queens::Queens;
use queens_evolution::random::RandomSource;
use queens_evolution::SCALE;

fn start(seed: u64, count: usize, board: usize, ml: u64, cl: u64) -> (EvolutionLoop, RandomSource) {
    let mut rng = RandomSource::from_seed(seed);
    let population = Queens::new(&mut rng, count, board, ml, cl).unwrap();
    (EvolutionLoop::new(population), rng)
}

#[test]
fn single_piece_converges_immediately() {
    // One piece on a 4x4 board attacks nothing: the very first tick
    // scores a perfect 1.0 and converges at iteration 0, with no
    // crossover or mutation performed.
    let (mut run, mut rng) = start(7, 1, 4, 400_000, 750_000);
    let position_before = run.population.queens()[0].position();
    let report = run.tick(&mut rng);
    assert_eq!(report.score, SCALE);
    assert_eq!(report.iteration, 0);
    assert!(run.converged);
    assert_eq!(run.population.queens()[0].position(), position_before);
    assert_eq!(report.best, SCALE);
    assert_eq!(report.worst, SCALE);
    assert_eq!(report.average, SCALE);
    assert_eq!(report.moving_average_5, SCALE);
}

#[test]
fn converged_runs_only_re_report() {
    let (mut run, mut rng) = start(7, 1, 4, 400_000, 750_000);
    let first = run.tick(&mut rng);
    for _ in 0..5 {
        let again = run.tick(&mut rng);
        assert_eq!(again.iteration, first.iteration);
        assert_eq!(again.score, first.score);
        assert_eq!(run.history.len(), 1, "a converged run records nothing further");
    }
}

#[test]
fn crowded_single_cell_board_never_converges() {
    // Two pieces on a 1x1 board share the only cell: one attacker
    // each, fitness 0.5 each, score 0.5, forever.
    let (mut run, mut rng) = start(13, 2, 1, 400_000, 750_000);
    for tick_count in 1..=10 {
        let report = run.tick(&mut rng);
        assert_eq!(report.score, SCALE / 2);
        assert!(!run.converged);
        assert_eq!(run.history.len(), tick_count);
        for q in run.population.queens().iter() {
            assert_eq!(q.position(), (0, 0));
        }
    }
    for q in run.population.queens().iter() {
        assert_eq!(q.fitness(), 0, "the last tick bred a fresh, unevaluated generation");
    }
}

#[test]
fn fixed_seed_runs_are_identical() {
    // Determinism: a run is a function of its seed and configuration.
    let (mut run_a, mut rng_a) = start(42, 10, 8, 400_000, 750_000);
    let (mut run_b, mut rng_b) = start(42, 10, 8, 400_000, 750_000);
    for _ in 0..40 {
        run_a.tick(&mut rng_a);
        run_b.tick(&mut rng_b);
    }
    assert_eq!(run_a.history, run_b.history);
    let positions_a: Vec<_> = run_a.population.queens().iter().map(|q| q.position()).collect();
    let positions_b: Vec<_> = run_b.population.queens().iter().map(|q| q.position()).collect();
    assert_eq!(positions_a, positions_b);
}

#[test]
fn frozen_operators_keep_positions_within_the_old_set() {
    // With both likelihoods at 0 every offspring is a verbatim copy
    // of its first parent and no offset is applied: every position
    // after a tick already existed in the previous generation.
    let (mut run, mut rng) = start(31, 6, 8, 0, 0);
    for _ in 0..10 {
        let before: Vec<_> = run.population.queens().iter().map(|q| q.position()).collect();
        run.tick(&mut rng);
        for q in run.population.queens().iter() {
            assert!(before.contains(&q.position()));
        }
    }
}

#[test]
fn report_statistics_follow_the_history() {
    let (mut run, _rng) = start(3, 2, 1, 0, 0);
    run.history = vec![100, 500, 300];
    run.iteration = 3;
    let report = run.report();
    assert_eq!(report.iteration, 3);
    assert_eq!(report.score, 300);
    assert_eq!(report.best, 500);
    assert_eq!(report.worst, 100);
    assert_eq!(report.average, 300);
    assert_eq!(report.moving_average_5, 300);

    run.history = vec![700, 100, 200, 300, 400, 500, 650];
    let report = run.report();
    assert_eq!(report.best, 700);
    assert_eq!(report.worst, 100);
    assert_eq!(report.average, (700 + 100 + 200 + 300 + 400 + 500 + 650) / 7);
    assert_eq!(report.moving_average_5, (200 + 300 + 400 + 500 + 650) / 5);
}

#[test]
fn coins_are_exact_at_the_edges() {
    let mut rng = RandomSource::from_seed(8);
    for _ in 0..200 {
        assert!(!rng.coin(0), "probability 0 never fires");
        assert!(rng.coin(SCALE), "probability 1 always fires");
    }
}

#[test]
fn whole_runs_can_solve_small_boards() {
    // A real search: four pieces on a 4x4 board under the standard
    // operator probabilities, a few restarts allowed. At least one
    // seed must converge to a non-attacking placement.
    let mut solved = false;
    for seed in 0..10u64 {
        let (mut run, mut rng) = start(seed, 4, 4, 400_000, 750_000);
        for _ in 0..4000 {
            run.tick(&mut rng);
            if run.converged {
                break;
            }
        }
        if run.converged {
            // A converged run's last generation was only evaluated,
            // never replaced: check it really is attack-free.
            let queens = run.population.queens();
            for i in 0..queens.len() {
                for j in 0..queens.len() {
                    if i != j {
                        assert!(!queens[i].attacks(&queens[j]));
                    }
                }
            }
            assert_eq!(run.history.last().copied(), Some(SCALE));
            solved = true;
            break;
        }
    }
    assert!(solved, "no seed out of ten solved the 4x4 board");
}
