//! Behavioural tests of the evolutionary engine: the attacking rule,
//! the fitness formula, the population operators and their invariants.

use queens_evolution::queen::Queen;
use queens_evolution::queens::ConfigError;
use queens_evolution::queens::Queens;
use queens_evolution::random::RandomSource;
use queens_evolution::HALF;
use queens_evolution::SCALE;

fn population(cells: &[(usize, usize)], board_size: usize, ml: u64, cl: u64) -> Queens {
    let mut queens = Vec::new();
    for &cell in cells {
        queens.push(Queen::new(cell));
    }
    Queens { queens, board_size, mutation_likelihood: ml, crossover_likelihood: cl, score: 0 }
}

#[test]
fn attacks_rows_columns_diagonals() {
    let rules = [
        ((0usize, 0usize), (0usize, 5usize), true),  // same row
        ((2, 3), (7, 3), true),                      // same column
        ((1, 1), (4, 4), true),                      // same diagonal
        ((5, 2), (2, 5), true),                      // same anti-diagonal
        ((0, 1), (2, 2), false),                     // a knight's move apart
        ((1, 0), (3, 7), false),
    ];
    for &(a, b, expected) in &rules {
        let qa = Queen::new(a);
        let qb = Queen::new(b);
        assert_eq!(qa.attacks(&qb), expected);
        assert_eq!(qb.attacks(&qa), expected, "the rule must be symmetric");
    }
}

#[test]
fn fitness_range_and_perfection() {
    // A solved 4x4 placement: nobody attacks anybody.
    let mut solved = population(&[(0, 1), (1, 3), (2, 0), (3, 2)], 4, 0, 0);
    let score = solved.evaluate();
    assert_eq!(score, SCALE);
    for q in solved.queens().iter() {
        assert_eq!(q.fitness(), SCALE);
    }

    // Three pieces on one cell: two attackers each, fitness 1/3.
    let mut pile = population(&[(2, 2), (2, 2), (2, 2)], 5, 0, 0);
    let score = pile.evaluate();
    assert_eq!(score, SCALE / 3);
    for q in pile.queens().iter() {
        assert_eq!(q.fitness(), SCALE / 3);
        assert!(q.fitness() > 0 && q.fitness() <= SCALE);
        assert_ne!(q.fitness(), SCALE, "an attacked piece is never perfect");
    }
}

#[test]
fn evaluate_is_idempotent() {
    let mut p = population(&[(0, 0), (1, 2), (3, 3), (2, 0)], 4, 0, 0);
    let first = p.evaluate();
    let positions_first: Vec<_> = p.queens().iter().map(|q| q.position()).collect();
    let fitnesses_first: Vec<_> = p.queens().iter().map(|q| q.fitness()).collect();
    let second = p.evaluate();
    let positions_second: Vec<_> = p.queens().iter().map(|q| q.position()).collect();
    let fitnesses_second: Vec<_> = p.queens().iter().map(|q| q.fitness()).collect();
    assert_eq!(first, second);
    assert_eq!(positions_first, positions_second);
    assert_eq!(fitnesses_first, fitnesses_second);
}

#[test]
fn crossover_keeps_population_size() {
    let mut rng = RandomSource::from_seed(11);
    let mut p = Queens::new(&mut rng, 9, 6, 400_000, 750_000).unwrap();
    for _ in 0..25 {
        p.evaluate();
        p.crossover(&mut rng);
        assert_eq!(p.len(), 9);
        p.mutate(&mut rng);
        assert_eq!(p.len(), 9);
    }
}

#[test]
fn crossover_takes_positions_from_parents() {
    let mut rng = RandomSource::from_seed(3);
    let mut p = Queens::new(&mut rng, 8, 8, 0, 750_000).unwrap();
    p.evaluate();
    let old_positions: Vec<_> = p.queens().iter().map(|q| q.position()).collect();
    p.crossover(&mut rng);
    for q in p.queens().iter() {
        assert!(old_positions.contains(&q.position()));
        assert_eq!(q.fitness(), 0, "offspring fitness is unset until the next evaluation");
    }
}

#[test]
fn crossover_without_blending_copies_a_parent() {
    let mut rng = RandomSource::from_seed(17);
    let a = Queen::new((1, 2));
    let b = Queen::new((5, 6));
    for _ in 0..50 {
        let child = Queen::crossover(&a, &b, 0, &mut rng);
        assert_eq!(child.position(), a.position(), "with likelihood 0 the child copies parent1");
        assert_eq!(child.fitness(), 0);
    }
    for _ in 0..50 {
        let child = Queen::crossover(&a, &b, SCALE, &mut rng);
        assert!(child.position() == a.position() || child.position() == b.position());
    }
}

#[test]
fn mutation_with_zero_likelihood_changes_nothing() {
    let mut rng = RandomSource::from_seed(5);
    let mut p = Queens::new(&mut rng, 7, 9, 0, 0).unwrap();
    p.evaluate();
    let before: Vec<_> = p.queens().iter().map(|q| q.position()).collect();
    for _ in 0..20 {
        p.mutate(&mut rng);
    }
    let after: Vec<_> = p.queens().iter().map(|q| q.position()).collect();
    assert_eq!(before, after);
}

#[test]
fn mutation_is_roughly_uniform() {
    // With likelihood 1 the offset framing must be equivalent to a
    // fresh uniform draw: every cell of a 4x4 board should be hit
    // about equally often, wherever the piece started.
    let mut rng = RandomSource::from_seed(99);
    let mut counts = [[0u32; 4]; 4];
    let trials = 4000;
    let mut p = population(&[(3, 1)], 4, SCALE, 0);
    for _ in 0..trials {
        p.mutate(&mut rng);
        let (x, y) = p.queens()[0].position();
        assert!(x < 4 && y < 4);
        counts[x][y] += 1;
    }
    let expected = trials / 16;
    for row in &counts {
        for &c in row {
            assert!(c > expected / 2 && c < expected * 2, "cell count {} is far from {}", c, expected);
        }
    }
}

#[test]
fn rejects_empty_configurations() {
    let mut rng = RandomSource::from_seed(1);
    assert!(matches!(
        Queens::new(&mut rng, 0, 8, 0, 0),
        Err(ConfigError::InvalidConfiguration)
    ));
    assert!(matches!(
        Queens::new(&mut rng, 8, 0, 0, 0),
        Err(ConfigError::InvalidConfiguration)
    ));
    assert!(Queens::new(&mut rng, 1, 1, 0, 0).is_ok());
}

#[test]
fn elitist_pool_takes_both_directions() {
    // The deliberate quirk: the pool admits individuals far *below*
    // the mean as well as far above it. Two perfect pieces and one
    // deep outlier all deviate from the mean by more than the
    // variance, so all three are eligible parents.
    let mut p = population(&[(0, 0), (1, 1), (2, 2)], 8, 0, 0);
    p.queens[0].fitness = SCALE;
    p.queens[1].fitness = SCALE;
    p.queens[2].fitness = 1;
    let pool = p.elitist_pool();
    assert_eq!(pool, vec![0, 1, 2], "the low outlier is eligible too");
}

#[test]
fn elitist_pool_empty_on_uniform_fitness() {
    // Uniform fitness: zero deviation never exceeds the zero
    // variance, the degenerate no-eligible-parents case.
    let mut p = population(&[(0, 0), (1, 1), (2, 2)], 8, 0, 0);
    p.queens[0].fitness = HALF;
    p.queens[1].fitness = HALF;
    p.queens[2].fitness = HALF;
    assert!(p.elitist_pool().is_empty());
    // crossover still works: it falls back to the full population.
    let mut rng = RandomSource::from_seed(2);
    let old_positions: Vec<_> = p.queens().iter().map(|q| q.position()).collect();
    p.crossover(&mut rng);
    assert_eq!(p.len(), 3);
    for q in p.queens().iter() {
        assert!(old_positions.contains(&q.position()));
    }
}

#[test]
fn roulette_never_draws_zero_fitness() {
    let mut rng = RandomSource::from_seed(23);
    let mut p = population(&[(0, 0), (1, 1)], 8, 0, 0);
    p.queens[0].fitness = 0;
    p.queens[1].fitness = 300_000;
    let ids = vec![0usize, 1usize];
    for _ in 0..100 {
        let picked = p.select(&ids, 300_000, &mut rng);
        assert_eq!(picked, 1, "a zero-fitness member must never be drawn");
    }
}

#[test]
fn roulette_falls_back_on_zero_total() {
    let mut rng = RandomSource::from_seed(29);
    let mut p = population(&[(0, 0), (1, 1)], 8, 0, 0);
    p.queens[0].fitness = 0;
    p.queens[1].fitness = 0;
    let ids = vec![1usize, 0usize];
    let picked = p.select(&ids, 0, &mut rng);
    assert_eq!(picked, 1, "a zero total falls back to the first pool member");
}
