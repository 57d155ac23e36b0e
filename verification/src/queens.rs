//! The population: a fixed-size ordered collection of individuals with
//! the configured board size and operator probabilities, owning every
//! per-generation operator (evaluation, parent selection, crossover,
//! mutation).

use vstd::prelude::*;
use crate::queen::Queen;
use crate::queen::attacks_at;
use crate::queen::count_attacks;
use crate::queen::fitness_of;
use crate::queen::lemma_count_attacks_bounds;
use crate::queen::lemma_count_attacks_zero;
use crate::queen::lemma_fitness_bounds;
use crate::queen::positions;
use crate::random::RandomSource;
use crate::MAX_INDIVIDUALS;
use crate::SCALE;

verus! {

/// A configuration the engine rejects outright: an empty population or
/// an empty board would make fitness and selection meaningless.
#[derive(Clone, Copy, Debug, PartialEq, Eq)]
pub enum ConfigError {
    InvalidConfiguration,
}

/// The position sequence with the entry at `i` removed: the rest of the
/// population, from the point of view of the individual at `i`.
pub open spec fn minus_index(ps: Seq<(usize, usize)>, i: int) -> Seq<(usize, usize)> {
    ps.subrange(0, i) + ps.subrange(i + 1, ps.len() as int)
}

/// How many other individuals attack the one at index `i`: the
/// individual itself is excluded from the count by construction.
pub open spec fn attackers(ps: Seq<(usize, usize)>, i: int) -> int
    recommends
        0 <= i < ps.len(),
{
    count_attacks(minus_index(ps, i), ps[i])
}

pub proof fn lemma_attackers_bounds(ps: Seq<(usize, usize)>, i: int)
    requires
        0 <= i < ps.len(),
    ensures
        0 <= attackers(ps, i) <= ps.len() - 1,
{
    lemma_count_attacks_bounds(minus_index(ps, i), ps[i]);
}

/// An individual counts zero attackers exactly when no other
/// individual of the population attacks it.
pub proof fn lemma_attackers_zero(ps: Seq<(usize, usize)>, i: int)
    requires
        0 <= i < ps.len(),
    ensures
        attackers(ps, i) == 0 <==> (forall|j: int|
            0 <= j < ps.len() && j != i ==> !attacks_at(ps[j], ps[i])),
{
    let m = minus_index(ps, i);
    lemma_count_attacks_zero(m, ps[i]);
    assert(m.len() == ps.len() - 1);
    assert forall|k: int| 0 <= k < m.len() implies #[trigger] m[k] == (if k < i {
        ps[k]
    } else {
        ps[k + 1]
    }) by {
        if k < i {
            assert(m[k] == ps.subrange(0, i)[k]);
        } else {
            assert(m[k] == ps.subrange(i + 1, ps.len() as int)[k - i]);
        }
    }
    if forall|k: int| 0 <= k < m.len() ==> !attacks_at(#[trigger] m[k], ps[i]) {
        assert forall|j: int| 0 <= j < ps.len() && j != i implies !attacks_at(ps[j], ps[i]) by {
            if j < i {
                assert(m[j] == ps[j]);
            } else {
                assert(m[j - 1] == ps[j]);
            }
        }
    }
    if forall|j: int| 0 <= j < ps.len() && j != i ==> !attacks_at(#[trigger] ps[j], ps[i]) {
        assert forall|k: int| 0 <= k < m.len() implies !attacks_at(m[k], ps[i]) by {
            if k < i {
                assert(m[k] == ps[k]);
            } else {
                assert(m[k] == ps[k + 1]);
            }
        }
    }
}

/// The termination rule is sound: the score is the perfect 1.0 exactly
/// when no two distinct individuals attack each other.
pub proof fn lemma_perfect_score_no_attacks(ps: Seq<(usize, usize)>)
    requires
        1 <= ps.len() <= MAX_INDIVIDUALS,
    ensures
        score_of(ps) == SCALE <==> (forall|i: int, j: int|
            0 <= i < ps.len() && 0 <= j < ps.len() && i != j ==> !#[trigger] attacks_at(
                ps[j],
                ps[i],
            )),
{
    lemma_perfect_score(ps);
    if score_of(ps) == SCALE {
        assert forall|i: int, j: int|
            0 <= i < ps.len() && 0 <= j < ps.len() && i != j implies !#[trigger] attacks_at(
            ps[j],
            ps[i],
        ) by {
            lemma_attackers_zero(ps, i);
            assert(attackers(ps, i) == 0);
        }
    } else {
        if forall|i: int, j: int|
            0 <= i < ps.len() && 0 <= j < ps.len() && i != j ==> !#[trigger] attacks_at(
                ps[j],
                ps[i],
            ) {
            assert forall|i: int| 0 <= i < ps.len() implies #[trigger] attackers(ps, i) == 0 by {
                lemma_attackers_zero(ps, i);
                assert forall|j: int|
                    0 <= j < ps.len() && j != i implies !attacks_at(ps[j], ps[i]) by {
                    assert(!attacks_at(ps[j], ps[i]));
                }
            }
            assert(false);
        }
    }
}

/// The population after one evaluation pass: positions are untouched
/// and every fitness holds the inverse-attack-count formula.
pub open spec fn evaluated(qs: Seq<Queen>) -> Seq<Queen> {
    Seq::new(
        qs.len(),
        |i: int| Queen {
            position: qs[i].position,
            fitness: fitness_of(attackers(positions(qs), i)) as u64,
        },
    )
}

/// Sum of the fitnesses, per the inverse-attack-count formula, of the
/// first `j` individuals.
pub open spec fn sum_fitness_before(ps: Seq<(usize, usize)>, j: int) -> int
    decreases j,
{
    if j <= 0 {
        0
    } else {
        sum_fitness_before(ps, j - 1) + fitness_of(attackers(ps, j - 1))
    }
}

/// The population-level score, in millionths: the mean of the
/// individual fitnesses, rounded down.
pub open spec fn score_of(ps: Seq<(usize, usize)>) -> int
    recommends
        1 <= ps.len(),
{
    sum_fitness_before(ps, ps.len() as int) / (ps.len() as int)
}

pub proof fn lemma_sum_fitness_bounds(ps: Seq<(usize, usize)>, j: int)
    requires
        0 <= j <= ps.len() <= MAX_INDIVIDUALS,
    ensures
        j <= sum_fitness_before(ps, j) <= j * SCALE,
    decreases j,
{
    if j > 0 {
        lemma_sum_fitness_bounds(ps, j - 1);
        lemma_attackers_bounds(ps, j - 1);
        lemma_fitness_bounds(attackers(ps, j - 1));
    }
}

/// The sum of the first `j` fitnesses is maximal exactly when each of
/// those individuals has no attacker at all.
pub proof fn lemma_sum_fitness_perfect(ps: Seq<(usize, usize)>, j: int)
    requires
        0 <= j <= ps.len() <= MAX_INDIVIDUALS,
    ensures
        sum_fitness_before(ps, j) == j * SCALE <==> (forall|i: int|
            0 <= i < j ==> attackers(ps, i) == 0),
    decreases j,
{
    if j > 0 {
        lemma_sum_fitness_perfect(ps, j - 1);
        lemma_sum_fitness_bounds(ps, j - 1);
        lemma_attackers_bounds(ps, j - 1);
        lemma_fitness_bounds(attackers(ps, j - 1));
    }
}

/// The score reaches `SCALE` (that is, 1.0) exactly when no individual
/// has any attacker: since attacking is pairwise and symmetric, a
/// perfect score means the placement as a whole is free of attacks.
pub proof fn lemma_perfect_score(ps: Seq<(usize, usize)>)
    requires
        1 <= ps.len() <= MAX_INDIVIDUALS,
    ensures
        score_of(ps) == SCALE <==> (forall|i: int|
            0 <= i < ps.len() ==> attackers(ps, i) == 0),
{
    let n = ps.len() as int;
    let s = sum_fitness_before(ps, n);
    lemma_sum_fitness_bounds(ps, n);
    lemma_sum_fitness_perfect(ps, n);
    if s == n * SCALE {
        assert(s / n == SCALE) by (nonlinear_arith)
            requires n >= 1, s == n * SCALE;
    } else {
        assert(s / n < SCALE) by (nonlinear_arith)
            requires n >= 1, 0 <= s < n * SCALE;
    }
}

/// Evaluation is idempotent: it never moves an individual, and the
/// fitnesses it writes depend on the positions alone, so evaluating an
/// already evaluated population writes exactly the same values again.
pub proof fn lemma_evaluate_idempotent(qs: Seq<Queen>)
    ensures
        positions(evaluated(qs)) == positions(qs),
        evaluated(evaluated(qs)) == evaluated(qs),
{
    assert(positions(evaluated(qs)) =~= positions(qs));
    assert(evaluated(evaluated(qs)) =~= evaluated(qs));
}

/// A population of a single individual is already perfect: with no
/// other individual to attack it, it counts zero attackers and the
/// score is 1.0 from the first evaluation on.
pub proof fn lemma_single_individual_perfect(ps: Seq<(usize, usize)>)
    requires
        ps.len() == 1,
    ensures
        attackers(ps, 0) == 0,
        score_of(ps) == SCALE,
{
    assert(minus_index(ps, 0) =~= Seq::<(usize, usize)>::empty());
    assert(count_attacks(Seq::<(usize, usize)>::empty(), ps[0]) == 0);
    assert(attackers(ps, 0) == 0);
    assert(sum_fitness_before(ps, 0) == 0);
    assert(sum_fitness_before(ps, 1) == fitness_of(0));
    assert(fitness_of(0) == SCALE as int / 1);
    assert(SCALE as int / 1 == SCALE) by (nonlinear_arith);
}

/// Two individuals on one cell attack each other (same row, column and
/// diagonal at once): each counts exactly one attacker, each fitness
/// is 0.5, and so is the population score — which therefore can never
/// be the perfect 1.0.
pub proof fn lemma_coincident_pair(ps: Seq<(usize, usize)>)
    requires
        ps.len() == 2,
        ps[0] == ps[1],
    ensures
        attackers(ps, 0) == 1,
        attackers(ps, 1) == 1,
        score_of(ps) == SCALE / 2,
        score_of(ps) != SCALE,
{
    assert(minus_index(ps, 0) =~= seq![ps[1]]);
    assert(minus_index(ps, 1) =~= seq![ps[0]]);
    assert(seq![ps[1]].drop_last() =~= Seq::<(usize, usize)>::empty());
    assert(seq![ps[0]].drop_last() =~= Seq::<(usize, usize)>::empty());
    assert(attacks_at(ps[1], ps[0]));
    assert(count_attacks(Seq::<(usize, usize)>::empty(), ps[0]) == 0);
    assert(count_attacks(Seq::<(usize, usize)>::empty(), ps[1]) == 0);
    assert(seq![ps[1]].last() == ps[1]);
    assert(seq![ps[0]].last() == ps[0]);
    assert(count_attacks(seq![ps[1]], ps[0]) == 1);
    assert(count_attacks(seq![ps[0]], ps[1]) == 1);
    assert(attackers(ps, 0) == 1);
    assert(attackers(ps, 1) == 1);
    assert(sum_fitness_before(ps, 0) == 0);
    assert(sum_fitness_before(ps, 1) == fitness_of(1));
    assert(sum_fitness_before(ps, 2) == 2 * fitness_of(1));
    assert(fitness_of(1) == SCALE as int / 2);
    assert(score_of(ps) == (2 * (SCALE as int / 2)) / 2);
}

/// Sum of the cached fitnesses of the first `j` individuals.
pub open spec fn sum_cached_before(qs: Seq<Queen>, j: int) -> int
    decreases j,
{
    if j <= 0 {
        0
    } else {
        sum_cached_before(qs, j - 1) + qs[j - 1].fitness
    }
}

/// Mean, rounded down, of the cached fitnesses.
pub open spec fn mean_of(qs: Seq<Queen>) -> int
    recommends
        qs.len() >= 1,
{
    sum_cached_before(qs, qs.len() as int) / (qs.len() as int)
}

/// Absolute deviation of a fitness from a reference value.
pub open spec fn dev(f: int, m: int) -> int {
    if f >= m { f - m } else { m - f }
}

/// Sum of the squared deviations from `m` of the first `j` cached
/// fitnesses. Squares of millionths, so the value is in `SCALE²` units.
pub open spec fn sum_sq_dev_before(qs: Seq<Queen>, m: int, j: int) -> int
    decreases j,
{
    if j <= 0 {
        0
    } else {
        sum_sq_dev_before(qs, m, j - 1) + dev(qs[j - 1].fitness as int, m) * dev(
            qs[j - 1].fitness as int,
            m,
        )
    }
}

/// Population variance of the cached fitnesses, brought back to
/// millionths by the extra `SCALE` in the divisor, rounded down.
pub open spec fn variance_of(qs: Seq<Queen>) -> int
    recommends
        qs.len() >= 1,
{
    sum_sq_dev_before(qs, mean_of(qs), qs.len() as int) / (qs.len() as int * SCALE)
}

/// Membership in the elitist parent pool: the fitness deviates from the
/// mean by more than the variance, in either direction. The
/// both-directions rule is deliberate: it reproduces the quirk that
/// individuals far below the mean are eligible as parents too.
pub open spec fn in_pool(qs: Seq<Queen>, i: int) -> bool
    recommends
        0 <= i < qs.len(),
{
    dev(qs[i].fitness as int, mean_of(qs)) > variance_of(qs)
}

pub proof fn lemma_sum_cached_bounds(qs: Seq<Queen>, j: int)
    requires
        0 <= j <= qs.len() <= MAX_INDIVIDUALS,
        forall|i: int| 0 <= i < qs.len() ==> (#[trigger] qs[i]).fitness <= SCALE,
    ensures
        0 <= sum_cached_before(qs, j) <= j * SCALE,
    decreases j,
{
    if j > 0 {
        lemma_sum_cached_bounds(qs, j - 1);
    }
}

/// Sum of the cached fitnesses of the pool members named by the first
/// `k` entries of `ids`.
pub open spec fn pool_total_before(qs: Seq<Queen>, ids: Seq<usize>, k: int) -> int
    decreases k,
{
    if k <= 0 {
        0
    } else {
        pool_total_before(qs, ids, k - 1) + qs[ids[k - 1] as int].fitness
    }
}

/// An ordered, fixed-size population of individuals plus the
/// configuration of the run. `score` caches the population-level
/// fitness that the last evaluation pass computed (0 before the first
/// pass), and is the value the termination check reads.
pub struct Queens {
    pub queens: Vec<Queen>,
    pub board_size: usize,
    pub mutation_likelihood: u64,
    pub crossover_likelihood: u64,
    pub score: u64,
}

impl Queens {
    /// Well-formedness: the size bounds that keep every sum and every
    /// coordinate computation inside its machine type, probabilities at
    /// most 1.0, every position on the board, and every cached value in
    /// the fitness range.
    pub open spec fn wf(self) -> bool {
        &&& 1 <= self.queens@.len() <= MAX_INDIVIDUALS
        &&& 1 <= self.board_size <= usize::MAX / 2
        &&& self.mutation_likelihood <= SCALE
        &&& self.crossover_likelihood <= SCALE
        &&& self.score <= SCALE
        &&& forall|i: int|
            0 <= i < self.queens@.len() ==> (#[trigger] self.queens@[i]).position.0
                < self.board_size && self.queens@[i].position.1 < self.board_size
        &&& forall|i: int|
            0 <= i < self.queens@.len() ==> (#[trigger] self.queens@[i]).fitness <= SCALE
    }

    /// Builds a population of `individual_count` individuals, each at an
    /// independently uniform position on the board (duplicates are
    /// allowed), with all fitnesses and the cached score at 0. Rejects
    /// an empty population or an empty board, and nothing else.
    pub fn new(
        rng: &mut RandomSource,
        individual_count: usize,
        board_size: usize,
        mutation_likelihood: u64,
        crossover_likelihood: u64,
    ) -> (r: Result<Queens, ConfigError>)
        requires
            mutation_likelihood <= SCALE,
            crossover_likelihood <= SCALE,
            individual_count <= MAX_INDIVIDUALS,
            board_size <= usize::MAX / 2,
        ensures
            r is Ok <==> individual_count >= 1 && board_size >= 1,
            r is Ok ==> {
                &&& r->Ok_0.wf()
                &&& r->Ok_0.queens@.len() == individual_count
                &&& r->Ok_0.board_size == board_size
                &&& r->Ok_0.mutation_likelihood == mutation_likelihood
                &&& r->Ok_0.crossover_likelihood == crossover_likelihood
                &&& r->Ok_0.score == 0
                &&& forall|i: int|
                    0 <= i < individual_count ==> (#[trigger] r->Ok_0.queens@[i]).fitness == 0
            },
    {
        if individual_count == 0 || board_size == 0 {
            return Err(ConfigError::InvalidConfiguration);
        }
        let mut queens: Vec<Queen> = Vec::new();
        let mut k: usize = 0;
        while k < individual_count
            invariant
                k <= individual_count,
                queens@.len() == k,
                board_size >= 1,
                forall|i: int|
                    0 <= i < k ==> (#[trigger] queens@[i]).position.0 < board_size
                        && queens@[i].position.1 < board_size,
                forall|i: int| 0 <= i < k ==> (#[trigger] queens@[i]).fitness == 0,
            decreases individual_count - k,
        {
            let x = rng.draw_usize(board_size);
            let y = rng.draw_usize(board_size);
            queens.push(Queen::new((x, y)));
            k = k + 1;
        }
        Ok(Queens {
            queens,
            board_size,
            mutation_likelihood,
            crossover_likelihood,
            score: 0,
        })
    }

    /// Read-only snapshot of the individuals, in insertion order.
    pub fn queens(&self) -> (qs: &Vec<Queen>)
        ensures
            qs@ == self.queens@,
    {
        &self.queens
    }

    pub fn len(&self) -> (n: usize)
        ensures
            n == self.queens@.len(),
    {
        self.queens.len()
    }

    /// The last computed population-level fitness, in millionths.
    pub fn fitness(&self) -> (f: u64)
        ensures
            f == self.score,
    {
        self.score
    }

    /// Recomputes every individual's fitness against all the other
    /// current individuals, caches and returns the population-level
    /// score: the mean of the individual fitnesses. Positions are not
    /// touched, and the outcome depends on the positions alone.
    pub fn evaluate(&mut self) -> (score: u64)
        requires
            old(self).wf(),
        ensures
            final(self).wf(),
            final(self).queens@ == evaluated(old(self).queens@),
            positions(final(self).queens@) == positions(old(self).queens@),
            final(self).board_size == old(self).board_size,
            final(self).mutation_likelihood == old(self).mutation_likelihood,
            final(self).crossover_likelihood == old(self).crossover_likelihood,
            final(self).queens@.len() == old(self).queens@.len(),
            final(self).score == score_of(positions(old(self).queens@)),
            score == final(self).score,
    {
        let ghost qs0 = self.queens@;
        let ghost ps = positions(qs0);
        let n = self.queens.len();
        let mut sum: u64 = 0;
        let mut i: usize = 0;
        while i < n
            invariant
                old(self).wf(),
                qs0 == old(self).queens@,
                ps == positions(qs0),
                n == qs0.len(),
                1 <= n <= MAX_INDIVIDUALS,
                i <= n,
                self.queens@.len() == n,
                self.board_size == old(self).board_size,
                self.mutation_likelihood == old(self).mutation_likelihood,
                self.crossover_likelihood == old(self).crossover_likelihood,
                self.score == old(self).score,
                forall|k: int| i <= k < n ==> #[trigger] self.queens@[k] == qs0[k],
                forall|k: int| 0 <= k < i ==> #[trigger] self.queens@[k] == evaluated(qs0)[k],
                forall|k: int|
                    0 <= k < n ==> (#[trigger] self.queens@[k]).position == qs0[k].position,
                sum == sum_fitness_before(ps, i as int),
                sum <= i * SCALE,
            decreases n - i,
        {
            let mut others: Vec<Queen> = Vec::new();
            let mut j: usize = 0;
            while j < n
                invariant
                    j <= n,
                    i < n,
                    n == qs0.len(),
                    ps == positions(qs0),
                    ps.len() == n,
                    self.queens@.len() == n,
                    forall|k: int|
                        0 <= k < n ==> (#[trigger] self.queens@[k]).position == qs0[k].position,
                    j <= i ==> positions(others@) == ps.subrange(0, j as int),
                    j > i ==> positions(others@) == ps.subrange(0, i as int) + ps.subrange(
                        i as int + 1,
                        j as int,
                    ),
                decreases n - j,
            {
                if j != i {
                    let ghost before = positions(others@);
                    others.push(self.queens[j]);
                    proof {
                        assert(positions(others@) =~= before.push(ps[j as int]));
                        if j < i {
                            assert(positions(others@) =~= ps.subrange(0, j as int + 1));
                        } else {
                            assert(positions(others@) =~= ps.subrange(0, i as int) + ps.subrange(
                                i as int + 1,
                                j as int + 1,
                            ));
                        }
                    }
                } else {
                    proof {
                        assert(positions(others@) =~= ps.subrange(0, i as int) + ps.subrange(
                            i as int + 1,
                            i as int + 1,
                        ));
                    }
                }
                j = j + 1;
            }
            proof {
                assert(positions(others@) == minus_index(ps, i as int));
                assert(others@.len() == positions(others@).len());
                assert(others@.len() == n - 1 < SCALE);
            }
            let mut q = self.queens[i];
            q.evaluate(&others);
            proof {
                assert(q.position == ps[i as int]);
                assert(q.fitness == fitness_of(attackers(ps, i as int)));
                lemma_attackers_bounds(ps, i as int);
                lemma_fitness_bounds(attackers(ps, i as int));
                assert(q == evaluated(qs0)[i as int]);
            }
            self.queens.set(i, q);
            sum = sum + q.fitness;
            i = i + 1;
        }
        proof {
            assert(self.queens@ =~= evaluated(qs0));
            assert(positions(self.queens@) =~= ps);
            lemma_sum_fitness_bounds(ps, n as int);
            assert(sum as int / n as int <= SCALE) by (nonlinear_arith)
                requires n >= 1, sum <= n * SCALE, sum >= 0;
        }
        let score = sum / (n as u64);
        self.score = score;
        proof {
            assert(forall|k: int|
                0 <= k < n ==> (#[trigger] self.queens@[k]).fitness <= SCALE) by {
                assert forall|k: int| 0 <= k < n implies (#[trigger] self.queens@[k]).fitness
                    <= SCALE by {
                    lemma_attackers_bounds(ps, k);
                    lemma_fitness_bounds(attackers(ps, k));
                }
            }
        }
        score
    }

    /// The elitist parent pool: the indices, in insertion order, of the
    /// individuals whose cached fitness deviates from the mean by more
    /// than the variance, in either direction. May be empty (uniform
    /// fitness gives a zero threshold nothing exceeds).
    pub fn elitist_pool(&self) -> (ids: Vec<usize>)
        requires
            self.wf(),
        ensures
            ids@.len() <= self.queens@.len(),
            forall|k: int| 0 <= k < ids@.len() ==> (#[trigger] ids@[k]) < self.queens@.len(),
            forall|k1: int, k2: int| 0 <= k1 < k2 < ids@.len() ==> ids@[k1] < ids@[k2],
            forall|k: int|
                0 <= k < ids@.len() ==> in_pool(self.queens@, (#[trigger] ids@[k]) as int),
            forall|i: usize|
                i < self.queens@.len() && in_pool(self.queens@, i as int) ==> ids@.contains(i),
    {
        let ghost qs = self.queens@;
        let n = self.queens.len();
        let mut sum: u64 = 0;
        let mut k: usize = 0;
        while k < n
            invariant
                self.wf(),
                qs == self.queens@,
                n == qs.len(),
                k <= n,
                sum == sum_cached_before(qs, k as int),
                sum <= k * SCALE,
            decreases n - k,
        {
            sum = sum + self.queens[k].fitness;
            k = k + 1;
        }
        let mean = sum / (n as u64);
        proof {
            lemma_sum_cached_bounds(qs, n as int);
            assert(sum as int / n as int <= SCALE) by (nonlinear_arith)
                requires n >= 1, 0 <= sum <= n * SCALE;
            assert(mean == mean_of(qs));
        }
        let mut ssq: u64 = 0;
        k = 0;
        while k < n
            invariant
                self.wf(),
                qs == self.queens@,
                n == qs.len(),
                k <= n,
                0 <= mean <= SCALE,
                mean == mean_of(qs),
                ssq == sum_sq_dev_before(qs, mean_of(qs), k as int),
                ssq <= k * (SCALE * SCALE),
            decreases n - k,
        {
            let f = self.queens[k].fitness;
            let d = if f >= mean { f - mean } else { mean - f };
            proof {
                assert(d == dev(qs[k as int].fitness as int, mean_of(qs)));
                assert(d * d <= SCALE * SCALE) by (nonlinear_arith)
                    requires 0 <= d <= SCALE;
                assert(ssq + d * d <= (k as int + 1) * (SCALE * SCALE)) by (nonlinear_arith)
                    requires
                        ssq <= k * (SCALE * SCALE),
                        d * d <= SCALE * SCALE,
                ;
                assert((k as int + 1) * (SCALE * SCALE) <= MAX_INDIVIDUALS * (SCALE * SCALE))
                    by (nonlinear_arith)
                    requires k as int + 1 <= MAX_INDIVIDUALS;
            }
            ssq = ssq + d * d;
            k = k + 1;
        }
        let var = ssq / ((n as u64) * SCALE);
        proof {
            assert(var == variance_of(qs));
        }
        let mut ids: Vec<usize> = Vec::new();
        let mut i: usize = 0;
        while i < n
            invariant
                self.wf(),
                qs == self.queens@,
                n == qs.len(),
                i <= n,
                0 <= mean <= SCALE,
                mean == mean_of(qs),
                var == variance_of(qs),
                ids@.len() <= i,
                forall|k: int| 0 <= k < ids@.len() ==> (#[trigger] ids@[k]) < i,
                forall|k1: int, k2: int| 0 <= k1 < k2 < ids@.len() ==> ids@[k1] < ids@[k2],
                forall|k: int| 0 <= k < ids@.len() ==> in_pool(qs, (#[trigger] ids@[k]) as int),
                forall|q: usize| q < i && in_pool(qs, q as int) ==> ids@.contains(q),
            decreases n - i,
        {
            let f = self.queens[i].fitness;
            let d = if f >= mean { f - mean } else { mean - f };
            if d > var {
                let ghost before = ids@;
                ids.push(i);
                proof {
                    assert(ids@ == before.push(i));
                    assert(ids@[ids@.len() - 1] == i);
                    assert forall|q: usize| q < i + 1 && in_pool(qs, q as int) implies ids@.contains(
                        q,
                    ) by {
                        if q < i {
                            let w = choose|w: int| 0 <= w < before.len() && before[w] == q;
                            assert(ids@[w] == q);
                        } else {
                            assert(ids@[ids@.len() - 1] == q);
                        }
                    }
                }
            }
            i = i + 1;
        }
        ids
    }

    /// Roulette-wheel selection of one population index from the pool
    /// `ids`: a uniform draw below the pool's total fitness is walked
    /// down the pool in order, so a member's chance is proportional to
    /// its fitness and a zero-fitness member is never drawn. A zero
    /// total (nothing to draw from) falls back to the first pool
    /// member.
    pub fn select(&self, ids: &Vec<usize>, total: u64, rng: &mut RandomSource) -> (r: usize)
        requires
            self.wf(),
            1 <= ids@.len(),
            forall|k: int| 0 <= k < ids@.len() ==> (#[trigger] ids@[k]) < self.queens@.len(),
            total == pool_total_before(self.queens@, ids@, ids@.len() as int),
        ensures
            ids@.contains(r),
            total > 0 ==> self.queens@[r as int].fitness > 0,
    {
        let ghost qs = self.queens@;
        if total == 0 {
            let r = ids[0];
            proof {
                assert(ids@[0] == r);
            }
            return r;
        }
        let mut pick = rng.draw_u64(total);
        let mut k: usize = 0;
        while k < ids.len()
            invariant
                self.wf(),
                qs == self.queens@,
                1 <= ids@.len(),
                forall|j: int| 0 <= j < ids@.len() ==> (#[trigger] ids@[j]) < qs.len(),
                total == pool_total_before(qs, ids@, ids@.len() as int),
                k <= ids@.len(),
                pick + pool_total_before(qs, ids@, k as int) < total,
            decreases ids@.len() - k,
        {
            let id = ids[k];
            let f = self.queens[id].fitness;
            if pick < f {
                proof {
                    assert(ids@[k as int] == id);
                }
                return id;
            }
            pick = pick - f;
            k = k + 1;
        }
        // The draw is below the pool total, so the walk cannot run out
        // of members; the fallback only quiets the compiler.
        proof {
            assert(false);
        }
        let r = ids[0];
        proof {
            assert(ids@[0] == r);
        }
        r
    }

    /// Replaces the whole generation at once: for every slot two
    /// parents are drawn by roulette from the elitist pool (from the
    /// full population when that pool is empty — the recovered
    /// no-eligible-parents case), and their offspring takes a parent's
    /// position verbatim with its fitness reset to 0. The population
    /// size never changes, every offspring stands on a position some
    /// current individual already occupies — one of an eligible parent
    /// whenever any individual is eligible at all — and a population
    /// that already scored a perfect 1.0 is left as it is.
    pub fn crossover(&mut self, rng: &mut RandomSource)
        requires
            old(self).wf(),
        ensures
            final(self).wf(),
            final(self).queens@.len() == old(self).queens@.len(),
            final(self).board_size == old(self).board_size,
            final(self).mutation_likelihood == old(self).mutation_likelihood,
            final(self).crossover_likelihood == old(self).crossover_likelihood,
            final(self).score == old(self).score,
            old(self).score == SCALE ==> final(self).queens@ == old(self).queens@,
            forall|i: int|
                0 <= i < final(self).queens@.len() ==> positions(old(self).queens@).contains(
                    (#[trigger] final(self).queens@[i]).position,
                ),
            old(self).score != SCALE ==> forall|i: int|
                0 <= i < final(self).queens@.len()
                    ==> (#[trigger] final(self).queens@[i]).fitness == 0,
            old(self).score != SCALE && (exists|j: int|
                0 <= j < old(self).queens@.len() && in_pool(old(self).queens@, j))
                ==> forall|i: int|
                    0 <= i < final(self).queens@.len() ==> exists|j: int|
                        0 <= j < old(self).queens@.len() && in_pool(old(self).queens@, j)
                            && (#[trigger] final(self).queens@[i]).position
                            == old(self).queens@[j].position,
    {
        let ghost qs0 = self.queens@;
        if self.score == SCALE {
            proof {
                assert forall|i: int| 0 <= i < qs0.len() implies positions(qs0).contains(
                    (#[trigger] qs0[i]).position,
                ) by {
                    assert(positions(qs0)[i] == qs0[i].position);
                }
            }
            return;
        }
        let n = self.queens.len();
        let ghost some_eligible = exists|j: int| 0 <= j < qs0.len() && in_pool(qs0, j);
        let mut ids = self.elitist_pool();
        if ids.len() == 0 {
            proof {
                if some_eligible {
                    let j = choose|j: int| 0 <= j < qs0.len() && in_pool(qs0, j);
                    assert(in_pool(qs0, (j as usize) as int));
                    assert(ids@.contains(j as usize));
                    assert(false);
                }
            }
            let mut all: Vec<usize> = Vec::new();
            let mut i: usize = 0;
            while i < n
                invariant
                    i <= n,
                    all@.len() == i,
                    forall|k: int| 0 <= k < i ==> (#[trigger] all@[k]) == k,
                decreases n - i,
            {
                all.push(i);
                i = i + 1;
            }
            ids = all;
        }
        let mut total: u64 = 0;
        let mut k: usize = 0;
        while k < ids.len()
            invariant
                self.wf(),
                qs0 == self.queens@,
                n == qs0.len(),
                1 <= ids@.len(),
                ids@.len() <= n,
                forall|j: int| 0 <= j < ids@.len() ==> (#[trigger] ids@[j]) < n,
                k <= ids@.len(),
                total == pool_total_before(qs0, ids@, k as int),
                total <= k * SCALE,
                some_eligible == exists|j: int| 0 <= j < qs0.len() && in_pool(qs0, j),
                some_eligible ==> forall|j: int|
                    0 <= j < ids@.len() ==> in_pool(qs0, (#[trigger] ids@[j]) as int),
            decreases ids@.len() - k,
        {
            let id = ids[k];
            total = total + self.queens[id].fitness;
            k = k + 1;
        }
        let mut children: Vec<Queen> = Vec::new();
        let mut slot: usize = 0;
        while slot < n
            invariant
                self.wf(),
                *self == *old(self),
                qs0 == self.queens@,
                n == qs0.len(),
                self.crossover_likelihood <= SCALE,
                1 <= ids@.len(),
                forall|j: int| 0 <= j < ids@.len() ==> (#[trigger] ids@[j]) < n,
                total == pool_total_before(qs0, ids@, ids@.len() as int),
                slot <= n,
                children@.len() == slot,
                forall|i: int| 0 <= i < slot ==> (#[trigger] children@[i]).fitness == 0,
                forall|i: int|
                    0 <= i < slot ==> positions(qs0).contains(
                        (#[trigger] children@[i]).position,
                    ),
                forall|i: int|
                    0 <= i < slot ==> (#[trigger] children@[i]).position.0 < self.board_size
                        && children@[i].position.1 < self.board_size,
                some_eligible == exists|j: int| 0 <= j < qs0.len() && in_pool(qs0, j),
                some_eligible ==> forall|j: int|
                    0 <= j < ids@.len() ==> in_pool(qs0, (#[trigger] ids@[j]) as int),
                some_eligible ==> forall|i: int|
                    0 <= i < slot ==> exists|j: int|
                        0 <= j < qs0.len() && in_pool(qs0, j) && (#[trigger] children@[i]).position
                            == qs0[j].position,
            decreases n - slot,
        {
            let i1 = self.select(&ids, total, rng);
            let i2 = self.select(&ids, total, rng);
            proof {
                let w1 = choose|w: int| 0 <= w < ids@.len() && ids@[w] == i1;
                let w2 = choose|w: int| 0 <= w < ids@.len() && ids@[w] == i2;
                assert(i1 < n && i2 < n);
            }
            let child = Queen::crossover(
                &self.queens[i1],
                &self.queens[i2],
                self.crossover_likelihood,
                rng,
            );
            proof {
                assert(positions(qs0)[i1 as int] == qs0[i1 as int].position);
                assert(positions(qs0)[i2 as int] == qs0[i2 as int].position);
                if some_eligible {
                    let w1 = choose|w: int| 0 <= w < ids@.len() && ids@[w] == i1;
                    let w2 = choose|w: int| 0 <= w < ids@.len() && ids@[w] == i2;
                    assert(in_pool(qs0, (ids@[w1]) as int));
                    assert(in_pool(qs0, (ids@[w2]) as int));
                    assert(in_pool(qs0, i1 as int) && in_pool(qs0, i2 as int));
                }
            }
            children.push(child);
            proof {
                if some_eligible {
                    assert forall|i: int| 0 <= i < slot + 1 implies exists|j: int|
                        0 <= j < qs0.len() && in_pool(qs0, j) && (#[trigger] children@[i]).position
                            == qs0[j].position by {
                        if i == slot {
                            if child.position == qs0[i1 as int].position {
                                assert(0 <= (i1 as int) && (i1 as int) < qs0.len() && in_pool(qs0, i1 as int)
                                    && children@[i].position == qs0[i1 as int].position);
                            } else {
                                assert(0 <= (i2 as int) && (i2 as int) < qs0.len() && in_pool(qs0, i2 as int)
                                    && children@[i].position == qs0[i2 as int].position);
                            }
                        }
                    }
                }
            }
            slot = slot + 1;
        }
        self.queens = children;
    }

    /// Mutates every individual independently: with probability
    /// `mutation_likelihood / SCALE` it moves by a uniform offset in
    /// each coordinate modulo the board size. Fitness caches and every
    /// configuration field are untouched; with a zero likelihood the
    /// population is untouched altogether, and so is a population that
    /// already scored a perfect 1.0.
    pub fn mutate(&mut self, rng: &mut RandomSource)
        requires
            old(self).wf(),
        ensures
            final(self).wf(),
            final(self).queens@.len() == old(self).queens@.len(),
            final(self).board_size == old(self).board_size,
            final(self).mutation_likelihood == old(self).mutation_likelihood,
            final(self).crossover_likelihood == old(self).crossover_likelihood,
            final(self).score == old(self).score,
            forall|i: int|
                0 <= i < final(self).queens@.len()
                    ==> (#[trigger] final(self).queens@[i]).fitness == old(self).queens@[i].fitness,
            old(self).score == SCALE ==> final(self).queens@ == old(self).queens@,
            old(self).mutation_likelihood == 0 ==> final(self).queens@ == old(self).queens@,
    {
        let ghost qs0 = self.queens@;
        if self.score == SCALE {
            return;
        }
        let ml = self.mutation_likelihood;
        let board = self.board_size;
        let n = self.queens.len();
        let mut i: usize = 0;
        while i < n
            invariant
                old(self).wf(),
                qs0 == old(self).queens@,
                n == qs0.len(),
                i <= n,
                ml == old(self).mutation_likelihood,
                board == old(self).board_size,
                self.board_size == old(self).board_size,
                self.mutation_likelihood == old(self).mutation_likelihood,
                self.crossover_likelihood == old(self).crossover_likelihood,
                self.score == old(self).score,
                self.queens@.len() == n,
                forall|k: int| i <= k < n ==> #[trigger] self.queens@[k] == qs0[k],
                forall|k: int|
                    0 <= k < i ==> (#[trigger] self.queens@[k]).fitness == qs0[k].fitness,
                forall|k: int|
                    0 <= k < n ==> (#[trigger] self.queens@[k]).position.0 < board
                        && self.queens@[k].position.1 < board,
                ml == 0 ==> self.queens@ == qs0,
            decreases n - i,
        {
            let mut q = self.queens[i];
            q.mutate(ml, board, rng);
            let ghost before = self.queens@;
            self.queens.set(i, q);
            proof {
                if ml == 0 {
                    assert(self.queens@ =~= before);
                }
            }
            i = i + 1;
        }
    }
}

} // verus!
