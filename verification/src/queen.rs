//! One candidate placement: a grid position together with its cached
//! fitness. The attacking rule and the fitness formula live here.

use vstd::prelude::*;
use crate::random::RandomSource;
use crate::SCALE;

verus! {

/// Absolute difference of two coordinates.
pub open spec fn delta(a: int, b: int) -> int {
    if a >= b { a - b } else { b - a }
}

/// Two positions attack each other when they share a row, share a
/// column, or lie on the same diagonal. The rule is applied only to
/// distinct individuals: self-comparison is excluded by every caller.
pub open spec fn attacks_at(a: (usize, usize), b: (usize, usize)) -> bool {
    a.0 == b.0 || a.1 == b.1 || delta(a.0 as int, b.0 as int) == delta(a.1 as int, b.1 as int)
}

/// The attacking rule is symmetric in its two positions, and a position
/// compared against itself always satisfies the raw rule (it shares its
/// own row), which is why attack counting must skip the individual
/// itself rather than rely on the rule to do so.
pub proof fn lemma_attacks_symmetric(a: (usize, usize), b: (usize, usize))
    ensures
        attacks_at(a, b) == attacks_at(b, a),
        attacks_at(a, a),
{
}

/// Fitness, in millionths, of an individual with `c` attackers:
/// `1 / (c + 1)` scaled by `SCALE` and rounded down.
pub open spec fn fitness_of(c: int) -> int
    recommends
        c >= 0,
{
    (SCALE as int) / (c + 1)
}

/// Fitness is in `(0, SCALE]` (that is, `(0, 1]` of the real scale) for
/// any attacker count a population of at most `SCALE` individuals can
/// produce, and it is exactly `SCALE` (that is, `1.0`) precisely when
/// the individual has no attacker at all.
pub proof fn lemma_fitness_bounds(c: int)
    requires
        0 <= c < SCALE,
    ensures
        1 <= fitness_of(c) <= SCALE,
        fitness_of(c) == SCALE <==> c == 0,
{
    assert(1 <= SCALE as int / (c + 1) <= SCALE) by (nonlinear_arith)
        requires 0 <= c < SCALE;
    assert(c > 0 ==> SCALE as int / (c + 1) < SCALE) by (nonlinear_arith)
        requires 0 <= c < SCALE;
    assert(SCALE as int / 1 == SCALE) by (nonlinear_arith);
}

/// How many positions of `s` attack the position `p`. Callers pass a
/// sequence that does not include the individual at `p` itself.
pub open spec fn count_attacks(s: Seq<(usize, usize)>, p: (usize, usize)) -> int
    decreases s.len(),
{
    if s.len() == 0 {
        0
    } else {
        count_attacks(s.drop_last(), p) + if attacks_at(s.last(), p) { 1int } else { 0int }
    }
}

pub proof fn lemma_count_attacks_bounds(s: Seq<(usize, usize)>, p: (usize, usize))
    ensures
        0 <= count_attacks(s, p) <= s.len(),
    decreases s.len(),
{
    if s.len() > 0 {
        lemma_count_attacks_bounds(s.drop_last(), p);
    }
}

/// The count is zero exactly when no position of the sequence attacks
/// `p`.
pub proof fn lemma_count_attacks_zero(s: Seq<(usize, usize)>, p: (usize, usize))
    ensures
        count_attacks(s, p) == 0 <==> (forall|k: int| 0 <= k < s.len() ==> !attacks_at(s[k], p)),
    decreases s.len(),
{
    if s.len() > 0 {
        lemma_count_attacks_zero(s.drop_last(), p);
        lemma_count_attacks_bounds(s.drop_last(), p);
        assert(s.last() == s[s.len() - 1]);
        assert(forall|k: int| 0 <= k < s.len() - 1 ==> s.drop_last()[k] == s[k]);
    }
}

/// One candidate placement. The fitness is derived data: it is 0 at
/// creation and after crossover, and holds `SCALE / (attackers + 1)`
/// after an evaluation pass.
#[derive(Clone, Copy)]
pub struct Queen {
    pub position: (usize, usize),
    pub fitness: u64,
}

/// The positions of a sequence of individuals, in the same order.
pub open spec fn positions(qs: Seq<Queen>) -> Seq<(usize, usize)> {
    qs.map_values(|q: Queen| q.position)
}

impl Queen {
    /// A fresh individual at the given position, with fitness not yet
    /// computed. Bounds on the position are the caller's responsibility.
    pub fn new(position: (usize, usize)) -> (q: Queen)
        ensures
            q.position == position,
            q.fitness == 0,
    {
        Queen { position, fitness: 0 }
    }

    pub fn position(&self) -> (p: (usize, usize))
        ensures
            p == self.position,
    {
        self.position
    }

    pub fn fitness(&self) -> (f: u64)
        ensures
            f == self.fitness,
    {
        self.fitness
    }

    /// Whether this individual and another attack each other.
    pub fn attacks(&self, other: &Queen) -> (r: bool)
        ensures
            r == attacks_at(self.position, other.position),
    {
        let (x1, y1) = self.position;
        let (x2, y2) = other.position;
        let dx = if x1 >= x2 { x1 - x2 } else { x2 - x1 };
        let dy = if y1 >= y2 { y1 - y2 } else { y2 - y1 };
        x1 == x2 || y1 == y2 || dx == dy
    }

    /// Recomputes the cached fitness against the rest of the population.
    /// `others` holds every individual of the population but this one;
    /// the exclusion is the caller's responsibility.
    pub fn evaluate(&mut self, others: &Vec<Queen>)
        requires
            others@.len() < SCALE,
        ensures
            final(self).position == old(self).position,
            final(self).fitness == fitness_of(count_attacks(positions(others@), old(self).position)),
    {
        let ghost ps = positions(others@);
        let mut c: usize = 0;
        for j in 0..others.len()
            invariant
                c == count_attacks(ps.take(j as int), self.position),
                c <= j,
                ps == positions(others@),
                ps.len() == others@.len() < SCALE,
                self.position == old(self).position,
                self.fitness == old(self).fitness,
        {
            proof {
                assert(ps.take(j + 1).drop_last() =~= ps.take(j as int));
                assert(ps.take(j + 1).last() == ps[j as int]);
                lemma_count_attacks_bounds(ps.take(j as int), self.position);
            }
            if self.attacks(&others[j]) {
                c = c + 1;
            }
        }
        proof {
            assert(ps.take(others@.len() as int) =~= ps);
            lemma_count_attacks_bounds(ps, self.position);
            lemma_fitness_bounds(count_attacks(ps, self.position));
        }
        self.fitness = SCALE / (c as u64 + 1);
    }

    /// Breeds one offspring from two parents. With probability
    /// `crossover_likelihood / SCALE` the offspring's position is taken
    /// from one of the two parents, chosen by an unbiased second coin;
    /// otherwise it is a verbatim copy of the first parent's position.
    /// Either way the offspring's fitness is left at 0 until the next
    /// evaluation pass.
    pub fn crossover(
        parent1: &Queen,
        parent2: &Queen,
        crossover_likelihood: u64,
        rng: &mut RandomSource,
    ) -> (child: Queen)
        requires
            crossover_likelihood <= SCALE,
        ensures
            child.fitness == 0,
            child.position == parent1.position || child.position == parent2.position,
            crossover_likelihood == 0 ==> child.position == parent1.position,
    {
        if !rng.coin(crossover_likelihood) {
            return Queen::new(parent1.position);
        }
        if rng.coin(crate::HALF) {
            Queen::new(parent1.position)
        } else {
            Queen::new(parent2.position)
        }
    }

    /// With probability `mutation_likelihood / SCALE`, moves this
    /// individual by a uniform offset in each coordinate, modulo the
    /// board size; the offset being uniform over the full modulus, the
    /// new position is uniform over the board. The cached fitness is
    /// left as it is.
    pub fn mutate(
        &mut self,
        mutation_likelihood: u64,
        board_size: usize,
        rng: &mut RandomSource,
    )
        requires
            mutation_likelihood <= SCALE,
            1 <= board_size <= usize::MAX / 2,
            old(self).position.0 < board_size,
            old(self).position.1 < board_size,
        ensures
            final(self).fitness == old(self).fitness,
            final(self).position.0 < board_size,
            final(self).position.1 < board_size,
            mutation_likelihood == 0 ==> *final(self) == *old(self),
    {
        if !rng.coin(mutation_likelihood) {
            return;
        }
        let r1 = rng.draw_usize(board_size);
        let r2 = rng.draw_usize(board_size);
        let x = (self.position.0 + r1) % board_size;
        let y = (self.position.1 + r2) % board_size;
        self.position = (x, y);
    }
}

} // verus!
