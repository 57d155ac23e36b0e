//! The generational loop: repeated evaluate → crossover → mutate
//! cycles, a history of per-generation scores, the statistics derived
//! from it, and the sticky convergence decision.

use vstd::prelude::*;
use crate::queen::positions;
use crate::queens::evaluated;
use crate::queens::score_of;
use crate::queens::Queens;
use crate::random::RandomSource;
use crate::SCALE;

verus! {

/// Sum of the history entries with index in `[a, b)`.
pub open spec fn sum_range(s: Seq<u64>, a: int, b: int) -> int
    decreases b - a,
{
    if b <= a {
        0
    } else {
        sum_range(s, a, b - 1) + s[b - 1]
    }
}

/// Largest of the first `j` history entries.
pub open spec fn max_before(s: Seq<u64>, j: int) -> int
    recommends
        1 <= j <= s.len(),
    decreases j,
{
    if j <= 1 {
        s[0] as int
    } else if s[j - 1] > max_before(s, j - 1) {
        s[j - 1] as int
    } else {
        max_before(s, j - 1)
    }
}

/// Smallest of the first `j` history entries.
pub open spec fn min_before(s: Seq<u64>, j: int) -> int
    recommends
        1 <= j <= s.len(),
    decreases j,
{
    if j <= 1 {
        s[0] as int
    } else if s[j - 1] < min_before(s, j - 1) {
        s[j - 1] as int
    } else {
        min_before(s, j - 1)
    }
}

/// Best score the run has seen.
pub open spec fn best_of(s: Seq<u64>) -> int
    recommends
        s.len() >= 1,
{
    max_before(s, s.len() as int)
}

/// Worst score the run has seen.
pub open spec fn worst_of(s: Seq<u64>) -> int
    recommends
        s.len() >= 1,
{
    min_before(s, s.len() as int)
}

/// Running average of all scores, rounded down.
pub open spec fn average_of(s: Seq<u64>) -> int
    recommends
        s.len() >= 1,
{
    sum_range(s, 0, s.len() as int) / (s.len() as int)
}

/// How many entries the moving-average window covers: the last 5, or
/// all of them while fewer exist.
pub open spec fn window_of(s: Seq<u64>) -> int {
    if s.len() >= 5 { 5 } else { s.len() as int }
}

/// Moving average of the last up-to-5 scores, rounded down.
pub open spec fn moving_average_of(s: Seq<u64>) -> int
    recommends
        s.len() >= 1,
{
    sum_range(s, s.len() - window_of(s), s.len() as int) / window_of(s)
}

/// What one tick reports: the values the rendering and reporting layer
/// reads, all scores in millionths.
pub struct TickReport {
    pub iteration: usize,
    pub score: u64,
    pub best: u64,
    pub worst: u64,
    pub average: u64,
    pub moving_average_5: u64,
}

/// The run state: the population, the count of generations bred so
/// far, the per-generation score history, and whether the run has
/// converged. Convergence is sticky: once reached, ticks only
/// re-report.
pub struct EvolutionLoop {
    pub population: Queens,
    pub iteration: usize,
    pub history: Vec<u64>,
    pub converged: bool,
}

impl EvolutionLoop {
    /// Well-formedness: the population is well formed, every recorded
    /// score is a valid fitness, the history holds one entry per
    /// active tick (one per generation bred, plus the converging one),
    /// and a converged run's last score is the perfect one.
    pub open spec fn wf(self) -> bool {
        &&& self.population.wf()
        &&& forall|i: int| 0 <= i < self.history@.len() ==> (#[trigger] self.history@[i]) <= SCALE
        &&& self.history@.len() == self.iteration + if self.converged { 1int } else { 0int }
        &&& self.converged ==> self.history@.len() >= 1 && self.history@.last() == SCALE
    }

    /// A fresh run around an existing population: nothing evaluated
    /// yet, no history, not converged.
    pub fn new(population: Queens) -> (l: EvolutionLoop)
        requires
            population.wf(),
        ensures
            l.wf(),
            l.population == population,
            l.iteration == 0,
            l.history@.len() == 0,
            !l.converged,
    {
        EvolutionLoop { population, iteration: 0, history: Vec::new(), converged: false }
    }

    /// The statistics of the history so far, together with the current
    /// iteration count and the latest score.
    pub fn report(&self) -> (r: TickReport)
        requires
            self.history@.len() >= 1,
            forall|i: int| 0 <= i < self.history@.len() ==> (#[trigger] self.history@[i]) <= SCALE,
        ensures
            r.iteration == self.iteration,
            r.score == self.history@.last(),
            r.best == best_of(self.history@),
            r.worst == worst_of(self.history@),
            r.average == average_of(self.history@),
            r.moving_average_5 == moving_average_of(self.history@),
    {
        let ghost h = self.history@;
        let len = self.history.len();
        let mut best = self.history[0];
        let mut worst = self.history[0];
        let mut sum: u128 = self.history[0] as u128;
        let mut j: usize = 1;
        proof {
            assert(sum_range(h, 0, 0) == 0);
            assert(sum_range(h, 0, 1) == h[0]);
        }
        while j < len
            invariant
                h == self.history@,
                len == h.len(),
                1 <= j <= len,
                forall|i: int| 0 <= i < h.len() ==> (#[trigger] h[i]) <= SCALE,
                best == max_before(h, j as int),
                worst == min_before(h, j as int),
                sum == sum_range(h, 0, j as int),
                sum <= j * SCALE,
            decreases len - j,
        {
            let v = self.history[j];
            if v > best {
                best = v;
            }
            if v < worst {
                worst = v;
            }
            sum = sum + v as u128;
            j = j + 1;
        }
        proof {
            assert(sum as int / len as int <= SCALE) by (nonlinear_arith)
                requires len >= 1, 0 <= sum <= len * SCALE;
        }
        let average = (sum / (len as u128)) as u64;
        let w = if len >= 5 { 5 } else { len };
        let start = len - w;
        let mut wsum: u128 = 0;
        let mut k: usize = start;
        while k < len
            invariant
                h == self.history@,
                len == h.len(),
                start <= k <= len,
                start == len - w,
                1 <= w <= len,
                forall|i: int| 0 <= i < h.len() ==> (#[trigger] h[i]) <= SCALE,
                wsum == sum_range(h, start as int, k as int),
                wsum <= (k - start) * SCALE,
            decreases len - k,
        {
            wsum = wsum + self.history[k] as u128;
            k = k + 1;
        }
        proof {
            assert(wsum as int / w as int <= SCALE) by (nonlinear_arith)
                requires w >= 1, 0 <= wsum <= w * SCALE;
            assert(w == window_of(h));
        }
        let moving = (wsum / (w as u128)) as u64;
        TickReport {
            iteration: self.iteration,
            score: self.history[len - 1],
            best,
            worst,
            average,
            moving_average_5: moving,
        }
    }

    /// One tick of the loop. A converged run is left exactly as it is
    /// and only re-reports. Otherwise the population is evaluated and
    /// the score recorded; a perfect score converges the run with no
    /// crossover or mutation performed, and any other score breeds the
    /// next generation (crossover, then mutation) and counts one more
    /// iteration.
    pub fn tick(&mut self, rng: &mut RandomSource) -> (r: TickReport)
        requires
            old(self).wf(),
        ensures
            final(self).wf(),
            old(self).converged ==> *final(self) == *old(self),
            !old(self).converged ==> final(self).history@ == old(self).history@.push(
                score_of(positions(old(self).population.queens@)) as u64,
            ),
            !old(self).converged ==> (final(self).converged <==> score_of(
                positions(old(self).population.queens@),
            ) == SCALE),
            !old(self).converged && score_of(positions(old(self).population.queens@)) == SCALE
                ==> final(self).population.queens@ == evaluated(old(self).population.queens@)
                && final(self).iteration == old(self).iteration,
            !old(self).converged && score_of(positions(old(self).population.queens@)) != SCALE
                ==> final(self).iteration == old(self).iteration + 1,
            final(self).population.queens@.len() == old(self).population.queens@.len(),
            final(self).population.board_size == old(self).population.board_size,
            final(self).population.mutation_likelihood == old(
                self,
            ).population.mutation_likelihood,
            final(self).population.crossover_likelihood == old(
                self,
            ).population.crossover_likelihood,
            final(self).history@.len() >= 1,
            r.iteration == final(self).iteration,
            r.score == final(self).history@.last(),
            r.best == best_of(final(self).history@),
            r.worst == worst_of(final(self).history@),
            r.average == average_of(final(self).history@),
            r.moving_average_5 == moving_average_of(final(self).history@),
    {
        if self.converged {
            return self.report();
        }
        let score = self.population.evaluate();
        self.history.push(score);
        if score == SCALE {
            self.converged = true;
        } else {
            self.population.crossover(rng);
            self.population.mutate(rng);
            let entries = self.history.len();
            proof {
                assert(entries == old(self).iteration + 1);
            }
            self.iteration = self.iteration + 1;
        }
        self.report()
    }
}

} // verus!
