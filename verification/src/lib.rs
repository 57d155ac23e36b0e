//! A generational evolutionary search for non-attacking placements of
//! pieces on a square grid.
//!
//! The engine keeps a fixed-size population of candidate placements,
//! scores each candidate by how many others attack it, breeds a new
//! generation by fitness-proportionate selection and crossover, and
//! perturbs it by mutation, until every candidate is free of attackers.
//!
//! Fitness values are exact rationals with denominator `SCALE`
//! (millionths), stored as integers, so every formula in the contracts
//! is exact integer arithmetic.

use vstd::prelude::*;

pub mod evolution;
pub mod queen;
pub mod queens;
pub mod random;

verus! {

/// Fixed denominator of all fitness-like quantities: a fitness of `f`
/// millionths stands for the real number `f / SCALE`, so `SCALE` itself
/// stands for 1.0.
pub const SCALE: u64 = 1_000_000;

/// Probability, in millionths, of an unbiased coin: the second draw of
/// a crossover picks between the two parents with this probability.
pub const HALF: u64 = 500_000;

/// Largest population this engine accepts. It keeps every attacker
/// count below `SCALE`, so each fitness is at least one millionth, and
/// it keeps every fitness sum comfortably inside a `u64`.
pub const MAX_INDIVIDUALS: usize = 1_000_000;

} // verus!
