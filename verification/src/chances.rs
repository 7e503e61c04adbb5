//! Decision policies. Probabilities are fixed-point chances on the scale
//! `[0, CHANCE_SCALE]`: a draw below the chance passes. The two policies the
//! step logic consults — who wins a combat, who attempts reproduction — are
//! traits, so callers can plug their own; defaults are provided.

use vstd::prelude::*;

verus! {

/// A chance of `CHANCE_SCALE` is certainty, a chance of 0 impossibility.
pub const CHANCE_SCALE: u32 = 1_000_000;

/// The chance that the first of two fighters wins, from their fitness values
/// (lower fitness is better).
pub trait CombatWinChanceFn {
    /// Mathematical statement of the policy.
    spec fn spec_chance(this_fitness: i64, other_fitness: i64) -> u32;

    /// The chance, in `[0, CHANCE_SCALE]`, that the first fighter wins.
    fn call(this_fitness: i64, other_fitness: i64) -> (c: u32)
        ensures
            c == Self::spec_chance(this_fitness, other_fitness),
            c <= CHANCE_SCALE,
    ;
}

/// Default combat policy: the fitter fighter wins with chance 0.8.
pub struct DefaultCombatWinChanceFn;

impl CombatWinChanceFn for DefaultCombatWinChanceFn {
    open spec fn spec_chance(this_fitness: i64, other_fitness: i64) -> u32 {
        if this_fitness < other_fitness {
            800_000
        } else {
            200_000
        }
    }

    fn call(this_fitness: i64, other_fitness: i64) -> (c: u32) {
        if this_fitness < other_fitness {
            800_000
        } else {
            200_000
        }
    }
}

/// The chance that an agent with the given energy attempts reproduction this
/// step rather than combat.
pub trait ReproductionChanceFn {
    /// Mathematical statement of the policy.
    spec fn spec_chance(energy: u32) -> u32;

    /// The chance, in `[0, CHANCE_SCALE]`, of attempting reproduction.
    fn call(energy: u32) -> (c: u32)
        ensures
            c == Self::spec_chance(energy),
            c <= CHANCE_SCALE,
    ;
}

/// Default reproduction policy: starved agents always fight, rich agents
/// always reproduce, agents in between reproduce with chance 0.25.
pub struct DefaultReproductionChanceFn;

impl ReproductionChanceFn for DefaultReproductionChanceFn {
    open spec fn spec_chance(energy: u32) -> u32 {
        if energy < 25 {
            0
        } else if energy < 50 {
            250_000
        } else {
            CHANCE_SCALE
        }
    }

    fn call(energy: u32) -> (c: u32) {
        if energy < 25 {
            0
        } else if energy < 50 {
            250_000
        } else {
            CHANCE_SCALE
        }
    }
}

} // verus!
