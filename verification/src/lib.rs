//! Island-based evolutionary multi-agent system: a population-based numerical
//! optimizer in which candidate solutions ("agents") carry a finite energy
//! budget that moves between agents through reproduction and combat, never
//! created out of nothing. Agents live on islands that evolve independently
//! and periodically exchange elites through migration.

pub mod agent;
pub mod builder;
pub mod chances;
pub mod domain;
pub mod fitness;
pub mod island;
pub mod rng;
pub mod system;

pub use agent::{Action, Agent, AgentId};
pub use chances::{
    CombatWinChanceFn, DefaultCombatWinChanceFn, DefaultReproductionChanceFn,
    ReproductionChanceFn, CHANCE_SCALE,
};
pub use domain::GeneBound;
pub use fitness::{FitnessFn, SphereFitness};
pub use builder::{BuildError, SystemBuilder};
pub use island::Island;
pub use rng::{RandomSource, ReplayRandomSource, StdRandomSource};
pub use system::{LogRecord, RunClock, System};
