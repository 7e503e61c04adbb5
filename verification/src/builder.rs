//! Building a system: defaults for every parameter, validation of the
//! fitness strategy's domain and of the run parameters, and construction of
//! the initial islands. Validation failures are build-time errors; no
//! island is created unless every check passes.

use vstd::prelude::*;
use core::marker::PhantomData;
use crate::agent::ENERGY_SHARE_SCALE;
use crate::chances::{CombatWinChanceFn, ReproductionChanceFn};
use crate::domain::{GeneBound, GENE_LIMIT};
use crate::fitness::FitnessFn;
use crate::island::Island;
use crate::rng::RandomSource;
use crate::system::{
    islands_disjoint, counters_dominate, sys_energy, System,
};

verus! {

/// Why a system could not be built.
#[derive(Clone, Copy, PartialEq, Eq, Structural, Debug)]
pub enum BuildError {
    /// Some dimension's lower bound exceeds its upper bound.
    InvalidDomain,
    /// The domain is empty or a bound lies beyond `GENE_LIMIT`.
    OversizedDomain,
    /// The reproduction energy share is zero or above the full share.
    InvalidEnergyShare,
    /// No islands requested.
    InvalidIslandAmount,
    /// No agents per island requested.
    InvalidPopulation,
    /// Agents would start with no energy.
    InvalidEnergy,
    /// A zero migration or log period cannot define a cadence.
    InvalidPeriod,
    /// The initial energy total would not fit the energy accounting.
    EnergyOverflow,
}

/// Some dimension is an empty interval.
pub open spec fn domain_inverted(dom: Seq<GeneBound>) -> bool {
    exists|i: int| 0 <= i < dom.len() && (#[trigger] dom[i]).min > dom[i].max
}

/// The domain is unusable for reasons other than inversion: no dimensions,
/// or a bound beyond what the gene arithmetic supports.
pub open spec fn domain_oversized(dom: Seq<GeneBound>) -> bool {
    dom.len() == 0 || exists|i: int|
        0 <= i < dom.len() && ((#[trigger] dom[i]).min < -GENE_LIMIT || dom[i].max > GENE_LIMIT)
}

/// The first validation failure for a domain, if any: inversion is reported
/// before any other defect.
pub open spec fn spec_domain_validation(dom: Seq<GeneBound>) -> Option<BuildError> {
    if domain_inverted(dom) {
        Some(BuildError::InvalidDomain)
    } else if domain_oversized(dom) {
        Some(BuildError::OversizedDomain)
    } else {
        None
    }
}

/// Check a domain: an inverted dimension is reported first, then an empty
/// or oversized domain. A domain that passes is well formed.
pub fn validate_domain(dom: &Vec<GeneBound>) -> (r: Option<BuildError>)
    ensures
        r == spec_domain_validation(dom@),
        r is None ==> crate::domain::domain_wf(dom@),
{
    let mut i: usize = 0;
    while i < dom.len()
        invariant
            i <= dom@.len(),
            forall|t: int| 0 <= t < i ==> (#[trigger] dom@[t]).min <= dom@[t].max,
        decreases dom@.len() - i,
    {
        if dom[i].min > dom[i].max {
            return Some(BuildError::InvalidDomain);
        }
        i = i + 1;
    }
    if dom.len() == 0 {
        return Some(BuildError::OversizedDomain);
    }
    let mut i: usize = 0;
    while i < dom.len()
        invariant
            i <= dom@.len(),
            dom@.len() > 0,
            forall|t: int| 0 <= t < dom@.len() ==> (#[trigger] dom@[t]).min <= dom@[t].max,
            forall|t: int|
                0 <= t < i ==> -GENE_LIMIT <= (#[trigger] dom@[t]).min && dom@[t].max
                    <= GENE_LIMIT,
        decreases dom@.len() - i,
    {
        if dom[i].min < -GENE_LIMIT || dom[i].max > GENE_LIMIT {
            return Some(BuildError::OversizedDomain);
        }
        i = i + 1;
    }
    None
}

/// Assembles a `System` from a configuration with documented defaults.
pub struct SystemBuilder<F: FitnessFn, C: CombatWinChanceFn, R: ReproductionChanceFn> {
    pub island_amount: usize,
    pub steps: u32,
    pub agents_per_island: usize,
    pub agent_energy: u32,
    pub energy_passed_on_reproduction: u32,
    pub energy_combat: u32,
    pub migration_steps: u32,
    pub migrations_best_amount: usize,
    pub migrations_elite_amount: usize,
    pub log_steps: u32,
    pub strategies: PhantomData<(F, C, R)>,
}

impl<F: FitnessFn, C: CombatWinChanceFn, R: ReproductionChanceFn> SystemBuilder<F, C, R> {
    /// The first validation failure for this configuration, if any, in the
    /// order the checks run.
    pub open spec fn spec_validation(self) -> Option<BuildError> {
        if spec_domain_validation(F::spec_domain()) is Some {
            spec_domain_validation(F::spec_domain())
        } else if self.energy_passed_on_reproduction == 0
            || self.energy_passed_on_reproduction > ENERGY_SHARE_SCALE {
            Some(BuildError::InvalidEnergyShare)
        } else if self.island_amount == 0 {
            Some(BuildError::InvalidIslandAmount)
        } else if self.agents_per_island == 0 {
            Some(BuildError::InvalidPopulation)
        } else if self.agent_energy == 0 {
            Some(BuildError::InvalidEnergy)
        } else if self.migration_steps == 0 || self.log_steps == 0 {
            Some(BuildError::InvalidPeriod)
        } else if self.island_amount * self.agents_per_island * self.agent_energy > u32::MAX {
            Some(BuildError::EnergyOverflow)
        } else {
            None
        }
    }

    /// A configuration with the documented defaults.
    pub fn new() -> (b: SystemBuilder<F, C, R>)
        ensures
            b.island_amount == 5,
            b.steps == 10_000,
            b.agents_per_island == 100,
            b.agent_energy == 10,
            b.energy_passed_on_reproduction == 250_000,
            b.energy_combat == 2,
            b.migration_steps == 50,
            b.migrations_best_amount == 10,
            b.migrations_elite_amount == 5,
            b.log_steps == 100,
    {
        SystemBuilder {
            island_amount: 5,
            steps: 10_000,
            agents_per_island: 100,
            agent_energy: 10,
            energy_passed_on_reproduction: 250_000,
            energy_combat: 2,
            migration_steps: 50,
            migrations_best_amount: 10,
            migrations_elite_amount: 5,
            log_steps: 100,
            strategies: PhantomData,
        }
    }

    /// How many islands to create.
    pub fn island_amount(self, amount: usize) -> (b: Self)
        ensures
            b == (Self { island_amount: amount, ..self }),
    {
        Self { island_amount: amount, ..self }
    }

    /// How many ticks the run loop performs.
    pub fn steps(self, amount: u32) -> (b: Self)
        ensures
            b == (Self { steps: amount, ..self }),
    {
        Self { steps: amount, ..self }
    }

    /// How many agents each island starts with.
    pub fn agents_per_island(self, amount: usize) -> (b: Self)
        ensures
            b == (Self { agents_per_island: amount, ..self }),
    {
        Self { agents_per_island: amount, ..self }
    }

    /// The energy each initial agent starts with.
    pub fn agent_energy(self, amount: u32) -> (b: Self)
        ensures
            b == (Self { agent_energy: amount, ..self }),
    {
        Self { agent_energy: amount, ..self }
    }

    /// The share of a parent's energy passed on at reproduction, on the
    /// `ENERGY_SHARE_SCALE`; build rejects shares outside `(0, 1]`.
    pub fn energy_passed_on_reproduction(self, share: u32) -> (b: Self)
        ensures
            b == (Self { energy_passed_on_reproduction: share, ..self }),
    {
        Self { energy_passed_on_reproduction: share, ..self }
    }

    /// The energy at stake in one combat.
    pub fn combat_energy(self, amount: u32) -> (b: Self)
        ensures
            b == (Self { energy_combat: amount, ..self }),
    {
        Self { energy_combat: amount, ..self }
    }

    /// How many ticks pass between migration rounds.
    pub fn migration_steps(self, amount: u32) -> (b: Self)
        ensures
            b == (Self { migration_steps: amount, ..self }),
    {
        Self { migration_steps: amount, ..self }
    }

    /// How many ticks pass between log records.
    pub fn log_steps(self, amount: u32) -> (b: Self)
        ensures
            b == (Self { log_steps: amount, ..self }),
    {
        Self { log_steps: amount, ..self }
    }

    /// The size of the migration candidate pool.
    pub fn migrations_best_amount(self, amount: usize) -> (b: Self)
        ensures
            b == (Self { migrations_best_amount: amount, ..self }),
    {
        Self { migrations_best_amount: amount, ..self }
    }

    /// How many candidates each migration round actually moves.
    pub fn migrations_elite_amount(self, amount: usize) -> (b: Self)
        ensures
            b == (Self { migrations_elite_amount: amount, ..self }),
    {
        Self { migrations_elite_amount: amount, ..self }
    }

    /// Validate the configuration and build the system: the domain first
    /// (an inverted dimension fails the build before any island exists),
    /// then the parameters, then the initial islands, each with a fresh
    /// random population. Fails exactly when some check fails, with the
    /// first failure.
    pub fn build<RS: RandomSource>(self, rng: &mut RS) -> (r: Result<
        System<F, C, R>,
        BuildError,
    >)
        ensures
            r is Err <==> self.spec_validation() is Some,
            r is Err ==> r->Err_0 == self.spec_validation()->0,
            r is Ok ==> ({
                let sys = r->Ok_0;
                &&& sys.wf()
                &&& sys.islands@.len() == self.island_amount
                &&& sys.steps == self.steps
                &&& sys.energy_reproduction_share == self.energy_passed_on_reproduction
                &&& sys.energy_combat == self.energy_combat
                &&& sys.migration_steps == self.migration_steps
                &&& sys.migrations_best_amount == self.migrations_best_amount
                &&& sys.migrations_elite_amount == self.migrations_elite_amount
                &&& sys.log_steps == self.log_steps
                &&& sys.logs@.len() == 0
                &&& (forall|j: int|
                    0 <= j < sys.islands@.len() ==> (#[trigger] sys.islands@[j]).agents@.len()
                        == self.agents_per_island)
                &&& (forall|j: int, k: int|
                    0 <= j < sys.islands@.len() && 0 <= k < sys.islands@[j].agents@.len() ==> (
                    #[trigger] sys.islands@[j].agents@[k]).energy == self.agent_energy)
                &&& sys_energy(sys.islands@) == self.island_amount * self.agents_per_island
                    * self.agent_energy
            }),
    {
        let dom: Vec<GeneBound> = F::domain();
        match validate_domain(&dom) {
            Some(e) => {
                return Err(e);
            },
            None => {},
        }
        if self.energy_passed_on_reproduction == 0 || self.energy_passed_on_reproduction
            > ENERGY_SHARE_SCALE {
            return Err(BuildError::InvalidEnergyShare);
        }
        if self.island_amount == 0 {
            return Err(BuildError::InvalidIslandAmount);
        }
        if self.agents_per_island == 0 {
            return Err(BuildError::InvalidPopulation);
        }
        if self.agent_energy == 0 {
            return Err(BuildError::InvalidEnergy);
        }
        if self.migration_steps == 0 || self.log_steps == 0 {
            return Err(BuildError::InvalidPeriod);
        }
        let cap: u128 = u32::MAX as u128;
        let ia128: u128 = self.island_amount as u128;
        let api128: u128 = self.agents_per_island as u128;
        let ae128: u128 = self.agent_energy as u128;
        let cap_ok: bool;
        if ia128 <= cap && api128 <= cap {
            proof {
                assert(ia128 * api128 <= cap * cap) by (nonlinear_arith)
                    requires
                        0 <= ia128 <= cap,
                        0 <= api128 <= cap,
                ;
                assert(ia128 * api128 * ae128 <= (cap * cap) * cap) by (nonlinear_arith)
                    requires
                        0 <= ia128 * api128 <= cap * cap,
                        0 <= ae128 <= cap,
                ;
                assert(cap * cap <= 0xFFFF_FFFE_0000_0001u128);
                assert((cap * cap) * cap <= 0xFFFF_FFFD_0000_0002_FFFF_FFFFu128)
                    by (nonlinear_arith)
                    requires
                        cap == 0xFFFF_FFFFu128,
                ;
            }
            let p1: u128 = ia128 * api128;
            let p2: u128 = p1 * ae128;
            cap_ok = p2 <= cap;
        } else {
            cap_ok = false;
        }
        proof {
            assert(cap_ok <==> self.island_amount * self.agents_per_island * self.agent_energy
                <= u32::MAX) by (nonlinear_arith)
                requires
                    cap == u32::MAX,
                    ia128 == self.island_amount,
                    api128 == self.agents_per_island,
                    ae128 == self.agent_energy,
                    cap_ok == (ia128 <= cap && api128 <= cap && ia128 * api128 * ae128 <= cap),
                    self.island_amount >= 1,
                    self.agents_per_island >= 1,
                    self.agent_energy >= 1,
            ;
        }
        if !cap_ok {
            return Err(BuildError::EnergyOverflow);
        }
        let n: usize = self.island_amount;
        let per: usize = self.agents_per_island;
        let energy: u32 = self.agent_energy;
        let mut islands: Vec<Island> = Vec::new();
        let mut j: usize = 0;
        while j < n
            invariant
                j <= n,
                n >= 1,
                per >= 1,
                energy >= 1,
                n * per * energy <= u32::MAX,
                crate::domain::domain_wf(F::spec_domain()),
                islands@.len() == j,
                forall|t: int| 0 <= t < j ==> (#[trigger] islands@[t]).wf::<F>(),
                forall|t: int| 0 <= t < j ==> (#[trigger] islands@[t]).id == t,
                forall|t: int|
                    0 <= t < j ==> (#[trigger] islands@[t]).agents@.len() == per,
                forall|t: int|
                    0 <= t < j ==> (#[trigger] islands@[t]).migration_queue@.len() == 0,
                forall|t: int, k: int|
                    0 <= t < j && 0 <= k < islands@[t].agents@.len() ==> (
                    #[trigger] islands@[t].agents@[k]).energy == energy,
                forall|t: int, k: int|
                    0 <= t < j && 0 <= k < islands@[t].agents@.len() ==> (
                    #[trigger] islands@[t].agents@[k]).id == (crate::agent::AgentId {
                        island: t as usize,
                        seq: k as u64,
                    }),
                forall|t: int|
                    0 <= t < j ==> (#[trigger] islands@[t]).last_agent_id == per - 1,
                sys_energy(islands@) == j * (per * energy),
            decreases n - j,
        {
            let isl: Island = Island::new::<F, RS>(per, energy, j, rng);
            proof {
                lemma_sys_energy_push_island(islands@, isl);
            }
            islands.push(isl);
            proof {
                assert((j + 1) * (per * energy) == j * (per * energy) + per * energy)
                    by (nonlinear_arith);
                assert(isl.energy_total() == per * energy);
            }
            j = j + 1;
        }
        let sys = System {
            islands,
            steps: self.steps,
            energy_reproduction_share: self.energy_passed_on_reproduction,
            energy_combat: self.energy_combat,
            migration_steps: self.migration_steps,
            migrations_best_amount: self.migrations_best_amount,
            migrations_elite_amount: self.migrations_elite_amount,
            logs: Vec::new(),
            log_steps: self.log_steps,
            strategies: PhantomData,
        };
        proof {
            assert(n * (per * energy) == n * per * energy) by (nonlinear_arith);
            assert(islands_disjoint(sys.islands@)) by {
                assert forall|j1: int, j2: int|
                    0 <= j1 < sys.islands@.len() && 0 <= j2 < sys.islands@.len() && j1 != j2
                    implies crate::island::disjoint_ids(
                    (#[trigger] sys.islands@[j1]).agents@,
                    (#[trigger] sys.islands@[j2]).agents@,
                ) && crate::island::disjoint_ids(
                    sys.islands@[j1].agents@,
                    sys.islands@[j2].migration_queue@,
                ) && crate::island::disjoint_ids(
                    sys.islands@[j1].migration_queue@,
                    sys.islands@[j2].agents@,
                ) && crate::island::disjoint_ids(
                    sys.islands@[j1].migration_queue@,
                    sys.islands@[j2].migration_queue@,
                ) by {
                    assert forall|i1: int, i2: int|
                        0 <= i1 < sys.islands@[j1].agents@.len() && 0 <= i2
                            < sys.islands@[j2].agents@.len() implies (
                    #[trigger] sys.islands@[j1].agents@[i1]).id != (
                    #[trigger] sys.islands@[j2].agents@[i2]).id by {
                        assert(sys.islands@[j1].agents@[i1].id.island == j1);
                        assert(sys.islands@[j2].agents@[i2].id.island == j2);
                    }
                }
            }
            assert(counters_dominate(sys.islands@)) by {
                assert forall|t: int, k: int|
                    0 <= t < sys.islands@.len() && 0 <= k < (#[trigger] sys.islands@[t]).agents@
                        .len() implies (#[trigger] sys.islands@[t].agents@[k]).id.island
                    < sys.islands@.len() && sys.islands@[t].agents@[k].id.seq
                    <= sys.islands@[sys.islands@[t].agents@[k].id.island as int]
                    .last_agent_id by {
                    assert(sys.islands@[t].agents@[k].id.island == t);
                    assert(sys.islands@[t].agents@[k].id.seq == k as u64);
                }
            }
            assert forall|t: int|
                0 <= t < sys.islands@.len() implies crate::system::all_positive(
                (#[trigger] sys.islands@[t]).agents@,
            ) && crate::system::all_positive(sys.islands@[t].migration_queue@) by {}
        }
        Ok(sys)
    }
}

/// Appending an island adds exactly its energy to the system total.
pub proof fn lemma_sys_energy_push_island(islands: Seq<Island>, isl: Island)
    ensures
        sys_energy(islands.push(isl)) == sys_energy(islands) + isl.energy_total(),
{
    assert(islands.push(isl).drop_last() =~= islands);
}

} // verus!
