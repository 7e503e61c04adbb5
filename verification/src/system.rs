//! The system: an ordered collection of islands plus the run parameters,
//! orchestrating the step / migration / log loop. Identities stay unique
//! across the whole system, energy is conserved exactly by every tick, and
//! the migration pass moves every emigrant to an island other than its
//! source.

use vstd::prelude::*;
use vstd::pervasive::unreached;
use core::marker::PhantomData;
use crate::agent::{energy_sum, Agent, ENERGY_SHARE_SCALE};
use crate::chances::{CombatWinChanceFn, ReproductionChanceFn};
use crate::domain::{domain_wf, genes_within};
use crate::fitness::FitnessFn;
use crate::island::{disjoint_ids, has_id, Island};
use crate::rng::RandomSource;

verus! {

/// Wall-clock access for the run loop's log records. The optimizer never
/// decides anything by the clock; implementations live outside the library.
pub trait RunClock {
    /// Milliseconds since the run started.
    fn elapsed_ms(&mut self) -> u64;
}

/// One aggregate log record, all plain values; formatting and averaging are
/// the caller's business. `best_living_fitness` is absent exactly when no
/// agent is alive, rather than a crash or a made-up number.
#[derive(Clone, Copy, PartialEq, Eq, Debug)]
pub struct LogRecord {
    pub elapsed_ms: u64,
    pub best_ever_fitness: i64,
    pub agents_amount: usize,
    pub energy_sum: u64,
    pub best_living_fitness: Option<i64>,
    pub fitness_total: i128,
}

/// Every agent of the sequence holds at least one unit of energy.
pub open spec fn all_positive(s: Seq<Agent>) -> bool {
    forall|k: int| 0 <= k < s.len() ==> (#[trigger] s[k]).energy >= 1
}

/// A population of positive-energy agents is no larger than its energy.
pub proof fn lemma_count_le_energy(s: Seq<Agent>)
    requires
        all_positive(s),
    ensures
        s.len() <= energy_sum(s),
    decreases s.len(),
{
    if s.len() > 0 {
        assert(all_positive(s.drop_last()));
        lemma_count_le_energy(s.drop_last());
    }
}

/// Population counts are never negative, prefix by prefix.
pub proof fn lemma_pop_count_nonneg(islands: Seq<Island>)
    ensures
        pop_count(islands) >= 0,
    decreases islands.len(),
{
    if islands.len() > 0 {
        lemma_pop_count_nonneg(islands.drop_last());
    }
}

/// A prefix of islands with a zero total count has only empty populations.
pub proof fn lemma_pop_count_zero(islands: Seq<Island>, j: int)
    requires
        0 <= j <= islands.len(),
        pop_count(islands.subrange(0, j)) == 0,
    ensures
        forall|w: int| 0 <= w < j ==> (#[trigger] islands[w]).agents@.len() == 0,
    decreases j,
{
    if j > 0 {
        let pre = islands.subrange(0, j);
        assert(pre.drop_last() =~= islands.subrange(0, j - 1));
        lemma_pop_count_nonneg(pre.drop_last());
        assert(islands[j - 1].agents@.len() == 0);
        lemma_pop_count_zero(islands, j - 1);
    }
}

/// Total fitness of a population, as a mathematical sum.
pub open spec fn fitness_sum(s: Seq<Agent>) -> int
    decreases s.len(),
{
    if s.len() == 0 {
        0
    } else {
        fitness_sum(s.drop_last()) + s.last().fitness
    }
}

/// Total energy held by a sequence of islands, populations and outboxes.
pub open spec fn sys_energy(islands: Seq<Island>) -> int
    decreases islands.len(),
{
    if islands.len() == 0 {
        0
    } else {
        sys_energy(islands.drop_last()) + islands.last().energy_total()
    }
}

/// Total number of living agents across the islands' populations.
pub open spec fn pop_count(islands: Seq<Island>) -> int
    decreases islands.len(),
{
    if islands.len() == 0 {
        0
    } else {
        pop_count(islands.drop_last()) + islands.last().agents@.len()
    }
}

/// Total energy across the islands' populations alone.
pub open spec fn pop_energy(islands: Seq<Island>) -> int
    decreases islands.len(),
{
    if islands.len() == 0 {
        0
    } else {
        pop_energy(islands.drop_last()) + energy_sum(islands.last().agents@)
    }
}

/// Total fitness across the islands' populations alone.
pub open spec fn pop_fitness(islands: Seq<Island>) -> int
    decreases islands.len(),
{
    if islands.len() == 0 {
        0
    } else {
        pop_fitness(islands.drop_last()) + fitness_sum(islands.last().agents@)
    }
}

/// No identity occurs on two different islands, population or outbox.
pub open spec fn islands_disjoint(islands: Seq<Island>) -> bool {
    forall|j1: int, j2: int|
        0 <= j1 < islands.len() && 0 <= j2 < islands.len() && j1 != j2 ==> disjoint_ids(
            (#[trigger] islands[j1]).agents@,
            (#[trigger] islands[j2]).agents@,
        ) && disjoint_ids(islands[j1].agents@, islands[j2].migration_queue@) && disjoint_ids(
            islands[j1].migration_queue@,
            islands[j2].agents@,
        ) && disjoint_ids(islands[j1].migration_queue@, islands[j2].migration_queue@)
}

/// Every identity anywhere in the system was born on one of the islands and
/// is already dominated by that island's minting counter — so no future
/// mint can collide with it, wherever its agent has migrated.
pub open spec fn counters_dominate(islands: Seq<Island>) -> bool {
    &&& forall|j: int, k: int|
        0 <= j < islands.len() && 0 <= k < (#[trigger] islands[j]).agents@.len() ==> (
        #[trigger] islands[j].agents@[k]).id.island < islands.len()
            && islands[j].agents@[k].id.seq
            <= islands[islands[j].agents@[k].id.island as int].last_agent_id
    &&& forall|j: int, k: int|
        0 <= j < islands.len() && 0 <= k < (#[trigger] islands[j]).migration_queue@.len() ==> (
        #[trigger] islands[j].migration_queue@[k]).id.island < islands.len()
            && islands[j].migration_queue@[k].id.seq
            <= islands[islands[j].migration_queue@[k].id.island as int].last_agent_id
}

/// Prepending-order sum lemmas for the island aggregates.
pub proof fn lemma_sys_energy_nonneg(islands: Seq<Island>)
    ensures
        sys_energy(islands) >= 0,
    decreases islands.len(),
{
    if islands.len() > 0 {
        lemma_sys_energy_nonneg(islands.drop_last());
        crate::agent::lemma_energy_sum_nonneg(islands.last().agents@);
        crate::agent::lemma_energy_sum_nonneg(islands.last().migration_queue@);
    }
}

/// Replacing one island shifts the system's energy by exactly the island's
/// energy difference.
pub proof fn lemma_sys_energy_update(islands: Seq<Island>, j: int, isl: Island)
    requires
        0 <= j < islands.len(),
    ensures
        sys_energy(islands.update(j, isl)) == sys_energy(islands) - islands[j].energy_total()
            + isl.energy_total(),
    decreases islands.len(),
{
    if j == islands.len() - 1 {
        assert(islands.update(j, isl).drop_last() =~= islands.drop_last());
        assert(islands.update(j, isl).last() == isl);
    } else {
        assert(islands.update(j, isl).drop_last() =~= islands.drop_last().update(j, isl));
        assert(islands.update(j, isl).last() == islands.last());
        lemma_sys_energy_update(islands.drop_last(), j, isl);
    }
}

/// One island holds at most the system's energy.
pub proof fn lemma_sys_energy_element(islands: Seq<Island>, j: int)
    requires
        0 <= j < islands.len(),
    ensures
        islands[j].energy_total() <= sys_energy(islands),
    decreases islands.len(),
{
    crate::agent::lemma_energy_sum_nonneg(islands.last().agents@);
    crate::agent::lemma_energy_sum_nonneg(islands.last().migration_queue@);
    if j == islands.len() - 1 {
        lemma_sys_energy_nonneg(islands.drop_last());
    } else {
        lemma_sys_energy_element(islands.drop_last(), j);
    }
}

/// How many log records a run of `steps` ticks emits: one for every tick
/// index divisible by `period`.
pub open spec fn logs_due(steps: int, period: int) -> int
    decreases steps,
{
    if steps <= 0 {
        0
    } else {
        logs_due(steps - 1, period) + (if (steps - 1) % period == 0 {
            1int
        } else {
            0int
        })
    }
}

/// A run emits a non-negative number of log records.
pub proof fn lemma_logs_due_nonneg(steps: int, period: int)
    ensures
        logs_due(steps, period) >= 0,
    decreases steps,
{
    if steps > 0 {
        lemma_logs_due_nonneg(steps - 1, period);
    }
}

/// An island-based evolutionary system: the islands, the run parameters,
/// and the accumulated log records. `F`, `C` and `R` fix the fitness
/// strategy and the two decision policies for the whole run.
#[derive(Debug)]
pub struct System<F: FitnessFn, C: CombatWinChanceFn, R: ReproductionChanceFn> {
    pub islands: Vec<Island>,
    pub steps: u32,
    pub energy_reproduction_share: u32,
    pub energy_combat: u32,
    pub migration_steps: u32,
    pub migrations_best_amount: usize,
    pub migrations_elite_amount: usize,
    pub logs: Vec<LogRecord>,
    pub log_steps: u32,
    pub strategies: PhantomData<(F, C, R)>,
}

impl<F: FitnessFn, C: CombatWinChanceFn, R: ReproductionChanceFn> System<F, C, R> {
    /// Well-formedness of the whole system: a valid domain, at least one
    /// island, each island well formed and sitting at its own index,
    /// identities unique across the system, counters dominating every
    /// identity, every living agent holding energy, the system's energy
    /// within the accounting bound, and usable run parameters.
    pub open spec fn wf(self) -> bool {
        &&& domain_wf(F::spec_domain())
        &&& self.islands@.len() >= 1
        &&& forall|j: int| 0 <= j < self.islands@.len() ==> (#[trigger] self.islands@[j]).wf::<F>()
        &&& forall|j: int| 0 <= j < self.islands@.len() ==> (#[trigger] self.islands@[j]).id == j
        &&& islands_disjoint(self.islands@)
        &&& counters_dominate(self.islands@)
        &&& forall|j: int|
            0 <= j < self.islands@.len() ==> all_positive((#[trigger] self.islands@[j]).agents@)
        &&& forall|j: int|
            0 <= j < self.islands@.len() ==> all_positive(
                (#[trigger] self.islands@[j]).migration_queue@,
            )
        &&& sys_energy(self.islands@) <= u32::MAX
        &&& self.migration_steps >= 1
        &&& self.log_steps >= 1
        &&& 0 < self.energy_reproduction_share <= ENERGY_SHARE_SCALE
    }

    /// The externally observable result: the gene vector of the best
    /// snapshot of the island whose best snapshot has the lowest fitness.
    pub fn best_sol(&self) -> (genes: Vec<i64>)
        requires
            self.wf(),
        ensures
            genes_within(F::spec_domain(), genes@),
            exists|j: int|
                0 <= j < self.islands@.len() && genes@ == (
                #[trigger] self.islands@[j]).historical_best.genes@ && (forall|k: int|
                    0 <= k < self.islands@.len() ==> self.islands@[j].historical_best.fitness <= (
                    #[trigger] self.islands@[k]).historical_best.fitness),
    {
        let mut best_j: usize = 0;
        let mut j: usize = 1;
        while j < self.islands.len()
            invariant
                1 <= j <= self.islands@.len(),
                best_j < j,
                forall|k: int|
                    0 <= k < j ==> self.islands@[best_j as int].historical_best.fitness <= (
                    #[trigger] self.islands@[k]).historical_best.fitness,
            decreases self.islands@.len() - j,
        {
            if self.islands[j].historical_best.fitness
                < self.islands[best_j].historical_best.fitness {
                best_j = j;
            }
            j = j + 1;
        }
        let winner: Agent = self.islands[best_j].historical_best.snapshot();
        proof {
            assert(agent_ok_for_hb::<F>(self.islands@[best_j as int]));
        }
        winner.genes
    }

    /// Append one aggregate record: the given timestamp, the best fitness
    /// ever seen, and the count, energy, best and total fitness of the
    /// currently living agents. Nothing else changes.
    pub fn log(&mut self, elapsed_ms: u64)
        requires
            old(self).wf(),
        ensures
            final(self).islands@ == old(self).islands@,
            final(self).steps == old(self).steps,
            final(self).energy_reproduction_share == old(self).energy_reproduction_share,
            final(self).energy_combat == old(self).energy_combat,
            final(self).migration_steps == old(self).migration_steps,
            final(self).migrations_best_amount == old(self).migrations_best_amount,
            final(self).migrations_elite_amount == old(self).migrations_elite_amount,
            final(self).log_steps == old(self).log_steps,
            final(self).logs@.len() == old(self).logs@.len() + 1,
            final(self).logs@.subrange(0, old(self).logs@.len() as int) == old(self).logs@,
            ({
                let r = final(self).logs@.last();
                &&& r.elapsed_ms == elapsed_ms
                &&& r.agents_amount == pop_count(old(self).islands@)
                &&& r.energy_sum == pop_energy(old(self).islands@)
                &&& r.fitness_total == pop_fitness(old(self).islands@)
                &&& (exists|j: int|
                    0 <= j < old(self).islands@.len() && r.best_ever_fitness == (
                    #[trigger] old(self).islands@[j]).historical_best.fitness)
                &&& (forall|j: int|
                    0 <= j < old(self).islands@.len() ==> r.best_ever_fitness <= (
                    #[trigger] old(self).islands@[j]).historical_best.fitness)
                &&& (r.best_living_fitness is None <==> pop_count(old(self).islands@) == 0)
                &&& (r.best_living_fitness is Some ==> (exists|j: int, k: int|
                    0 <= j < old(self).islands@.len() && 0 <= k
                        < old(self).islands@[j].agents@.len() && r.best_living_fitness->0 == (
                    #[trigger] old(self).islands@[j].agents@[k]).fitness)
                    && (forall|j: int, k: int|
                    0 <= j < old(self).islands@.len() && 0 <= k
                        < old(self).islands@[j].agents@.len() ==> r.best_living_fitness->0 <= (
                    #[trigger] old(self).islands@[j].agents@[k]).fitness))
            }),
    {
        let ghost islands: Seq<Island> = self.islands@;
        let mut best_ever: i64 = self.islands[0].historical_best.fitness;
        let mut count: usize = 0;
        let mut energy: u64 = 0;
        let mut fitness_total: i128 = 0;
        let mut best_living: Option<i64> = None;
        let mut j: usize = 0;
        proof {
            lemma_sys_energy_nonneg(islands);
        }
        while j < self.islands.len()
            invariant
                j <= islands.len(),
                self.islands@ == islands,
                old(self).wf(),
                islands == old(self).islands@,
                islands.len() >= 1,
                j >= 1 ==> (exists|w: int|
                    0 <= w < j && best_ever == (#[trigger] islands[w]).historical_best.fitness),
                j == 0 ==> best_ever == islands[0].historical_best.fitness,
                forall|w: int|
                    0 <= w < j ==> best_ever <= (#[trigger] islands[w]).historical_best.fitness,
                count == pop_count(islands.subrange(0, j as int)),
                energy == pop_energy(islands.subrange(0, j as int)),
                fitness_total == pop_fitness(islands.subrange(0, j as int)),
                count <= energy,
                energy <= u32::MAX,
                fitness_total <= count * (i64::MAX as int),
                fitness_total >= count * (i64::MIN as int),
                (best_living is None <==> count == 0),
                best_living is Some ==> (exists|w: int, k: int|
                    0 <= w < j && 0 <= k < islands[w].agents@.len() && best_living->0 == (
                    #[trigger] islands[w].agents@[k]).fitness),
                best_living is Some ==> (forall|w: int, k: int|
                    0 <= w < j && 0 <= k < islands[w].agents@.len() ==> best_living->0 <= (
                    #[trigger] islands[w].agents@[k]).fitness),
            decreases islands.len() - j,
        {
            proof {
                assert(islands.subrange(0, j as int + 1).drop_last() =~= islands.subrange(
                    0,
                    j as int,
                ));
                assert(islands[j as int].wf::<F>());
                assert(all_positive(islands[j as int].agents@));
                lemma_count_le_energy(islands[j as int].agents@);
                lemma_island_energy_bound(islands, j as int);
                lemma_fitness_sum_bounds(islands[j as int].agents@);
            }
            if self.islands[j].historical_best.fitness < best_ever {
                best_ever = self.islands[j].historical_best.fitness;
            }
            let isl_count: usize = self.islands[j].agents.len();
            let ghost c0: int = count as int;
            let ghost f0: int = fitness_total as int;
            proof {
                if best_living is None {
                    lemma_pop_count_zero(islands, j as int);
                }
                crate::agent::lemma_energy_sum_nonneg(islands[j as int].agents@);
            }
            count = count + isl_count;
            let mut k: usize = 0;
            let ghost pop: Seq<Agent> = islands[j as int].agents@;
            while k < self.islands[j].agents.len()
                invariant
                    k <= pop.len(),
                    self.islands@ == islands,
                    pop == islands[j as int].agents@,
                    j < islands.len(),
                    islands[j as int].wf::<F>(),
                    all_positive(pop),
                    energy as int == pop_energy(islands.subrange(0, j as int)) + energy_sum(
                        pop.subrange(0, k as int),
                    ),
                    energy_sum(pop.subrange(0, k as int)) + (pop.len() - k) <= energy_sum(pop),
                    pop_energy(islands.subrange(0, j as int)) + energy_sum(pop) <= u32::MAX,
                    fitness_total == f0 + fitness_sum(pop.subrange(0, k as int)),
                    0 <= c0,
                    c0 + pop.len() <= u32::MAX,
                    f0 <= c0 * (i64::MAX as int) && f0 >= c0 * (i64::MIN as int),
                    fitness_sum(pop.subrange(0, k as int)) <= k * (i64::MAX as int),
                    fitness_sum(pop.subrange(0, k as int)) >= k * (i64::MIN as int),
                    best_living is None ==> c0 == 0 && (forall|w: int|
                        0 <= w < j ==> (#[trigger] islands[w]).agents@.len() == 0),
                    (best_living is None && k == 0) || best_living is Some,
                    k >= 1 ==> best_living is Some,
                    best_living is Some ==> ((exists|w: int, k2: int|
                        0 <= w < j && 0 <= k2 < islands[w].agents@.len() && best_living->0 == (
                        #[trigger] islands[w].agents@[k2]).fitness) || (exists|k2: int|
                        0 <= k2 < k && best_living->0 == (#[trigger] pop[k2]).fitness)),
                    best_living is Some ==> (forall|w: int, k2: int|
                        0 <= w < j && 0 <= k2 < islands[w].agents@.len() ==> best_living->0 <= (
                        #[trigger] islands[w].agents@[k2]).fitness),
                    best_living is Some ==> (forall|k2: int|
                        0 <= k2 < k ==> best_living->0 <= (#[trigger] pop[k2]).fitness),
                decreases pop.len() - k,
            {
                proof {
                    assert(pop.subrange(0, k as int + 1).drop_last() =~= pop.subrange(0, k as int));
                    lemma_energy_suffix(pop, k as int);
                    assert((k + 1) * (i64::MAX as int) == k * (i64::MAX as int) + i64::MAX)
                        by (nonlinear_arith);
                    assert((k + 1) * (i64::MIN as int) == k * (i64::MIN as int) + i64::MIN)
                        by (nonlinear_arith);
                    assert(fitness_total <= (c0 + k) * (i64::MAX as int) && fitness_total >= (c0
                        + k) * (i64::MIN as int)) by (nonlinear_arith)
                        requires
                            fitness_total == f0 + fitness_sum(pop.subrange(0, k as int)),
                            f0 <= c0 * (i64::MAX as int),
                            f0 >= c0 * (i64::MIN as int),
                            fitness_sum(pop.subrange(0, k as int)) <= k * (i64::MAX as int),
                            fitness_sum(pop.subrange(0, k as int)) >= k * (i64::MIN as int),
                            k >= 0,
                            c0 >= 0,
                    ;
                    assert((c0 + k) * (i64::MAX as int) <= (u32::MAX as int) * (i64::MAX as int)
                        && (c0 + k) * (i64::MIN as int) >= (u32::MAX as int) * (i64::MIN as int))
                        by (nonlinear_arith)
                        requires
                            0 <= c0 + k <= u32::MAX,
                    ;
                }
                let a_fitness: i64 = self.islands[j].agents[k].fitness;
                let a_energy: u32 = self.islands[j].agents[k].energy;
                energy = energy + a_energy as u64;
                fitness_total = fitness_total + a_fitness as i128;
                match best_living {
                    None => {
                        best_living = Some(a_fitness);
                    },
                    Some(b) => {
                        if a_fitness < b {
                            best_living = Some(a_fitness);
                        }
                    },
                }
                k = k + 1;
            }
            proof {
                assert(pop.subrange(0, pop.len() as int) =~= pop);
                assert((c0 + pop.len()) * (i64::MAX as int) == c0 * (i64::MAX as int) + pop.len()
                    * (i64::MAX as int)) by (nonlinear_arith);
                assert((c0 + pop.len()) * (i64::MIN as int) == c0 * (i64::MIN as int) + pop.len()
                    * (i64::MIN as int)) by (nonlinear_arith);
            }
            j = j + 1;
        }
        proof {
            assert(islands.subrange(0, islands.len() as int) =~= islands);
        }
        let record = LogRecord {
            elapsed_ms,
            best_ever_fitness: best_ever,
            agents_amount: count,
            energy_sum: energy,
            best_living_fitness: best_living,
            fitness_total,
        };
        self.logs.push(record);
    }

    /// The global migration pass: every agent waiting in any island's
    /// outbox is moved to the population of an island chosen uniformly among
    /// the islands other than its source. All outboxes end empty, no energy
    /// is created or lost, populations only grow (each by some of the
    /// emigrants), and no emigrant lands back on the island it left.
    #[verifier::rlimit(60)]
    pub fn migrate_agents<RS: RandomSource>(&mut self, rng: &mut RS)
        requires
            old(self).wf(),
            old(self).islands@.len() >= 2,
        ensures
            final(self).wf(),
            final(self).islands@.len() == old(self).islands@.len(),
            final(self).steps == old(self).steps,
            final(self).energy_reproduction_share == old(self).energy_reproduction_share,
            final(self).energy_combat == old(self).energy_combat,
            final(self).migration_steps == old(self).migration_steps,
            final(self).migrations_best_amount == old(self).migrations_best_amount,
            final(self).migrations_elite_amount == old(self).migrations_elite_amount,
            final(self).log_steps == old(self).log_steps,
            final(self).logs@ == old(self).logs@,
            sys_energy(final(self).islands@) == sys_energy(old(self).islands@),
            forall|jj: int|
                0 <= jj < final(self).islands@.len() ==> (#[trigger] final(self).islands@[jj])
                    .migration_queue@.len() == 0,
            forall|jj: int|
                0 <= jj < final(self).islands@.len() ==> (#[trigger] final(self).islands@[jj])
                    .historical_best == old(self).islands@[jj].historical_best
                    && final(self).islands@[jj].last_agent_id
                    == old(self).islands@[jj].last_agent_id,
            forall|jj: int|
                0 <= jj < final(self).islands@.len() ==> old(self).islands@[jj].agents@.len()
                    <= (#[trigger] final(self).islands@[jj]).agents@.len(),
            forall|jj: int|
                0 <= jj < final(self).islands@.len() ==> (#[trigger] final(self).islands@[jj])
                    .agents@.subrange(0, old(self).islands@[jj].agents@.len() as int)
                    == old(self).islands@[jj].agents@,
            forall|jj: int, k: int|
                0 <= jj < final(self).islands@.len() && old(self).islands@[jj].agents@.len() <= k
                    < final(self).islands@[jj].agents@.len() ==> (exists|j2: int|
                    0 <= j2 < old(self).islands@.len() && j2 != jj && old(self).islands@[j2].migration_queue@.contains(
                        #[trigger] final(self).islands@[jj].agents@[k],
                    )),
            forall|j2: int, t: int|
                0 <= j2 < old(self).islands@.len() && 0 <= t
                    < old(self).islands@[j2].migration_queue@.len() ==> !has_id(
                    final(self).islands@[j2].agents@,
                    (#[trigger] old(self).islands@[j2].migration_queue@[t]).id,
                ),
    {
        let ghost orig: Seq<Island> = old(self).islands@;
        let n: usize = self.islands.len();
        let mut j: usize = 0;
        while j < n
            invariant
                j <= n,
                n >= 2,
                n == self.islands@.len(),
                n == orig.len(),
                orig == old(self).islands@,
                old(self).wf(),
                self.wf(),
                self.steps == old(self).steps,
                self.energy_reproduction_share == old(self).energy_reproduction_share,
                self.energy_combat == old(self).energy_combat,
                self.migration_steps == old(self).migration_steps,
                self.migrations_best_amount == old(self).migrations_best_amount,
                self.migrations_elite_amount == old(self).migrations_elite_amount,
                self.log_steps == old(self).log_steps,
                self.logs@ == old(self).logs@,
                sys_energy(self.islands@) == sys_energy(orig),
                forall|jj: int|
                    0 <= jj < n ==> (#[trigger] self.islands@[jj]).historical_best
                        == orig[jj].historical_best && self.islands@[jj].last_agent_id
                        == orig[jj].last_agent_id,
                forall|jj: int|
                    0 <= jj < j ==> (#[trigger] self.islands@[jj]).migration_queue@.len() == 0,
                forall|jj: int|
                    j <= jj < n ==> (#[trigger] self.islands@[jj]).migration_queue@
                        == orig[jj].migration_queue@,
                forall|jj: int|
                    0 <= jj < n ==> orig[jj].agents@.len() <= (#[trigger] self.islands@[jj])
                        .agents@.len(),
                forall|jj: int|
                    0 <= jj < n ==> (#[trigger] self.islands@[jj]).agents@.subrange(
                        0,
                        orig[jj].agents@.len() as int,
                    ) == orig[jj].agents@,
                forall|jj: int, k: int|
                    0 <= jj < n && orig[jj].agents@.len() <= k < self.islands@[jj].agents@.len()
                        ==> (exists|j2: int|
                        0 <= j2 < n && j2 != jj && orig[j2].migration_queue@.contains(
                            #[trigger] self.islands@[jj].agents@[k],
                        )),
            decreases n - j,
        {
            let ghost round0: Seq<Island> = self.islands@;
            let mut isl: Island = self.islands.remove(j);
            let ghost source: Island = isl;
            let ghost qlen: int = isl.migration_queue@.len() as int;
            let mut batch: Vec<(usize, Agent)> = Vec::new();
            while isl.migration_queue.len() > 0
                invariant
                    n >= 2,
                    j < n,
                    batch@.len() <= qlen,
                    isl.migration_queue@ == source.migration_queue@.subrange(
                        0,
                        qlen - batch@.len(),
                    ),
                    qlen == source.migration_queue@.len(),
                    isl.agents@ == source.agents@,
                    isl.id == source.id,
                    isl.last_agent_id == source.last_agent_id,
                    isl.historical_best == source.historical_best,
                    forall|u: int|
                        0 <= u < batch@.len() ==> (#[trigger] batch@[u]).1
                            == source.migration_queue@[qlen - 1 - u],
                    forall|u: int|
                        0 <= u < batch@.len() ==> (#[trigger] batch@[u]).0 < n && batch@[u].0
                            != j,
                    energy_sum(source.migration_queue@) == energy_sum(isl.migration_queue@)
                        + batch_energy(batch@),
                decreases isl.migration_queue@.len(),
            {
                let ghost q_pre: Seq<Agent> = isl.migration_queue@;
                let a: Agent = match isl.migration_queue.pop() {
                    Some(a) => a,
                    None => unreached(),
                };
                let r: usize = rng.next_below(n - 1);
                let d: usize = if r >= j {
                    r + 1
                } else {
                    r
                };
                let ghost batch_prev: Seq<(usize, Agent)> = batch@;
                batch.push((d, a));
                proof {
                    assert(isl.migration_queue@ =~= source.migration_queue@.subrange(
                        0,
                        qlen - batch@.len(),
                    ));
                    assert(isl.migration_queue@ =~= q_pre.drop_last());
                    assert(energy_sum(q_pre) == energy_sum(q_pre.drop_last()) + a.energy);
                    assert(batch@.drop_last() =~= batch_prev);
                    assert(batch_energy(batch@) == batch_energy(batch_prev) + a.energy);
                }
            }
            self.islands.insert(j, isl);
            let ghost batch0: Seq<(usize, Agent)> = batch@;
            proof {
                assert(self.islands@ =~= round0.update(j as int, isl));
                assert(source == round0[j as int]);
                assert(source.migration_queue@ == orig[j as int].migration_queue@);
                assert(isl.migration_queue@.len() == 0);
                assert(batch0.len() == qlen);
                assert(isl.energy_total() == source.energy_total() - batch_energy(batch0)) by {
                    assert(energy_sum(isl.migration_queue@) == 0);
                }
                lemma_sys_energy_update(round0, j as int, isl);
                lemma_batch_energy_nonneg(batch0);
                assert(sys_energy(self.islands@) + batch_energy(batch0) == sys_energy(orig));
                assert forall|jj: int| 0 <= jj < n implies (#[trigger] self.islands@[jj]).agents@
                    == round0[jj].agents@ by {}
                assert(self.wf()) by {
                    assert(round0[j as int].wf::<F>());
                    assert(isl.wf::<F>()) by {
                        assert(crate::island::ids_distinct(isl.migration_queue@));
                    }
                }
                assert(all_positive(source.migration_queue@));
                assert(crate::island::all_ok::<F>(source.migration_queue@));
                assert(crate::island::ids_distinct(source.migration_queue@));
                assert forall|u: int, jj: int, k: int|
                    0 <= u < batch0.len() && 0 <= jj < n && 0 <= k
                        < self.islands@[jj].agents@.len() implies (#[trigger] batch0[u]).1.id != (
                #[trigger] self.islands@[jj].agents@[k]).id by {
                    assert(batch0[u].1 == source.migration_queue@[qlen - 1 - u]);
                    assert(self.islands@[jj].agents@[k] == round0[jj].agents@[k]);
                    if jj == j {
                        assert(disjoint_ids(round0[j as int].agents@, source.migration_queue@));
                    } else {
                        assert(disjoint_ids(
                            round0[j as int].migration_queue@,
                            round0[jj].agents@,
                        ));
                    }
                }
                assert forall|u: int, jj: int, k: int|
                    0 <= u < batch0.len() && 0 <= jj < n && 0 <= k
                        < self.islands@[jj].migration_queue@.len() implies (
                #[trigger] batch0[u]).1.id != (
                #[trigger] self.islands@[jj].migration_queue@[k]).id by {
                    assert(batch0[u].1 == source.migration_queue@[qlen - 1 - u]);
                    assert(jj != j);
                    assert(self.islands@[jj].migration_queue@ == round0[jj].migration_queue@);
                    assert(disjoint_ids(
                        round0[j as int].migration_queue@,
                        round0[jj].migration_queue@,
                    ));
                }
                assert forall|u1: int, u2: int|
                    0 <= u1 < batch0.len() && 0 <= u2 < batch0.len() && u1 != u2 implies (
                #[trigger] batch0[u1]).1.id != (#[trigger] batch0[u2]).1.id by {
                    assert(batch0[u1].1 == source.migration_queue@[qlen - 1 - u1]);
                    assert(batch0[u2].1 == source.migration_queue@[qlen - 1 - u2]);
                }
                assert forall|u: int|
                    0 <= u < batch0.len() implies (#[trigger] batch0[u]).1.id.island < n
                        && batch0[u].1.id.seq <= self.islands@[batch0[u].1.id.island as int]
                        .last_agent_id by {
                    assert(batch0[u].1 == round0[j as int].migration_queue@[qlen - 1 - u]);
                    assert(self.islands@[batch0[u].1.id.island as int].last_agent_id
                        == round0[batch0[u].1.id.island as int].last_agent_id);
                }
                assert forall|u: int|
                    0 <= u < batch0.len() implies crate::agent::agent_ok::<F>(
                        (#[trigger] batch0[u]).1,
                    ) && batch0[u].1.energy >= 1 by {
                    assert(batch0[u].1 == source.migration_queue@[qlen - 1 - u]);
                }
            }
            while batch.len() > 0
                invariant
                    n >= 2,
                    j < n,
                    n == self.islands@.len(),
                    n == orig.len(),
                    orig == old(self).islands@,
                    old(self).wf(),
                    self.wf(),
                    self.steps == old(self).steps,
                    self.energy_reproduction_share == old(self).energy_reproduction_share,
                    self.energy_combat == old(self).energy_combat,
                    self.migration_steps == old(self).migration_steps,
                    self.migrations_best_amount == old(self).migrations_best_amount,
                    self.migrations_elite_amount == old(self).migrations_elite_amount,
                    self.log_steps == old(self).log_steps,
                    self.logs@ == old(self).logs@,
                    batch@ == batch0.subrange(0, batch@.len() as int),
                    batch@.len() <= batch0.len(),
                    forall|u: int|
                        0 <= u < batch0.len() ==> (#[trigger] batch0[u]).0 < n && batch0[u].0
                            != j,
                    forall|u: int|
                        0 <= u < batch0.len() ==> orig[j as int].migration_queue@.contains(
                            (#[trigger] batch0[u]).1,
                        ),
                    sys_energy(self.islands@) + batch_energy(batch@) == sys_energy(orig),
                    forall|jj: int|
                        0 <= jj < n ==> (#[trigger] self.islands@[jj]).historical_best
                            == orig[jj].historical_best && self.islands@[jj].last_agent_id
                            == orig[jj].last_agent_id,
                    forall|jj: int|
                        0 <= jj <= j ==> (#[trigger] self.islands@[jj]).migration_queue@.len()
                            == 0,
                    forall|jj: int|
                        j < jj < n ==> (#[trigger] self.islands@[jj]).migration_queue@
                            == orig[jj].migration_queue@,
                    forall|jj: int|
                        0 <= jj < n ==> orig[jj].agents@.len() <= (#[trigger] self.islands@[jj])
                            .agents@.len(),
                    forall|jj: int|
                        0 <= jj < n ==> (#[trigger] self.islands@[jj]).agents@.subrange(
                            0,
                            orig[jj].agents@.len() as int,
                        ) == orig[jj].agents@,
                    forall|jj: int, k: int|
                        0 <= jj < n && orig[jj].agents@.len() <= k
                            < self.islands@[jj].agents@.len() ==> (exists|j2: int|
                            0 <= j2 < n && j2 != jj && orig[j2].migration_queue@.contains(
                                #[trigger] self.islands@[jj].agents@[k],
                            )),
                    forall|u: int, jj: int, k: int|
                        0 <= u < batch@.len() && 0 <= jj < n && 0 <= k
                            < self.islands@[jj].agents@.len() ==> (#[trigger] batch@[u]).1.id != (
                        #[trigger] self.islands@[jj].agents@[k]).id,
                    forall|u: int, jj: int, k: int|
                        0 <= u < batch@.len() && 0 <= jj < n && 0 <= k
                            < self.islands@[jj].migration_queue@.len() ==> (
                        #[trigger] batch@[u]).1.id != (
                        #[trigger] self.islands@[jj].migration_queue@[k]).id,
                    forall|u1: int, u2: int|
                        0 <= u1 < batch@.len() && 0 <= u2 < batch@.len() && u1 != u2 ==> (
                        #[trigger] batch@[u1]).1.id != (#[trigger] batch@[u2]).1.id,
                    forall|u: int|
                        0 <= u < batch@.len() ==> (#[trigger] batch@[u]).1.energy >= 1,
                    forall|u: int|
                        0 <= u < batch@.len() ==> crate::agent::agent_ok::<F>(
                            (#[trigger] batch@[u]).1,
                        ),
                    forall|u: int|
                        0 <= u < batch@.len() ==> (#[trigger] batch@[u]).1.id.island < n
                            && batch@[u].1.id.seq <= self.islands@[batch@[u].1.id.island as int]
                            .last_agent_id,
                decreases batch@.len(),
            {
                let ghost batch_pre: Seq<(usize, Agent)> = batch@;
                let pair: (usize, Agent) = match batch.pop() {
                    Some(p) => p,
                    None => unreached(),
                };
                let d: usize = pair.0;
                let a: Agent = pair.1;
                proof {
                    assert(batch@ =~= batch0.subrange(0, batch@.len() as int));
                    assert((d, a) == batch_pre[batch_pre.len() - 1]);
                    lemma_batch_energy_last(batch_pre);
                }
                let ghost pre_del: Seq<Island> = self.islands@;
                let mut dest_isl: Island = self.islands.remove(d);
                dest_isl.agents.push(a);
                self.islands.insert(d, dest_isl);
                proof {
                    let ghost m: int = batch@.len() as int;
                    assert(batch_pre[m].1 == a && batch_pre[m].0 == d);
                    assert(self.islands@ =~= pre_del.update(d as int, dest_isl));
                    assert(dest_isl.agents@ == pre_del[d as int].agents@.push(a));
                    lemma_sys_energy_update(pre_del, d as int, dest_isl);
                    crate::agent::lemma_energy_sum_push(pre_del[d as int].agents@, a);
                    assert(dest_isl.agents@.subrange(0, orig[d as int].agents@.len() as int)
                        =~= pre_del[d as int].agents@.subrange(
                        0,
                        orig[d as int].agents@.len() as int,
                    ));
                    assert(dest_isl.agents@[dest_isl.agents@.len() - 1] == a);
                    assert(orig[j as int].migration_queue@.contains(a));
                    assert(exists|j2: int|
                        0 <= j2 < n && j2 != d && orig[j2].migration_queue@.contains(a)) by {
                        assert(orig[j as int].migration_queue@.contains(a) && j != d);
                    }
                    assert(dest_isl.wf::<F>()) by {
                        assert(pre_del[d as int].wf::<F>());
                        assert(crate::agent::agent_ok::<F>(a));
                        assert forall|i1: int, i2: int|
                            0 <= i1 < dest_isl.agents@.len() && 0 <= i2 < dest_isl.agents@.len()
                                && i1 != i2 implies (#[trigger] dest_isl.agents@[i1]).id != (
                        #[trigger] dest_isl.agents@[i2]).id by {
                            if i1 == dest_isl.agents@.len() - 1 {
                                assert(batch_pre[m].1.id != pre_del[d as int].agents@[i2].id);
                            } else if i2 == dest_isl.agents@.len() - 1 {
                                assert(batch_pre[m].1.id != pre_del[d as int].agents@[i1].id);
                            }
                        }
                        assert(crate::island::ids_bounded(
                            dest_isl.agents@,
                            dest_isl.id,
                            dest_isl.last_agent_id,
                        )) by {
                            if a.id.island == d {
                                assert(batch_pre[m].1.id.seq
                                    <= pre_del[a.id.island as int].last_agent_id);
                            }
                        }
                    }
                    assert(self.wf()) by {
                        assert forall|j1: int, j2: int|
                            0 <= j1 < n && 0 <= j2 < n && j1 != j2 implies disjoint_ids(
                            (#[trigger] self.islands@[j1]).agents@,
                            (#[trigger] self.islands@[j2]).agents@,
                        ) && disjoint_ids(
                            self.islands@[j1].agents@,
                            self.islands@[j2].migration_queue@,
                        ) && disjoint_ids(
                            self.islands@[j1].migration_queue@,
                            self.islands@[j2].agents@,
                        ) && disjoint_ids(
                            self.islands@[j1].migration_queue@,
                            self.islands@[j2].migration_queue@,
                        ) by {
                            assert(disjoint_ids(pre_del[j1].agents@, pre_del[j2].agents@));
                            assert(disjoint_ids(
                                pre_del[j1].agents@,
                                pre_del[j2].migration_queue@,
                            ));
                            assert(disjoint_ids(
                                pre_del[j1].migration_queue@,
                                pre_del[j2].agents@,
                            ));
                            assert(disjoint_ids(
                                pre_del[j1].migration_queue@,
                                pre_del[j2].migration_queue@,
                            ));
                            if j1 == d {
                                assert forall|i1: int, i2: int|
                                    0 <= i1 < self.islands@[j1].agents@.len() && 0 <= i2
                                        < self.islands@[j2].agents@.len() implies (
                                #[trigger] self.islands@[j1].agents@[i1]).id != (
                                #[trigger] self.islands@[j2].agents@[i2]).id by {
                                    if i1 == self.islands@[j1].agents@.len() - 1 {
                                        assert(batch_pre[m].1.id
                                            != pre_del[j2].agents@[i2].id);
                                    }
                                }
                                assert forall|i1: int, i2: int|
                                    0 <= i1 < self.islands@[j1].agents@.len() && 0 <= i2
                                        < self.islands@[j2].migration_queue@.len() implies (
                                #[trigger] self.islands@[j1].agents@[i1]).id != (
                                #[trigger] self.islands@[j2].migration_queue@[i2]).id by {
                                    if i1 == self.islands@[j1].agents@.len() - 1 {
                                        assert(batch_pre[m].1.id
                                            != pre_del[j2].migration_queue@[i2].id);
                                    }
                                }
                            }
                            if j2 == d {
                                assert forall|i1: int, i2: int|
                                    0 <= i1 < self.islands@[j1].agents@.len() && 0 <= i2
                                        < self.islands@[j2].agents@.len() implies (
                                #[trigger] self.islands@[j1].agents@[i1]).id != (
                                #[trigger] self.islands@[j2].agents@[i2]).id by {
                                    if i2 == self.islands@[j2].agents@.len() - 1 {
                                        assert(batch_pre[m].1.id
                                            != pre_del[j1].agents@[i1].id);
                                    }
                                }
                                assert forall|i1: int, i2: int|
                                    0 <= i1 < self.islands@[j1].migration_queue@.len() && 0 <= i2
                                        < self.islands@[j2].agents@.len() implies (
                                #[trigger] self.islands@[j1].migration_queue@[i1]).id != (
                                #[trigger] self.islands@[j2].agents@[i2]).id by {
                                    if i2 == self.islands@[j2].agents@.len() - 1 {
                                        assert(batch_pre[m].1.id
                                            != pre_del[j1].migration_queue@[i1].id);
                                    }
                                }
                            }
                        }
                        assert(all_positive(dest_isl.agents@)) by {
                            assert(batch_pre[m].1.energy >= 1);
                            assert(all_positive(pre_del[d as int].agents@));
                        }
                        lemma_batch_energy_nonneg(batch@);
                        assert(sys_energy(self.islands@) <= sys_energy(orig));
                    }
                    assert forall|u: int, jj: int, k: int|
                        0 <= u < batch@.len() && 0 <= jj < n && 0 <= k
                            < self.islands@[jj].agents@.len() implies (
                    #[trigger] batch@[u]).1.id != (
                    #[trigger] self.islands@[jj].agents@[k]).id by {
                        assert(batch@[u] == batch_pre[u]);
                        if jj == d && k == self.islands@[jj].agents@.len() - 1 {
                            assert(self.islands@[jj].agents@[k] == a);
                            assert(batch_pre[u].1.id != batch_pre[m].1.id);
                        } else {
                            assert(self.islands@[jj].agents@[k] == pre_del[jj].agents@[k]);
                        }
                    }
                }
            }
            proof {
                assert(batch@.len() == 0);
                assert(batch_energy(batch@) == 0);
            }
            j = j + 1;
        }
        proof {
            assert forall|j2: int, t: int|
                0 <= j2 < n && 0 <= t < orig[j2].migration_queue@.len() implies !has_id(
                    self.islands@[j2].agents@,
                    (#[trigger] orig[j2].migration_queue@[t]).id,
                ) by {
                let qid = orig[j2].migration_queue@[t].id;
                if has_id(self.islands@[j2].agents@, qid) {
                    let k = choose|k: int|
                        0 <= k < self.islands@[j2].agents@.len() && (
                        #[trigger] self.islands@[j2].agents@[k]).id == qid;
                    if k < orig[j2].agents@.len() {
                        assert(self.islands@[j2].agents@.subrange(
                            0,
                            orig[j2].agents@.len() as int,
                        )[k] == self.islands@[j2].agents@[k]);
                        assert(orig[j2].agents@[k].id == qid);
                        assert(crate::island::disjoint_ids(
                            orig[j2].agents@,
                            orig[j2].migration_queue@,
                        ));
                    } else {
                        let j3 = choose|j3: int|
                            0 <= j3 < n && j3 != j2 && orig[j3].migration_queue@.contains(
                                self.islands@[j2].agents@[k],
                            );
                        let t3 = choose|t3: int|
                            0 <= t3 < orig[j3].migration_queue@.len()
                                && orig[j3].migration_queue@[t3] == self.islands@[j2].agents@[k];
                        assert(orig[j3].migration_queue@[t3].id == qid);
                        assert(disjoint_ids(
                            orig[j3].migration_queue@,
                            orig[j2].migration_queue@,
                        ));
                    }
                }
            }
        }
    }

    /// One tick of the run loop: step every island; on migration ticks run
    /// the migration round and the global redistribution (when there is more
    /// than one island to exchange with), leaving every outbox empty; on log
    /// ticks append one record that aggregates the resulting state. Energy
    /// is conserved exactly and no island's best snapshot regresses.
    #[verifier::rlimit(30)]
    pub fn tick<RS: RandomSource>(&mut self, step_index: u32, elapsed_ms: u64, rng: &mut RS)
        requires
            old(self).wf(),
        ensures
            final(self).wf(),
            final(self).islands@.len() == old(self).islands@.len(),
            final(self).steps == old(self).steps,
            final(self).energy_reproduction_share == old(self).energy_reproduction_share,
            final(self).energy_combat == old(self).energy_combat,
            final(self).migration_steps == old(self).migration_steps,
            final(self).migrations_best_amount == old(self).migrations_best_amount,
            final(self).migrations_elite_amount == old(self).migrations_elite_amount,
            final(self).log_steps == old(self).log_steps,
            sys_energy(final(self).islands@) == sys_energy(old(self).islands@),
            forall|jj: int|
                0 <= jj < final(self).islands@.len() ==> (#[trigger] final(self).islands@[jj])
                    .historical_best.fitness
                    <= old(self).islands@[jj].historical_best.fitness,
            final(self).logs@.subrange(0, old(self).logs@.len() as int) == old(self).logs@,
            final(self).logs@.len() == old(self).logs@.len() + (
            if step_index % old(self).log_steps == 0 {
                1int
            } else {
                0int
            }),
            (step_index % old(self).migration_steps == 0 && old(self).islands@.len() >= 2)
                ==> (forall|jj: int|
                0 <= jj < final(self).islands@.len() ==> (#[trigger] final(self).islands@[jj])
                    .migration_queue@.len() == 0),
            step_index % old(self).log_steps == 0 ==> ({
                let r = final(self).logs@.last();
                &&& r.elapsed_ms == elapsed_ms
                &&& r.agents_amount == pop_count(final(self).islands@)
                &&& r.energy_sum == pop_energy(final(self).islands@)
                &&& r.fitness_total == pop_fitness(final(self).islands@)
                &&& (exists|j: int|
                    0 <= j < final(self).islands@.len() && r.best_ever_fitness == (
                    #[trigger] final(self).islands@[j]).historical_best.fitness)
                &&& (forall|j: int|
                    0 <= j < final(self).islands@.len() ==> r.best_ever_fitness <= (
                    #[trigger] final(self).islands@[j]).historical_best.fitness)
                &&& (r.best_living_fitness is None <==> pop_count(final(self).islands@) == 0)
                &&& (r.best_living_fitness is Some ==> (exists|j: int, k: int|
                    0 <= j < final(self).islands@.len() && 0 <= k < final(self).islands@[j].agents@.len() && r.best_living_fitness->0 == (
                    #[trigger] final(self).islands@[j].agents@[k]).fitness) && (forall|
                    j: int,
                    k: int,
                |
                    0 <= j < final(self).islands@.len() && 0 <= k < final(self).islands@[j].agents@.len() ==> r.best_living_fitness->0 <= (
                    #[trigger] final(self).islands@[j].agents@[k]).fitness))
            }),
    {
        let ghost orig: Seq<Island> = self.islands@;
        let n: usize = self.islands.len();
        let mut j: usize = 0;
        while j < n
            invariant
                j <= n,
                n == self.islands@.len(),
                n == orig.len(),
                orig == old(self).islands@,
                old(self).wf(),
                self.wf(),
                self.steps == old(self).steps,
                self.energy_reproduction_share == old(self).energy_reproduction_share,
                self.energy_combat == old(self).energy_combat,
                self.migration_steps == old(self).migration_steps,
                self.migrations_best_amount == old(self).migrations_best_amount,
                self.migrations_elite_amount == old(self).migrations_elite_amount,
                self.log_steps == old(self).log_steps,
                self.logs@ == old(self).logs@,
                sys_energy(self.islands@) == sys_energy(orig),
                forall|jj: int|
                    0 <= jj < n ==> (#[trigger] self.islands@[jj]).historical_best.fitness
                        <= orig[jj].historical_best.fitness,
                forall|jj: int|
                    0 <= jj < n ==> (#[trigger] self.islands@[jj]).migration_queue@
                        == orig[jj].migration_queue@,
                forall|jj: int|
                    0 <= jj < n ==> orig[jj].last_agent_id <= (#[trigger] self.islands@[jj])
                        .last_agent_id,
            decreases n - j,
        {
            let ghost round0: Seq<Island> = self.islands@;
            let mut isl: Island = self.islands.remove(j);
            let ghost pre_step: Island = isl;
            proof {
                lemma_sys_energy_element(round0, j as int);
                crate::agent::lemma_energy_sum_nonneg(isl.migration_queue@);
            }
            isl.step::<F, C, R, RS>(self.energy_reproduction_share, self.energy_combat, rng);
            self.islands.insert(j, isl);
            proof {
                assert(self.islands@ =~= round0.update(j as int, isl));
                lemma_sys_energy_update(round0, j as int, isl);
                assert(pre_step == round0[j as int]);
                assert forall|jj: int, k: int|
                    0 <= jj < n && 0 <= k < self.islands@[jj].agents@.len() implies (
                #[trigger] self.islands@[jj].agents@[k]).id.island < n
                    && self.islands@[jj].agents@[k].id.seq
                    <= self.islands@[self.islands@[jj].agents@[k].id.island as int]
                    .last_agent_id by {
                    if jj == j {
                        let a = self.islands@[jj].agents@[k];
                        if has_id(pre_step.agents@, a.id) {
                            let w = choose|w: int|
                                0 <= w < pre_step.agents@.len() && (
                                #[trigger] pre_step.agents@[w]).id == a.id;
                            assert(round0[j as int].agents@[w].id == a.id);
                        } else {
                            assert(a.id.island == j && a.id.seq <= isl.last_agent_id);
                        }
                    } else {
                        assert(self.islands@[jj].agents@[k] == round0[jj].agents@[k]);
                    }
                }
                assert forall|j1: int, j2: int|
                    0 <= j1 < n && 0 <= j2 < n && j1 != j2 implies disjoint_ids(
                    (#[trigger] self.islands@[j1]).agents@,
                    (#[trigger] self.islands@[j2]).agents@,
                ) && disjoint_ids(
                    self.islands@[j1].agents@,
                    self.islands@[j2].migration_queue@,
                ) && disjoint_ids(
                    self.islands@[j1].migration_queue@,
                    self.islands@[j2].agents@,
                ) && disjoint_ids(
                    self.islands@[j1].migration_queue@,
                    self.islands@[j2].migration_queue@,
                ) by {
                    assert(disjoint_ids(round0[j1].agents@, round0[j2].agents@));
                    assert(disjoint_ids(round0[j1].agents@, round0[j2].migration_queue@));
                    assert(disjoint_ids(round0[j1].migration_queue@, round0[j2].agents@));
                    assert(disjoint_ids(
                        round0[j1].migration_queue@,
                        round0[j2].migration_queue@,
                    ));
                    if j1 == j {
                        assert forall|i1: int, i2: int|
                            0 <= i1 < self.islands@[j1].agents@.len() && 0 <= i2
                                < self.islands@[j2].agents@.len() implies (
                        #[trigger] self.islands@[j1].agents@[i1]).id != (
                        #[trigger] self.islands@[j2].agents@[i2]).id by {
                            let a = self.islands@[j1].agents@[i1];
                            let b = self.islands@[j2].agents@[i2];
                            assert(b == round0[j2].agents@[i2]);
                            if has_id(pre_step.agents@, a.id) {
                                let w = choose|w: int|
                                    0 <= w < pre_step.agents@.len() && (
                                    #[trigger] pre_step.agents@[w]).id == a.id;
                                assert(round0[j1].agents@[w].id == a.id);
                            } else {
                                assert(a.id.island == j && a.id.seq
                                    > round0[j as int].last_agent_id);
                            }
                        }
                        assert forall|i1: int, i2: int|
                            0 <= i1 < self.islands@[j1].agents@.len() && 0 <= i2
                                < self.islands@[j2].migration_queue@.len() implies (
                        #[trigger] self.islands@[j1].agents@[i1]).id != (
                        #[trigger] self.islands@[j2].migration_queue@[i2]).id by {
                            let a = self.islands@[j1].agents@[i1];
                            let b = self.islands@[j2].migration_queue@[i2];
                            assert(b == round0[j2].migration_queue@[i2]);
                            if has_id(pre_step.agents@, a.id) {
                                let w = choose|w: int|
                                    0 <= w < pre_step.agents@.len() && (
                                    #[trigger] pre_step.agents@[w]).id == a.id;
                                assert(round0[j1].agents@[w].id == a.id);
                            } else {
                                assert(a.id.island == j && a.id.seq
                                    > round0[j as int].last_agent_id);
                            }
                        }
                    }
                    if j2 == j {
                        assert forall|i1: int, i2: int|
                            0 <= i1 < self.islands@[j1].agents@.len() && 0 <= i2
                                < self.islands@[j2].agents@.len() implies (
                        #[trigger] self.islands@[j1].agents@[i1]).id != (
                        #[trigger] self.islands@[j2].agents@[i2]).id by {
                            let a = self.islands@[j2].agents@[i2];
                            let b = self.islands@[j1].agents@[i1];
                            assert(b == round0[j1].agents@[i1]);
                            if has_id(pre_step.agents@, a.id) {
                                let w = choose|w: int|
                                    0 <= w < pre_step.agents@.len() && (
                                    #[trigger] pre_step.agents@[w]).id == a.id;
                                assert(round0[j2].agents@[w].id == a.id);
                            } else {
                                assert(a.id.island == j && a.id.seq
                                    > round0[j as int].last_agent_id);
                            }
                        }
                        assert forall|i1: int, i2: int|
                            0 <= i1 < self.islands@[j1].migration_queue@.len() && 0 <= i2
                                < self.islands@[j2].agents@.len() implies (
                        #[trigger] self.islands@[j1].migration_queue@[i1]).id != (
                        #[trigger] self.islands@[j2].agents@[i2]).id by {
                            let a = self.islands@[j2].agents@[i2];
                            let b = self.islands@[j1].migration_queue@[i1];
                            assert(b == round0[j1].migration_queue@[i1]);
                            if has_id(pre_step.agents@, a.id) {
                                let w = choose|w: int|
                                    0 <= w < pre_step.agents@.len() && (
                                    #[trigger] pre_step.agents@[w]).id == a.id;
                                assert(round0[j2].agents@[w].id == a.id);
                            } else {
                                assert(a.id.island == j && a.id.seq
                                    > round0[j as int].last_agent_id);
                            }
                        }
                    }
                }
            }
            j = j + 1;
        }
        if step_index % self.migration_steps == 0 && self.islands.len() >= 2 {
            let ghost mig0: Seq<Island> = self.islands@;
            let mut j: usize = 0;
            while j < n
                invariant
                    j <= n,
                    n == self.islands@.len(),
                    n == orig.len(),
                    n >= 2,
                    old(self).wf(),
                    self.wf(),
                    self.steps == old(self).steps,
                    self.energy_reproduction_share == old(self).energy_reproduction_share,
                    self.energy_combat == old(self).energy_combat,
                    self.migration_steps == old(self).migration_steps,
                    self.migrations_best_amount == old(self).migrations_best_amount,
                    self.migrations_elite_amount == old(self).migrations_elite_amount,
                    self.log_steps == old(self).log_steps,
                    self.logs@ == old(self).logs@,
                    sys_energy(self.islands@) == sys_energy(mig0),
                    sys_energy(mig0) == sys_energy(orig),
                    forall|jj: int|
                        0 <= jj < n ==> (#[trigger] self.islands@[jj]).historical_best
                            == mig0[jj].historical_best,
                    forall|jj: int|
                        0 <= jj < n ==> (#[trigger] mig0[jj]).historical_best.fitness
                            <= orig[jj].historical_best.fitness,
                decreases n - j,
            {
                let ghost round0: Seq<Island> = self.islands@;
                let best_amount: usize = self.migrations_best_amount;
                let elite_amount: usize = self.migrations_elite_amount;
                let mut isl: Island = self.islands.remove(j);
                let ghost pre_mig: Island = isl;
                isl.step_migrations::<F, RS>(best_amount, elite_amount, rng);
                self.islands.insert(j, isl);
                proof {
                    assert(self.islands@ =~= round0.update(j as int, isl));
                    lemma_sys_energy_update(round0, j as int, isl);
                    assert(pre_mig == round0[j as int]);
                    assert forall|jj: int, k: int|
                        0 <= jj < n && 0 <= k < self.islands@[jj].agents@.len() implies
                        round0[jj].agents@.contains(#[trigger] self.islands@[jj].agents@[k]) by {
                        if jj != j {
                            assert(self.islands@[jj].agents@[k] == round0[jj].agents@[k]);
                        }
                    }
                    assert forall|jj: int, k: int|
                        0 <= jj < n && 0 <= k < self.islands@[jj].migration_queue@.len() implies
                        round0[jj].migration_queue@.contains(
                            #[trigger] self.islands@[jj].migration_queue@[k],
                        ) || round0[jj].agents@.contains(
                            self.islands@[jj].migration_queue@[k],
                        ) by {
                        if jj != j {
                            assert(self.islands@[jj].migration_queue@[k]
                                == round0[jj].migration_queue@[k]);
                        } else {
                            if k < pre_mig.migration_queue@.len() {
                                assert(isl.migration_queue@.subrange(
                                    0,
                                    pre_mig.migration_queue@.len() as int,
                                )[k] == isl.migration_queue@[k]);
                                assert(self.islands@[jj].migration_queue@[k]
                                    == round0[jj].migration_queue@[k]);
                            }
                        }
                    }
                    assert(self.wf()) by {
                        assert forall|j1: int, j2: int|
                            0 <= j1 < n && 0 <= j2 < n && j1 != j2 implies disjoint_ids(
                            (#[trigger] self.islands@[j1]).agents@,
                            (#[trigger] self.islands@[j2]).agents@,
                        ) && disjoint_ids(
                            self.islands@[j1].agents@,
                            self.islands@[j2].migration_queue@,
                        ) && disjoint_ids(
                            self.islands@[j1].migration_queue@,
                            self.islands@[j2].agents@,
                        ) && disjoint_ids(
                            self.islands@[j1].migration_queue@,
                            self.islands@[j2].migration_queue@,
                        ) by {
                            assert(disjoint_ids(round0[j1].agents@, round0[j2].agents@));
                            assert(disjoint_ids(
                                round0[j1].agents@,
                                round0[j2].migration_queue@,
                            ));
                            assert(disjoint_ids(
                                round0[j1].migration_queue@,
                                round0[j2].agents@,
                            ));
                            assert(disjoint_ids(
                                round0[j1].migration_queue@,
                                round0[j2].migration_queue@,
                            ));
                            assert forall|i1: int, i2: int|
                                0 <= i1 < self.islands@[j1].agents@.len() && 0 <= i2
                                    < self.islands@[j2].agents@.len() implies (
                            #[trigger] self.islands@[j1].agents@[i1]).id != (
                            #[trigger] self.islands@[j2].agents@[i2]).id by {
                                let w1 = choose|w: int|
                                    0 <= w < round0[j1].agents@.len() && round0[j1].agents@[w]
                                        == self.islands@[j1].agents@[i1];
                                let w2 = choose|w: int|
                                    0 <= w < round0[j2].agents@.len() && round0[j2].agents@[w]
                                        == self.islands@[j2].agents@[i2];
                                assert(round0[j1].agents@[w1].id
                                    != round0[j2].agents@[w2].id);
                            }
                            assert forall|i1: int, i2: int|
                                0 <= i1 < self.islands@[j1].agents@.len() && 0 <= i2
                                    < self.islands@[j2].migration_queue@.len() implies (
                            #[trigger] self.islands@[j1].agents@[i1]).id != (
                            #[trigger] self.islands@[j2].migration_queue@[i2]).id by {
                                let w1 = choose|w: int|
                                    0 <= w < round0[j1].agents@.len() && round0[j1].agents@[w]
                                        == self.islands@[j1].agents@[i1];
                                if round0[j2].migration_queue@.contains(
                                    self.islands@[j2].migration_queue@[i2],
                                ) {
                                    let w2 = choose|w: int|
                                        0 <= w < round0[j2].migration_queue@.len()
                                            && round0[j2].migration_queue@[w]
                                            == self.islands@[j2].migration_queue@[i2];
                                    assert(round0[j1].agents@[w1].id
                                        != round0[j2].migration_queue@[w2].id);
                                } else {
                                    let w2 = choose|w: int|
                                        0 <= w < round0[j2].agents@.len()
                                            && round0[j2].agents@[w]
                                            == self.islands@[j2].migration_queue@[i2];
                                    assert(round0[j1].agents@[w1].id
                                        != round0[j2].agents@[w2].id);
                                }
                            }
                            assert forall|i1: int, i2: int|
                                0 <= i1 < self.islands@[j1].migration_queue@.len() && 0 <= i2
                                    < self.islands@[j2].migration_queue@.len() implies (
                            #[trigger] self.islands@[j1].migration_queue@[i1]).id != (
                            #[trigger] self.islands@[j2].migration_queue@[i2]).id by {
                                let s1 = self.islands@[j1].migration_queue@[i1];
                                let s2 = self.islands@[j2].migration_queue@[i2];
                                if round0[j1].migration_queue@.contains(s1) {
                                    let w1 = choose|w: int|
                                        0 <= w < round0[j1].migration_queue@.len()
                                            && round0[j1].migration_queue@[w] == s1;
                                    if round0[j2].migration_queue@.contains(s2) {
                                        let w2 = choose|w: int|
                                            0 <= w < round0[j2].migration_queue@.len()
                                                && round0[j2].migration_queue@[w] == s2;
                                        assert(round0[j1].migration_queue@[w1].id
                                            != round0[j2].migration_queue@[w2].id);
                                    } else {
                                        let w2 = choose|w: int|
                                            0 <= w < round0[j2].agents@.len()
                                                && round0[j2].agents@[w] == s2;
                                        assert(round0[j1].migration_queue@[w1].id
                                            != round0[j2].agents@[w2].id);
                                    }
                                } else {
                                    let w1 = choose|w: int|
                                        0 <= w < round0[j1].agents@.len()
                                            && round0[j1].agents@[w] == s1;
                                    if round0[j2].migration_queue@.contains(s2) {
                                        let w2 = choose|w: int|
                                            0 <= w < round0[j2].migration_queue@.len()
                                                && round0[j2].migration_queue@[w] == s2;
                                        assert(round0[j1].agents@[w1].id
                                            != round0[j2].migration_queue@[w2].id);
                                    } else {
                                        let w2 = choose|w: int|
                                            0 <= w < round0[j2].agents@.len()
                                                && round0[j2].agents@[w] == s2;
                                        assert(round0[j1].agents@[w1].id
                                            != round0[j2].agents@[w2].id);
                                    }
                                }
                            }
                        }
                        assert forall|jj: int, k: int|
                            0 <= jj < n && 0 <= k < self.islands@[jj].agents@.len() implies (
                        #[trigger] self.islands@[jj].agents@[k]).id.island < n
                            && self.islands@[jj].agents@[k].id.seq
                            <= self.islands@[self.islands@[jj].agents@[k].id.island as int]
                            .last_agent_id by {
                            let w = choose|w: int|
                                0 <= w < round0[jj].agents@.len() && round0[jj].agents@[w]
                                    == self.islands@[jj].agents@[k];
                        }
                        assert forall|jj: int, k: int|
                            0 <= jj < n && 0 <= k < self.islands@[jj].migration_queue@.len()
                            implies (#[trigger] self.islands@[jj].migration_queue@[k]).id.island
                            < n && self.islands@[jj].migration_queue@[k].id.seq
                            <= self.islands@[self.islands@[jj].migration_queue@[k].id.island
                            as int].last_agent_id by {
                            let s1 = self.islands@[jj].migration_queue@[k];
                            if round0[jj].migration_queue@.contains(s1) {
                                let w = choose|w: int|
                                    0 <= w < round0[jj].migration_queue@.len()
                                        && round0[jj].migration_queue@[w] == s1;
                            } else {
                                let w = choose|w: int|
                                    0 <= w < round0[jj].agents@.len() && round0[jj].agents@[w]
                                        == s1;
                            }
                        }
                        assert forall|jj: int|
                            0 <= jj < n implies all_positive(
                            (#[trigger] self.islands@[jj]).agents@,
                        ) && all_positive(self.islands@[jj].migration_queue@) by {
                            assert(all_positive(round0[jj].agents@));
                            assert(all_positive(round0[jj].migration_queue@));
                            assert forall|k: int|
                                0 <= k < self.islands@[jj].agents@.len() implies (
                            #[trigger] self.islands@[jj].agents@[k]).energy >= 1 by {
                                let w = choose|w: int|
                                    0 <= w < round0[jj].agents@.len() && round0[jj].agents@[w]
                                        == self.islands@[jj].agents@[k];
                            }
                            assert forall|k: int|
                                0 <= k < self.islands@[jj].migration_queue@.len() implies (
                            #[trigger] self.islands@[jj].migration_queue@[k]).energy >= 1 by {
                                let s1 = self.islands@[jj].migration_queue@[k];
                                if round0[jj].migration_queue@.contains(s1) {
                                    let w = choose|w: int|
                                        0 <= w < round0[jj].migration_queue@.len()
                                            && round0[jj].migration_queue@[w] == s1;
                                } else {
                                    let w = choose|w: int|
                                        0 <= w < round0[jj].agents@.len()
                                            && round0[jj].agents@[w] == s1;
                                }
                            }
                        }
                    }
                }
                j = j + 1;
            }
            self.migrate_agents::<RS>(rng);
        }
        if step_index % self.log_steps == 0 {
            self.log(elapsed_ms);
            proof {
                assert(final(self).logs@.subrange(0, old(self).logs@.len() as int)
                    =~= old(self).logs@);
            }
        }
    }

    /// The whole run: `steps` ticks, stepping every island each tick,
    /// migrating and logging on their cadences, then the best solution
    /// found. No island's best snapshot ever regresses, the system's energy
    /// at the end is exactly what it started with, and exactly one record
    /// per log tick is appended after the old records.
    pub fn run<RS: RandomSource, CL: RunClock>(&mut self, rng: &mut RS, clock: &mut CL) -> (best:
        Vec<i64>)
        requires
            old(self).wf(),
        ensures
            final(self).wf(),
            final(self).islands@.len() == old(self).islands@.len(),
            sys_energy(final(self).islands@) == sys_energy(old(self).islands@),
            forall|jj: int|
                0 <= jj < final(self).islands@.len() ==> (#[trigger] final(self).islands@[jj])
                    .historical_best.fitness
                    <= old(self).islands@[jj].historical_best.fitness,
            genes_within(F::spec_domain(), best@),
            exists|j: int|
                0 <= j < final(self).islands@.len() && best@ == (
                #[trigger] final(self).islands@[j]).historical_best.genes@ && (forall|k: int|
                    0 <= k < final(self).islands@.len()
                        ==> final(self).islands@[j].historical_best.fitness <= (
                    #[trigger] final(self).islands@[k]).historical_best.fitness),
            final(self).logs@.len() == old(self).logs@.len() + logs_due(
                old(self).steps as int,
                old(self).log_steps as int,
            ),
            final(self).logs@.subrange(0, old(self).logs@.len() as int) == old(self).logs@,
    {
        let total: u32 = self.steps;
        let mut i: u32 = 0;
        while i < total
            invariant
                i <= total,
                total == old(self).steps,
                old(self).wf(),
                self.wf(),
                self.log_steps == old(self).log_steps,
                self.islands@.len() == old(self).islands@.len(),
                sys_energy(self.islands@) == sys_energy(old(self).islands@),
                forall|jj: int|
                    0 <= jj < self.islands@.len() ==> (#[trigger] self.islands@[jj])
                        .historical_best.fitness
                        <= old(self).islands@[jj].historical_best.fitness,
                self.logs@.len() == old(self).logs@.len() + logs_due(
                    i as int,
                    old(self).log_steps as int,
                ),
                self.logs@.subrange(0, old(self).logs@.len() as int) == old(self).logs@,
            decreases total - i,
        {
            let ghost pre: Seq<Island> = self.islands@;
            let ghost pre_logs: Seq<LogRecord> = self.logs@;
            let elapsed: u64 = clock.elapsed_ms();
            self.tick::<RS>(i, elapsed, rng);
            proof {
                assert forall|jj: int|
                    0 <= jj < self.islands@.len() implies (#[trigger] self.islands@[jj])
                    .historical_best.fitness
                    <= old(self).islands@[jj].historical_best.fitness by {
                    assert(self.islands@[jj].historical_best.fitness
                        <= pre[jj].historical_best.fitness);
                }
                lemma_logs_due_nonneg(i as int, old(self).log_steps as int);
                assert(pre_logs.len() >= old(self).logs@.len());
                assert forall|x: int|
                    0 <= x < old(self).logs@.len() implies #[trigger] self.logs@[x]
                    == old(self).logs@[x] by {
                    assert(self.logs@.subrange(0, pre_logs.len() as int) == pre_logs);
                    assert(self.logs@.subrange(0, pre_logs.len() as int)[x] == self.logs@[x]);
                    assert(pre_logs.subrange(0, old(self).logs@.len() as int)[x] == pre_logs[x]);
                }
                assert(self.logs@.subrange(0, old(self).logs@.len() as int) =~= old(self).logs@);
            }
            i = i + 1;
        }
        self.best_sol()
    }
}

/// Total energy carried by a batch of routed emigrants.
pub open spec fn batch_energy(s: Seq<(usize, Agent)>) -> int
    decreases s.len(),
{
    if s.len() == 0 {
        0
    } else {
        batch_energy(s.drop_last()) + s.last().1.energy
    }
}

/// Batch energies are sums of agent energies, so never negative.
pub proof fn lemma_batch_energy_nonneg(s: Seq<(usize, Agent)>)
    ensures
        batch_energy(s) >= 0,
    decreases s.len(),
{
    if s.len() > 0 {
        lemma_batch_energy_nonneg(s.drop_last());
    }
}

/// Dropping the last routed emigrant drops exactly its energy.
pub proof fn lemma_batch_energy_last(s: Seq<(usize, Agent)>)
    requires
        s.len() > 0,
    ensures
        batch_energy(s.subrange(0, s.len() - 1)) == batch_energy(s) - s.last().1.energy,
{
    assert(s.subrange(0, s.len() - 1) =~= s.drop_last());
}

/// The best snapshot of a well-formed island is consistent with `F`.
pub open spec fn agent_ok_for_hb<F: FitnessFn>(isl: Island) -> bool {
    crate::agent::agent_ok::<F>(isl.historical_best)
}

/// A prefix's energy plus one unit per remaining agent stays within the
/// population's total, when every agent holds energy.
pub proof fn lemma_energy_suffix(pop: Seq<Agent>, k: int)
    requires
        0 <= k < pop.len(),
        all_positive(pop),
        energy_sum(pop.subrange(0, k)) + (pop.len() - k) <= energy_sum(pop),
    ensures
        energy_sum(pop.subrange(0, k + 1)) + (pop.len() - (k + 1)) <= energy_sum(pop),
        energy_sum(pop.subrange(0, k)) + pop[k].energy <= energy_sum(pop),
{
    assert(pop.subrange(0, k + 1).drop_last() =~= pop.subrange(0, k));
    assert(energy_sum(pop.subrange(0, k + 1)) == energy_sum(pop.subrange(0, k)) + pop[k].energy);
    lemma_energy_prefix_remaining(pop, k + 1);
}

/// The energy of a prefix plus one unit per remaining positive-energy agent
/// is at most the whole population's energy.
pub proof fn lemma_energy_prefix_remaining(pop: Seq<Agent>, k: int)
    requires
        0 <= k <= pop.len(),
        all_positive(pop),
    ensures
        energy_sum(pop.subrange(0, k)) + (pop.len() - k) <= energy_sum(pop),
    decreases pop.len() - k,
{
    if k == pop.len() {
        assert(pop.subrange(0, k) =~= pop);
    } else {
        lemma_energy_prefix_remaining(pop, k + 1);
        assert(pop.subrange(0, k + 1).drop_last() =~= pop.subrange(0, k));
        assert(energy_sum(pop.subrange(0, k + 1)) == energy_sum(pop.subrange(0, k))
            + pop[k].energy);
    }
}

/// One island's population energy is within the system bound.
pub proof fn lemma_island_energy_bound(islands: Seq<Island>, j: int)
    requires
        0 <= j < islands.len(),
        sys_energy(islands) <= u32::MAX,
    ensures
        pop_energy(islands.subrange(0, j)) + energy_sum(islands[j].agents@) <= u32::MAX,
    decreases islands.len(),
{
    lemma_pop_energy_le_sys(islands, j + 1);
    assert(islands.subrange(0, j + 1).drop_last() =~= islands.subrange(0, j));
    crate::agent::lemma_energy_sum_nonneg(islands[j].migration_queue@);
}

/// The populations of a prefix of islands hold at most the system's energy.
pub proof fn lemma_pop_energy_le_sys(islands: Seq<Island>, j: int)
    requires
        0 <= j <= islands.len(),
    ensures
        pop_energy(islands.subrange(0, j)) <= sys_energy(islands),
    decreases islands.len(), islands.len() - j,
{
    if j == islands.len() {
        if islands.len() == 0 {
            assert(islands.subrange(0, j) =~= islands);
        } else {
            assert(islands.subrange(0, j) =~= islands);
            lemma_pop_le_sys_whole(islands);
        }
    } else {
        lemma_pop_energy_le_sys(islands, j + 1);
        assert(islands.subrange(0, j + 1).drop_last() =~= islands.subrange(0, j));
        crate::agent::lemma_energy_sum_nonneg(islands[j].agents@);
    }
}

/// Population energy never exceeds total energy, island by island.
pub proof fn lemma_pop_le_sys_whole(islands: Seq<Island>)
    ensures
        pop_energy(islands) <= sys_energy(islands),
    decreases islands.len(),
{
    if islands.len() > 0 {
        lemma_pop_le_sys_whole(islands.drop_last());
        crate::agent::lemma_energy_sum_nonneg(islands.last().migration_queue@);
    }
}

/// Bounds for a population's fitness sum, one step at a time.
pub proof fn lemma_fitness_sum_bounds(s: Seq<Agent>)
    ensures
        fitness_sum(s) <= s.len() * (i64::MAX as int),
        fitness_sum(s) >= s.len() * (i64::MIN as int),
    decreases s.len(),
{
    if s.len() > 0 {
        lemma_fitness_sum_bounds(s.drop_last());
        assert(s.len() * (i64::MAX as int) == (s.len() - 1) * (i64::MAX as int) + i64::MAX)
            by (nonlinear_arith);
        assert(s.len() * (i64::MIN as int) == (s.len() - 1) * (i64::MIN as int) + i64::MIN)
            by (nonlinear_arith);
    }
}

} // verus!
