//! Agents: one candidate solution (a gene vector), its cached fitness, its
//! energy budget and its identity. The genetic operators — random
//! initialization, crossover reproduction, mutation, combat — live here,
//! with exact energy accounting in their contracts.

use vstd::prelude::*;
use crate::chances::{CHANCE_SCALE, CombatWinChanceFn, ReproductionChanceFn};
use crate::domain::{GeneBound, domain_wf, genes_within, clamp_gene};
use crate::fitness::FitnessFn;
use crate::rng::RandomSource;

verus! {

/// Identity of an agent: the island it was born on and a per-island sequence
/// number. Sequence numbers are minted by a monotone counter and never
/// reused, so the pair is unique across the whole run for all time.
#[derive(Clone, Copy, PartialEq, Eq, Structural, Debug)]
pub struct AgentId {
    pub island: usize,
    pub seq: u64,
}

/// What an agent chooses to attempt in one step.
#[derive(Clone, Copy, PartialEq, Eq, Structural, Debug)]
pub enum Action {
    Combat,
    Reproduce,
}

/// Scale of the energy share passed from parent to offspring:
/// `ENERGY_SHARE_SCALE` means the parent's whole energy.
pub const ENERGY_SHARE_SCALE: u32 = 1_000_000;

/// Chance, on the `CHANCE_SCALE`, that one gene is mutated during
/// reproduction; the full scale means every gene is always mutated.
pub const GENE_MUTATION_CHANCE: u32 = CHANCE_SCALE;

/// One candidate solution with its energy and identity.
#[derive(Debug)]
pub struct Agent {
    pub genes: Vec<i64>,
    pub energy: u32,
    pub id: AgentId,
    pub fitness: i64,
}

/// An agent is consistent with strategy `F` when its genes lie in the
/// strategy's domain and its cached fitness equals the strategy's cost of
/// those genes — the cache is never stale.
pub open spec fn agent_ok<F: FitnessFn>(a: Agent) -> bool {
    &&& genes_within(F::spec_domain(), a.genes@)
    &&& a.fitness == F::spec_fitness(a.genes@)
}

/// The energy share a parent withholds for its offspring: the floor of
/// `energy * share / ENERGY_SHARE_SCALE`.
pub open spec fn withheld_energy(energy: u32, share: u32) -> int {
    (energy * share) / (ENERGY_SHARE_SCALE as int)
}

/// The energy that actually moves in a combat with transfer amount `amount`:
/// capped so the loser cannot go negative.
pub open spec fn capped_transfer(amount: u32, loser_energy: u32) -> int {
    if amount <= loser_energy {
        amount as int
    } else {
        loser_energy as int
    }
}

/// Total energy of a population, as a mathematical sum.
pub open spec fn energy_sum(s: Seq<Agent>) -> int
    decreases s.len(),
{
    if s.len() == 0 {
        0
    } else {
        energy_sum(s.drop_last()) + s.last().energy
    }
}

/// Energy sums are never negative.
pub proof fn lemma_energy_sum_nonneg(s: Seq<Agent>)
    ensures
        energy_sum(s) >= 0,
    decreases s.len(),
{
    if s.len() > 0 {
        lemma_energy_sum_nonneg(s.drop_last());
    }
}

/// Appending one agent adds exactly its energy to the sum.
pub proof fn lemma_energy_sum_push(s: Seq<Agent>, a: Agent)
    ensures
        energy_sum(s.push(a)) == energy_sum(s) + a.energy,
{
    assert(s.push(a).drop_last() =~= s);
}

/// Removing one agent subtracts exactly its energy from the sum.
pub proof fn lemma_energy_sum_remove(s: Seq<Agent>, i: int)
    requires
        0 <= i < s.len(),
    ensures
        energy_sum(s.remove(i)) == energy_sum(s) - s[i].energy,
    decreases s.len(),
{
    if i == s.len() - 1 {
        assert(s.remove(i) =~= s.drop_last());
    } else {
        assert(s.remove(i).drop_last() =~= s.drop_last().remove(i));
        assert(s.remove(i).last() == s.last());
        lemma_energy_sum_remove(s.drop_last(), i);
    }
}

/// Replacing one agent shifts the sum by exactly the energy difference.
pub proof fn lemma_energy_sum_update(s: Seq<Agent>, i: int, a: Agent)
    requires
        0 <= i < s.len(),
    ensures
        energy_sum(s.update(i, a)) == energy_sum(s) - s[i].energy + a.energy,
    decreases s.len(),
{
    if i == s.len() - 1 {
        assert(s.update(i, a).drop_last() =~= s.drop_last());
        assert(s.update(i, a).last() == a);
    } else {
        assert(s.update(i, a).drop_last() =~= s.drop_last().update(i, a));
        assert(s.update(i, a).last() == s.last());
        lemma_energy_sum_update(s.drop_last(), i, a);
    }
}

/// Two distinct agents together hold at most the population's sum.
pub proof fn lemma_energy_sum_pair(s: Seq<Agent>, i: int, j: int)
    requires
        0 <= i < s.len(),
        0 <= j < s.len(),
        i != j,
    ensures
        s[i].energy + s[j].energy <= energy_sum(s),
{
    lemma_energy_sum_remove(s, i);
    let r = s.remove(i);
    let jr = if j < i {
        j
    } else {
        j - 1
    };
    assert(r[jr] == s[j]) by {
        s.remove_ensures(i);
    }
    lemma_energy_sum_element(r, jr);
}

/// No single agent holds more energy than the whole population's sum.
pub proof fn lemma_energy_sum_element(s: Seq<Agent>, i: int)
    requires
        0 <= i < s.len(),
    ensures
        s[i].energy <= energy_sum(s),
{
    lemma_energy_sum_remove(s, i);
    lemma_energy_sum_nonneg(s.remove(i));
}

impl Agent {
    /// An independent copy, field for field.
    pub fn snapshot(&self) -> (r: Agent)
        ensures
            r.genes@ == self.genes@,
            r.energy == self.energy,
            r.id == self.id,
            r.fitness == self.fitness,
    {
        let mut genes: Vec<i64> = Vec::new();
        let mut i: usize = 0;
        while i < self.genes.len()
            invariant
                i <= self.genes.len(),
                genes@ =~= self.genes@.subrange(0, i as int),
            decreases self.genes.len() - i,
        {
            genes.push(self.genes[i]);
            i = i + 1;
        }
        proof {
            assert(genes@ =~= self.genes@);
        }
        Agent { genes, energy: self.energy, id: self.id, fitness: self.fitness }
    }

    /// A freshly drawn agent: each gene uniform in its dimension's interval,
    /// energy as given, fitness computed from the genes.
    pub fn rand_agent<F: FitnessFn, RS: RandomSource>(
        starting_energy: u32,
        id: AgentId,
        rng: &mut RS,
    ) -> (a: Agent)
        requires
            domain_wf(F::spec_domain()),
        ensures
            agent_ok::<F>(a),
            a.energy == starting_energy,
            a.id == id,
    {
        let dom: Vec<GeneBound> = F::domain();
        let mut genes: Vec<i64> = Vec::new();
        let mut i: usize = 0;
        while i < dom.len()
            invariant
                i <= dom.len(),
                dom@ == F::spec_domain(),
                domain_wf(F::spec_domain()),
                genes@.len() == i,
                forall|t: int|
                    0 <= t < i ==> dom@[t].min <= #[trigger] genes@[t] <= dom@[t].max,
            decreases dom.len() - i,
        {
            let b: GeneBound = dom[i];
            assert(b.wf());
            let g: i64 = rng.next_gene(b.min, b.max);
            genes.push(g);
            i = i + 1;
        }
        let fitness: i64 = F::call(&genes);
        Agent { genes, energy: starting_energy, id, fitness }
    }

    /// Mutate every gene (each with `GENE_MUTATION_CHANCE`): add or subtract
    /// a uniform offset of at most a twentieth of the dimension's width, then
    /// clamp back into the dimension's interval. Recomputes the fitness, so
    /// the cache stays consistent.
    pub fn mutate<F: FitnessFn, RS: RandomSource>(&mut self, rng: &mut RS)
        requires
            domain_wf(F::spec_domain()),
            genes_within(F::spec_domain(), old(self).genes@),
        ensures
            agent_ok::<F>(*final(self)),
            final(self).genes@.len() == old(self).genes@.len(),
            final(self).energy == old(self).energy,
            final(self).id == old(self).id,
            forall|t: int|
                0 <= t < old(self).genes@.len() ==> old(self).genes@[t] - (F::spec_domain()[t].max
                    - F::spec_domain()[t].min) / 20 <= #[trigger] final(self).genes@[t]
                    <= old(self).genes@[t] + (F::spec_domain()[t].max
                    - F::spec_domain()[t].min) / 20,
    {
        let dom: Vec<GeneBound> = F::domain();
        let mut i: usize = 0;
        while i < dom.len()
            invariant
                i <= dom.len(),
                dom@ == F::spec_domain(),
                domain_wf(F::spec_domain()),
                genes_within(F::spec_domain(), self.genes@),
                self.energy == old(self).energy,
                self.id == old(self).id,
                self.fitness == old(self).fitness,
                self.genes@.len() == old(self).genes@.len(),
                forall|t: int|
                    i <= t < self.genes@.len() ==> #[trigger] self.genes@[t]
                        == old(self).genes@[t],
                forall|t: int|
                    0 <= t < i ==> old(self).genes@[t] - (F::spec_domain()[t].max
                        - F::spec_domain()[t].min) / 20 <= #[trigger] self.genes@[t]
                        <= old(self).genes@[t] + (F::spec_domain()[t].max
                        - F::spec_domain()[t].min) / 20,
            decreases dom.len() - i,
        {
            let roll: u32 = rng.next_chance();
            if roll < GENE_MUTATION_CHANCE {
                let b: GeneBound = dom[i];
                assert(b.wf());
                let width: i64 = b.max - b.min;
                let offset: i64 = rng.next_gene(0, width / 20);
                let sign_up: bool = rng.next_coin();
                let g: i64 = self.genes[i];
                let moved: i64 = if sign_up {
                    g + offset
                } else {
                    g - offset
                };
                let clamped: i64 = clamp_gene(moved, b);
                proof {
                    assert(g == old(self).genes@[i as int]);
                    assert(b.min <= g <= b.max);
                    // clamping moves the gene towards its interval, never
                    // further from where it started than the drawn offset
                    assert(g - width / 20 <= clamped <= g + width / 20);
                }
                self.genes.set(i, clamped);
            }
            i = i + 1;
        }
        let fitness: i64 = F::call(&self.genes);
        self.fitness = fitness;
    }

    /// Single-point crossover of the parents' genes: the child takes `left`'s
    /// genes before the cut and `right`'s genes from the cut on.
    fn crossover(left: &Vec<i64>, right: &Vec<i64>, cut: usize) -> (genes: Vec<i64>)
        requires
            left@.len() == right@.len(),
            cut <= left@.len(),
        ensures
            genes@.len() == left@.len(),
            forall|t: int| 0 <= t < cut ==> #[trigger] genes@[t] == left@[t],
            forall|t: int| cut <= t < genes@.len() ==> #[trigger] genes@[t] == right@[t],
    {
        let mut genes: Vec<i64> = Vec::new();
        let mut i: usize = 0;
        while i < left.len()
            invariant
                i <= left@.len(),
                left@.len() == right@.len(),
                cut <= left@.len(),
                genes@.len() == i,
                forall|t: int| 0 <= t < i && t < cut ==> #[trigger] genes@[t] == left@[t],
                forall|t: int| cut <= t < i ==> #[trigger] genes@[t] == right@[t],
            decreases left.len() - i,
        {
            if i < cut {
                genes.push(left[i]);
            } else {
                genes.push(right[i]);
            }
            i = i + 1;
        }
        genes
    }

    /// Reproduction. Each parent is taxed the floor of `share` of its energy;
    /// the two taxes are pooled and split between the two children, the
    /// second child taking the rounding surplus — so the children's combined
    /// energy equals exactly what the parents gave up. Genes come from
    /// single-point crossover at a uniform cut, then each child is mutated.
    pub fn reproduce<F: FitnessFn, RS: RandomSource>(
        &mut self,
        other: &mut Agent,
        share: u32,
        ch1_id: AgentId,
        ch2_id: AgentId,
        rng: &mut RS,
    ) -> (children: (Agent, Agent))
        requires
            domain_wf(F::spec_domain()),
            genes_within(F::spec_domain(), old(self).genes@),
            genes_within(F::spec_domain(), old(other).genes@),
            share <= ENERGY_SHARE_SCALE,
            old(self).energy + old(other).energy <= u32::MAX,
        ensures
            final(self).energy == old(self).energy - withheld_energy(old(self).energy, share),
            final(other).energy == old(other).energy - withheld_energy(old(other).energy, share),
            final(self).genes@ == old(self).genes@,
            final(other).genes@ == old(other).genes@,
            final(self).id == old(self).id,
            final(other).id == old(other).id,
            final(self).fitness == old(self).fitness,
            final(other).fitness == old(other).fitness,
            children.0.energy + children.1.energy == withheld_energy(old(self).energy, share)
                + withheld_energy(old(other).energy, share),
            children.0.energy == (withheld_energy(old(self).energy, share) + withheld_energy(
                old(other).energy,
                share,
            )) / 2,
            children.0.id == ch1_id,
            children.1.id == ch2_id,
            agent_ok::<F>(children.0),
            agent_ok::<F>(children.1),
    {
        let par1: u32 = withhold(self.energy, share);
        let par2: u32 = withhold(other.energy, share);
        self.energy = self.energy - par1;
        other.energy = other.energy - par2;
        let pool: u32 = par1 + par2;
        let e1: u32 = pool / 2;
        let e2: u32 = pool - e1;

        let cut: usize = rng.next_below(self.genes.len());
        let g1: Vec<i64> = Self::crossover(&self.genes, &other.genes, cut);
        let g2: Vec<i64> = Self::crossover(&other.genes, &self.genes, cut);
        let mut ch1: Agent = Agent { genes: g1, energy: e1, id: ch1_id, fitness: 0 };
        let mut ch2: Agent = Agent { genes: g2, energy: e2, id: ch2_id, fitness: 0 };
        ch1.mutate::<F, RS>(rng);
        ch2.mutate::<F, RS>(rng);
        (ch1, ch2)
    }

    /// One combat. A chance draw against the combat policy decides the
    /// winner; the winner takes `amount` energy from the loser, capped at
    /// what the loser has. Energy is transferred, never created: the pair's
    /// total is unchanged whichever way the draw goes.
    pub fn combat<C: CombatWinChanceFn, RS: RandomSource>(
        &mut self,
        other: &mut Agent,
        amount: u32,
        rng: &mut RS,
    )
        requires
            old(self).energy + old(other).energy <= u32::MAX,
        ensures
            final(self).energy + final(other).energy == old(self).energy + old(other).energy,
            final(self).genes@ == old(self).genes@ && final(self).id == old(self).id
                && final(self).fitness == old(self).fitness,
            final(other).genes@ == old(other).genes@ && final(other).id == old(other).id
                && final(other).fitness == old(other).fitness,
            (final(self).energy == old(self).energy + capped_transfer(amount, old(other).energy)
                && final(other).energy == old(other).energy - capped_transfer(
                amount,
                old(other).energy,
            )) || (final(other).energy == old(other).energy + capped_transfer(
                amount,
                old(self).energy,
            ) && final(self).energy == old(self).energy - capped_transfer(
                amount,
                old(self).energy,
            )),
    {
        let roll: u32 = rng.next_chance();
        let win_chance: u32 = C::call(self.fitness, other.fitness);
        if roll < win_chance {
            let moved: u32 = if amount <= other.energy {
                amount
            } else {
                other.energy
            };
            other.energy = other.energy - moved;
            self.energy = self.energy + moved;
        } else {
            let moved: u32 = if amount <= self.energy {
                amount
            } else {
                self.energy
            };
            self.energy = self.energy - moved;
            other.energy = other.energy + moved;
        }
    }

    /// Choose this step's action: a chance draw against the reproduction
    /// policy. A zero chance always gives combat; a full chance always gives
    /// reproduction.
    pub fn pick_action<R: ReproductionChanceFn, RS: RandomSource>(
        &self,
        rng: &mut RS,
    ) -> (action: Action)
        ensures
            R::spec_chance(self.energy) == 0 ==> action == Action::Combat,
            R::spec_chance(self.energy) >= CHANCE_SCALE ==> action == Action::Reproduce,
    {
        let roll: u32 = rng.next_chance();
        let chance: u32 = R::call(self.energy);
        if roll < chance {
            Action::Reproduce
        } else {
            Action::Combat
        }
    }
}

/// The floor of `energy * share / ENERGY_SHARE_SCALE`, computed exactly.
fn withhold(energy: u32, share: u32) -> (r: u32)
    requires
        share <= ENERGY_SHARE_SCALE,
    ensures
        r == withheld_energy(energy, share),
        r <= energy,
{
    proof {
        assert(energy * share <= u32::MAX * ENERGY_SHARE_SCALE) by (nonlinear_arith)
            requires
                0 <= energy <= u32::MAX,
                0 <= share <= ENERGY_SHARE_SCALE,
        ;
    }
    let wide: u64 = (energy as u64) * (share as u64) / (ENERGY_SHARE_SCALE as u64);
    proof {
        assert(energy * share <= energy * ENERGY_SHARE_SCALE) by (nonlinear_arith)
            requires
                share <= ENERGY_SHARE_SCALE,
                energy >= 0,
        ;
        assert((energy * share) / (ENERGY_SHARE_SCALE as int) <= (energy * ENERGY_SHARE_SCALE) / (
        ENERGY_SHARE_SCALE as int)) by (nonlinear_arith)
            requires
                energy * share <= energy * ENERGY_SHARE_SCALE,
        ;
        assert((energy * ENERGY_SHARE_SCALE) / (ENERGY_SHARE_SCALE as int) == energy as int)
            by (nonlinear_arith);
    }
    wide as u32
}

} // verus!
