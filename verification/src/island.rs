//! Islands: independently evolving populations. One step of one island
//! classifies every agent into reproduction or combat, executes the two
//! phases pairwise on a shuffled order, then removes the dead. Migration
//! support moves elites out into an outbox without copying them.

use vstd::prelude::*;
use vstd::multiset::Multiset;
use vstd::pervasive::unreached;
use crate::agent::{
    agent_ok, energy_sum, lemma_energy_sum_nonneg, lemma_energy_sum_pair,
    lemma_energy_sum_push, lemma_energy_sum_remove, lemma_energy_sum_update, withheld_energy,
    Action, Agent, AgentId, ENERGY_SHARE_SCALE,
};
use crate::chances::{CombatWinChanceFn, ReproductionChanceFn, CHANCE_SCALE};
use crate::domain::domain_wf;
use crate::fitness::FitnessFn;
use crate::rng::RandomSource;

verus! {

/// No two agents of the sequence share an identity.
pub open spec fn ids_distinct(s: Seq<Agent>) -> bool {
    forall|i: int, j: int|
        0 <= i < s.len() && 0 <= j < s.len() && i != j ==> (#[trigger] s[i]).id != (
        #[trigger] s[j]).id
}

/// No agent of `s1` shares an identity with an agent of `s2`.
pub open spec fn disjoint_ids(s1: Seq<Agent>, s2: Seq<Agent>) -> bool {
    forall|i: int, j: int|
        0 <= i < s1.len() && 0 <= j < s2.len() ==> (#[trigger] s1[i]).id != (#[trigger] s2[j]).id
}

/// Some agent of the sequence carries the identity `id`.
pub open spec fn has_id(s: Seq<Agent>, id: AgentId) -> bool {
    exists|k: int| 0 <= k < s.len() && (#[trigger] s[k]).id == id
}

/// Every agent of the sequence is consistent with strategy `F`.
pub open spec fn all_ok<F: FitnessFn>(s: Seq<Agent>) -> bool {
    forall|k: int| 0 <= k < s.len() ==> agent_ok::<F>(#[trigger] s[k])
}

/// Every agent born on island `island` has a sequence number the island's
/// counter has already covered — so a fresh mint collides with nobody.
pub open spec fn ids_bounded(s: Seq<Agent>, island: usize, last: u64) -> bool {
    forall|k: int|
        0 <= k < s.len() && (#[trigger] s[k]).id.island == island ==> s[k].id.seq <= last
}

/// The population without its dead: exactly the agents with positive energy,
/// in their original order.
pub open spec fn survivors(s: Seq<Agent>) -> Seq<Agent>
    decreases s.len(),
{
    if s.len() == 0 {
        s
    } else if s.last().energy == 0 {
        survivors(s.drop_last())
    } else {
        survivors(s.drop_last()).push(s.last())
    }
}

/// Survivors hold energy: that is what surviving means.
pub proof fn lemma_survivors_positive(s: Seq<Agent>)
    ensures
        forall|k: int| 0 <= k < survivors(s).len() ==> (#[trigger] survivors(s)[k]).energy >= 1,
    decreases s.len(),
{
    if s.len() > 0 {
        lemma_survivors_positive(s.drop_last());
        if s.last().energy != 0 {
            assert forall|k: int|
                0 <= k < survivors(s).len() implies (#[trigger] survivors(s)[k]).energy >= 1 by {
                if k < survivors(s).len() - 1 {
                    assert(survivors(s)[k] == survivors(s.drop_last())[k]);
                } else {
                    assert(survivors(s)[k] == s.last());
                }
            }
        }
    }
}

/// Every survivor is one of the original agents.
pub proof fn lemma_survivors_contained(s: Seq<Agent>)
    ensures
        forall|k: int|
            0 <= k < survivors(s).len() ==> s.contains(#[trigger] survivors(s)[k]),
        survivors(s).len() <= s.len(),
    decreases s.len(),
{
    if s.len() > 0 {
        lemma_survivors_contained(s.drop_last());
        assert(forall|k: int|
            0 <= k < s.drop_last().len() ==> s.contains(#[trigger] s.drop_last()[k]));
        assert(s.contains(s.last()));
    }
}

/// Removing the dead removes no energy: the dead hold none.
pub proof fn lemma_survivors_energy(s: Seq<Agent>)
    ensures
        energy_sum(survivors(s)) == energy_sum(s),
    decreases s.len(),
{
    if s.len() > 0 {
        lemma_survivors_energy(s.drop_last());
        if s.last().energy != 0 {
            lemma_energy_sum_push(survivors(s.drop_last()), s.last());
        }
    }
}

/// Removing the dead cannot create a duplicate identity.
pub proof fn lemma_survivors_distinct(s: Seq<Agent>)
    requires
        ids_distinct(s),
    ensures
        ids_distinct(survivors(s)),
    decreases s.len(),
{
    if s.len() > 0 {
        assert(ids_distinct(s.drop_last()));
        lemma_survivors_distinct(s.drop_last());
        if s.last().energy != 0 {
            lemma_survivors_contained(s.drop_last());
            let out = survivors(s.drop_last()).push(s.last());
            assert forall|i: int, j: int|
                0 <= i < out.len() && 0 <= j < out.len() && i != j implies out[i].id
                != out[j].id by {
                if i < out.len() - 1 && j < out.len() - 1 {
                    assert(out[i] == survivors(s.drop_last())[i]);
                    assert(out[j] == survivors(s.drop_last())[j]);
                } else {
                    let t = if i < j {
                        i
                    } else {
                        j
                    };
                    assert(out[t] == survivors(s.drop_last())[t]);
                    assert(s.drop_last().contains(out[t]));
                    let w = choose|w: int|
                        0 <= w < s.drop_last().len() && s.drop_last()[w] == out[t];
                    assert(s[w] == out[t]);
                    assert(s[w].id != s.last().id);
                }
            }
        }
    }
}

/// How many agents of the population hold strictly more energy than `e`.
pub open spec fn count_energy_above(s: Seq<Agent>, e: u32) -> int
    decreases s.len(),
{
    if s.len() == 0 {
        0
    } else {
        count_energy_above(s.drop_last(), e) + (if s.last().energy > e {
            1int
        } else {
            0int
        })
    }
}

/// How many ranking pairs carry an energy strictly above `e`.
pub open spec fn count_pairs_above(s: Seq<(u32, usize)>, e: u32) -> int
    decreases s.len(),
{
    if s.len() == 0 {
        0
    } else {
        count_pairs_above(s.drop_last(), e) + (if s.last().0 > e {
            1int
        } else {
            0int
        })
    }
}

/// Pairs built positionally from a population count the same energies.
proof fn lemma_counts_align(pop: Seq<Agent>, pairs: Seq<(u32, usize)>, e: u32)
    requires
        pairs.len() == pop.len(),
        forall|t: int| 0 <= t < pairs.len() ==> (#[trigger] pairs[t]).0 == pop[t].energy,
    ensures
        count_pairs_above(pairs, e) == count_energy_above(pop, e),
    decreases pop.len(),
{
    if pop.len() > 0 {
        assert(forall|t: int|
            0 <= t < pairs.drop_last().len() ==> (#[trigger] pairs.drop_last()[t]).0
                == pop.drop_last()[t].energy);
        lemma_counts_align(pop.drop_last(), pairs.drop_last(), e);
    }
}

/// The pair count is a function of the pairs' multiset alone.
proof fn lemma_count_pairs_ms(s: Seq<(u32, usize)>, e: u32)
    ensures
        count_pairs_above(s, e) == s.to_multiset().filter(
            |p: (u32, usize)| p.0 > e,
        ).len(),
    decreases s.len(),
{
    broadcast use vstd::multiset::group_multiset_axioms;
    broadcast use vstd::multiset::lemma_insert_len;
    broadcast use vstd::multiset::lemma_insert_increases_count_by_1;
    broadcast use vstd::multiset::lemma_insert_other_elements_unchanged;
    broadcast use vstd::multiset::lemma_multiset_empty_len;
    broadcast use vstd::seq_lib::group_to_multiset_ensures;
    let f = |p: (u32, usize)| p.0 > e;
    if s.len() == 0 {
        assert(s.to_multiset().len() == 0);
        assert(s.to_multiset() =~= Multiset::<(u32, usize)>::empty());
        assert(s.to_multiset().filter(f) =~= Multiset::<(u32, usize)>::empty());
    } else {
        let rest = s.drop_last();
        let x = s.last();
        lemma_count_pairs_ms(rest, e);
        assert(s =~= rest.push(x));
        assert(s.to_multiset() == rest.to_multiset().insert(x));
        if f(x) {
            assert(rest.to_multiset().insert(x).filter(f) =~= rest.to_multiset().filter(
                f,
            ).insert(x));
        } else {
            assert(rest.to_multiset().insert(x).filter(f) =~= rest.to_multiset().filter(f));
        }
    }
}

/// A pair count never exceeds the sequence length.
proof fn lemma_count_pairs_le_len(s: Seq<(u32, usize)>, e: u32)
    ensures
        0 <= count_pairs_above(s, e) <= s.len(),
    decreases s.len(),
{
    if s.len() > 0 {
        lemma_count_pairs_le_len(s.drop_last(), e);
    }
}

/// If every pair from position `pos` on is at most `e`, at most `pos` pairs
/// lie strictly above `e`.
proof fn lemma_count_pairs_le(s: Seq<(u32, usize)>, e: u32, pos: int)
    requires
        0 <= pos,
        forall|t: int| pos <= t < s.len() ==> (#[trigger] s[t]).0 <= e,
    ensures
        count_pairs_above(s, e) <= pos,
    decreases s.len(),
{
    if s.len() <= pos {
        lemma_count_pairs_le_len(s, e);
    } else {
        assert(s.last().0 <= e);
        assert(forall|t: int|
            pos <= t < s.drop_last().len() ==> (#[trigger] s.drop_last()[t]).0 <= e);
        lemma_count_pairs_le(s.drop_last(), e, pos);
    }
}

/// `id` belongs to an agent of `s` outranked by fewer than `bound` others.
pub open spec fn ranked_in_pool(s: Seq<Agent>, id: AgentId, bound: int) -> bool {
    exists|w: int|
        0 <= w < s.len() && (#[trigger] s[w]).id == id && count_energy_above(s, s[w].energy)
            < bound
}

/// Sorted by strictly descending-or-equal first component.
pub open spec fn sorted_desc(s: Seq<(u32, usize)>) -> bool {
    forall|i: int, j: int| 0 <= i <= j < s.len() ==> (#[trigger] s[i]).0 >= (#[trigger] s[j]).0
}

/// Selection sort of `(energy, index)` pairs by descending energy. The
/// result holds exactly the given pairs.
fn sort_pairs_desc(pairs: Vec<(u32, usize)>) -> (out: Vec<(u32, usize)>)
    ensures
        out@.to_multiset() == pairs@.to_multiset(),
        out@.len() == pairs@.len(),
        sorted_desc(out@),
{
    let mut rest = pairs;
    let ghost orig: Seq<(u32, usize)> = rest@;
    let mut out: Vec<(u32, usize)> = Vec::new();
    while rest.len() > 0
        invariant
            (out@ + rest@).to_multiset() == orig.to_multiset(),
            out@.len() + rest@.len() == orig.len(),
            sorted_desc(out@),
            forall|x: int, y: int|
                0 <= x < out@.len() && 0 <= y < rest@.len() ==> (#[trigger] out@[x]).0 >= (
                #[trigger] rest@[y]).0,
        decreases rest.len(),
    {
        let mut m: usize = 0;
        let mut t: usize = 1;
        while t < rest.len()
            invariant
                rest@.len() > 0,
                m < t <= rest@.len(),
                forall|u: int| 0 <= u < t ==> (#[trigger] rest@[u]).0 <= rest@[m as int].0,
            decreases rest@.len() - t,
        {
            if rest[t].0 > rest[m].0 {
                m = t;
            }
            t = t + 1;
        }
        let ghost prev_rest: Seq<(u32, usize)> = rest@;
        let ghost prev_out: Seq<(u32, usize)> = out@;
        let p: (u32, usize) = rest.remove(m);
        out.push(p);
        proof {
            broadcast use vstd::seq_lib::group_to_multiset_ensures;
            broadcast use vstd::seq_lib::lemma_multiset_commutative;
            broadcast use vstd::multiset::group_multiset_axioms;
            assert(out@ == prev_out.push(p));
            assert(rest@ == prev_rest.remove(m as int));
            assert((out@ + rest@).to_multiset() =~= out@.to_multiset().add(rest@.to_multiset()));
            assert((prev_out + prev_rest).to_multiset() =~= prev_out.to_multiset().add(
                prev_rest.to_multiset(),
            ));
            assert(out@.to_multiset() =~= prev_out.to_multiset().insert(p));
            assert(rest@.to_multiset() =~= prev_rest.to_multiset().remove(p));
            assert(prev_rest.to_multiset().contains(p)) by {
                assert(prev_rest.contains(p));
            }
            assert((out@ + rest@).to_multiset() =~= orig.to_multiset());
            prev_rest.remove_ensures(m as int);
        }
    }
    out
}

/// How many agents one migration round moves out: the elite sample size,
/// capped by the candidate pool size, capped by the population size.
pub open spec fn elite_moved(best_amount: usize, elite_amount: usize, population: nat) -> int {
    let best = if best_amount <= population {
        best_amount as int
    } else {
        population as int
    };
    if elite_amount <= best {
        elite_amount as int
    } else {
        best
    }
}

/// One migration round never moves more agents than the elite sample size,
/// the candidate pool size, or the population size.
pub proof fn lemma_elite_moved_bound(best_amount: usize, elite_amount: usize, population: nat)
    ensures
        elite_moved(best_amount, elite_amount, population) <= best_amount,
        elite_moved(best_amount, elite_amount, population) <= elite_amount,
        elite_moved(best_amount, elite_amount, population) <= population,
        elite_moved(best_amount, elite_amount, population) >= 0,
{
}

/// An island: an exclusively owned population, an outbox of emigrants, the
/// identity-minting counter, and the best snapshot ever seen here.
#[derive(Debug)]
pub struct Island {
    pub id: usize,
    pub agents: Vec<Agent>,
    pub migration_queue: Vec<Agent>,
    pub last_agent_id: u64,
    pub historical_best: Agent,
}

impl Island {
    /// Total energy held by this island, population and outbox together.
    pub open spec fn energy_total(self) -> int {
        energy_sum(self.agents@) + energy_sum(self.migration_queue@)
    }

    /// Well-formedness: identities are unique within the island, every agent
    /// (and the best snapshot) is consistent with strategy `F`, and the
    /// minting counter dominates every identity born here.
    pub open spec fn wf<F: FitnessFn>(self) -> bool {
        &&& ids_distinct(self.agents@)
        &&& ids_distinct(self.migration_queue@)
        &&& disjoint_ids(self.agents@, self.migration_queue@)
        &&& all_ok::<F>(self.agents@)
        &&& all_ok::<F>(self.migration_queue@)
        &&& agent_ok::<F>(self.historical_best)
        &&& ids_bounded(self.agents@, self.id, self.last_agent_id)
        &&& ids_bounded(self.migration_queue@, self.id, self.last_agent_id)
    }

    /// A new island of `agents_amount` freshly drawn agents, each with
    /// `agent_energy`, with identities `(id, 0) .. (id, agents_amount - 1)`.
    /// The best snapshot starts as a copy of the first agent drawn.
    pub fn new<F: FitnessFn, RS: RandomSource>(
        agents_amount: usize,
        agent_energy: u32,
        id: usize,
        rng: &mut RS,
    ) -> (island: Island)
        requires
            agents_amount >= 1,
            domain_wf(F::spec_domain()),
        ensures
            island.wf::<F>(),
            island.id == id,
            island.agents@.len() == agents_amount,
            island.migration_queue@.len() == 0,
            island.last_agent_id == agents_amount - 1,
            forall|k: int|
                0 <= k < agents_amount ==> (#[trigger] island.agents@[k]).energy == agent_energy,
            forall|k: int|
                0 <= k < agents_amount ==> (#[trigger] island.agents@[k]).id == (AgentId {
                    island: id,
                    seq: k as u64,
                }),
            island.energy_total() == agents_amount * agent_energy,
            island.historical_best.fitness == island.agents@[0].fitness,
            island.historical_best.genes@ == island.agents@[0].genes@,
            island.historical_best.energy == island.agents@[0].energy,
            island.historical_best.id == island.agents@[0].id,
    {
        let mut agents: Vec<Agent> = Vec::new();
        let mut k: usize = 0;
        while k < agents_amount
            invariant
                k <= agents_amount,
                domain_wf(F::spec_domain()),
                agents@.len() == k,
                forall|t: int| 0 <= t < k ==> agent_ok::<F>(#[trigger] agents@[t]),
                forall|t: int| 0 <= t < k ==> (#[trigger] agents@[t]).energy == agent_energy,
                forall|t: int|
                    0 <= t < k ==> (#[trigger] agents@[t]).id == (AgentId {
                        island: id,
                        seq: t as u64,
                    }),
                energy_sum(agents@) == k * agent_energy,
            decreases agents_amount - k,
        {
            let aid = AgentId { island: id, seq: k as u64 };
            let a = Agent::rand_agent::<F, RS>(agent_energy, aid, rng);
            proof {
                lemma_energy_sum_push(agents@, a);
                assert((k + 1) * agent_energy == k * agent_energy + agent_energy)
                    by (nonlinear_arith);
            }
            agents.push(a);
            k = k + 1;
        }
        let historical_best = agents[0].snapshot();
        let island = Island {
            id,
            agents,
            migration_queue: Vec::new(),
            last_agent_id: (agents_amount - 1) as u64,
            historical_best,
        };
        proof {
            assert(ids_distinct(island.agents@)) by {
                assert forall|i: int, j: int|
                    0 <= i < island.agents@.len() && 0 <= j < island.agents@.len() && i != j
                    implies island.agents@[i].id != island.agents@[j].id by {
                    assert(island.agents@[i].id.seq == i as u64);
                    assert(island.agents@[j].id.seq == j as u64);
                }
            }
            assert(agent_ok::<F>(island.historical_best)) by {
                assert(agent_ok::<F>(island.agents@[0]));
            }
        }
        island
    }

    /// Mint a fresh identity sequence number: the counter moves up, so the
    /// result collides with no identity the counter already dominates.
    fn new_agent_id(&mut self) -> (seq: u64)
        requires
            old(self).last_agent_id < u64::MAX,
        ensures
            final(self).last_agent_id == old(self).last_agent_id + 1,
            seq == final(self).last_agent_id,
            final(self).id == old(self).id,
            final(self).agents == old(self).agents,
            final(self).migration_queue == old(self).migration_queue,
            final(self).historical_best == old(self).historical_best,
    {
        self.last_agent_id = self.last_agent_id + 1;
        self.last_agent_id
    }

    /// The position of the agent carrying `id`, if it is in the population.
    fn find_index(&self, id: AgentId) -> (r: Option<usize>)
        ensures
            match r {
                Some(i) => i < self.agents@.len() && self.agents@[i as int].id == id,
                None => !has_id(self.agents@, id),
            },
    {
        let mut i: usize = 0;
        while i < self.agents.len()
            invariant
                i <= self.agents@.len(),
                forall|t: int| 0 <= t < i ==> (#[trigger] self.agents@[t]).id != id,
            decreases self.agents@.len() - i,
        {
            if self.agents[i].id.island == id.island && self.agents[i].id.seq == id.seq {
                return Some(i);
            }
            i = i + 1;
        }
        None
    }

    /// The reproduction phase: the listed agents are paired off from the end
    /// of a shuffled order; each pair is taxed its floor shares and produces
    /// two freshly identified children, which join the population at the
    /// end. Existing agents keep their position, identity, genes and
    /// fitness; unlisted agents also keep their energy. With counter
    /// headroom, exactly two children per pair are born and minted, every
    /// listed agent except a possible odd leftover pays exactly its floor
    /// share, and the best snapshot becomes the minimum of its old value and
    /// the children's fitness. The island's total energy is exactly
    /// conserved.
    pub fn reproductions<F: FitnessFn, RS: RandomSource>(
        &mut self,
        ids: Vec<AgentId>,
        share: u32,
        rng: &mut RS,
    )
        requires
            old(self).wf::<F>(),
            domain_wf(F::spec_domain()),
            share <= ENERGY_SHARE_SCALE,
            old(self).energy_total() <= u32::MAX,
            ids@.no_duplicates(),
            forall|t: int| 0 <= t < ids@.len() ==> has_id(old(self).agents@, #[trigger] ids@[t]),
        ensures
            final(self).wf::<F>(),
            final(self).energy_total() == old(self).energy_total(),
            final(self).id == old(self).id,
            final(self).migration_queue@ == old(self).migration_queue@,
            old(self).last_agent_id <= final(self).last_agent_id,
            final(self).historical_best.fitness <= old(self).historical_best.fitness,
            forall|id: AgentId| has_id(old(self).agents@, id) ==> has_id(final(self).agents@, id),
            forall|k: int|
                0 <= k < final(self).agents@.len() ==> has_id(
                    old(self).agents@,
                    (#[trigger] final(self).agents@[k]).id,
                ) || (final(self).agents@[k].id.island == old(self).id && old(self).last_agent_id
                    < final(self).agents@[k].id.seq <= final(self).last_agent_id),
            final(self).agents@.len() >= old(self).agents@.len(),
            forall|k: int|
                0 <= k < old(self).agents@.len() ==> (#[trigger] final(self).agents@[k]).id
                    == old(self).agents@[k].id && final(self).agents@[k].genes@
                    == old(self).agents@[k].genes@ && final(self).agents@[k].fitness
                    == old(self).agents@[k].fitness,
            forall|k: int|
                0 <= k < old(self).agents@.len() && !ids@.contains(old(self).agents@[k].id)
                    ==> (#[trigger] final(self).agents@[k]).energy == old(self).agents@[k].energy,
            ids@.len() >= 2 && old(self).last_agent_id < u64::MAX - 1 ==> final(self).last_agent_id >= old(self).last_agent_id + 2,
            old(self).last_agent_id + ids@.len() <= u64::MAX ==> final(self).agents@.len()
                == old(self).agents@.len() + 2 * (ids@.len() as int / 2) && final(self).last_agent_id == old(self).last_agent_id + 2 * (ids@.len() as int / 2),
            old(self).last_agent_id + ids@.len() <= u64::MAX ==> (exists|rem: Seq<AgentId>|
                #![trigger rem.len()]
                rem.len() == ids@.len() as int % 2 && (forall|t: int|
                    0 <= t < rem.len() ==> ids@.contains(#[trigger] rem[t])) && (forall|k: int|
                    0 <= k < old(self).agents@.len() && ids@.contains(old(self).agents@[k].id)
                        ==> ((#[trigger] final(self).agents@[k]).energy == (
                    if rem.contains(old(self).agents@[k].id) {
                        old(self).agents@[k].energy as int
                    } else {
                        old(self).agents@[k].energy - withheld_energy(
                            old(self).agents@[k].energy,
                            share,
                        )
                    })))),
            forall|k: int|
                old(self).agents@.len() <= k < final(self).agents@.len() ==> final(self).historical_best.fitness <= (#[trigger] final(self).agents@[k]).fitness,
            final(self).historical_best == old(self).historical_best || (exists|k: int|
                old(self).agents@.len() <= k < final(self).agents@.len() && final(self).historical_best.fitness == (#[trigger] final(self).agents@[k]).fitness && final(self).historical_best.genes@ == final(self).agents@[k].genes@ && final(self).historical_best.id == final(self).agents@[k].id && final(self).historical_best.energy == final(self).agents@[k].energy),
    {
        let ghost old_len: int = old(self).agents@.len() as int;
        let mut ids = ids;
        let ghost ids0: Seq<AgentId> = ids@;
        rng.shuffle_agent_ids(&mut ids);
        proof {
            broadcast use vstd::seq_lib::group_to_multiset_ensures;
            ids0.lemma_multiset_has_no_duplicates();
            ids@.lemma_multiset_has_no_duplicates_conv();
            assert forall|t: int|
                0 <= t < ids@.len() implies has_id(old(self).agents@, #[trigger] ids@[t]) by {
                assert(ids@.to_multiset().contains(ids@[t]));
                assert(ids0.contains(ids@[t]));
                let w = choose|w: int| 0 <= w < ids0.len() && ids0[w] == ids@[t];
                assert(has_id(old(self).agents@, ids0[w]));
            }
            assert forall|id: AgentId| ids@.contains(id) <==> ids0.contains(id) by {
                if ids@.contains(id) {
                    assert(ids@.to_multiset().contains(id));
                }
                if ids0.contains(id) {
                    assert(ids0.to_multiset().contains(id));
                }
            }
            assert(ids@.to_multiset().len() == ids@.len());
            assert(ids0.to_multiset().len() == ids0.len());
            assert(ids@.len() == ids0.len());
        }
        while ids.len() >= 2 && self.last_agent_id < u64::MAX - 1
            invariant
                self.wf::<F>(),
                domain_wf(F::spec_domain()),
                share <= ENERGY_SHARE_SCALE,
                old(self).energy_total() <= u32::MAX,
                self.id == old(self).id,
                self.energy_total() == old(self).energy_total(),
                self.migration_queue@ == old(self).migration_queue@,
                old(self).last_agent_id <= self.last_agent_id,
                self.historical_best.fitness <= old(self).historical_best.fitness,
                ids@.no_duplicates(),
                forall|t: int| 0 <= t < ids@.len() ==> has_id(self.agents@, #[trigger] ids@[t]),
                forall|t: int| 0 <= t < ids@.len() ==> ids0.contains(#[trigger] ids@[t]),
                forall|t: int|
                    0 <= t < ids@.len() ==> has_id(old(self).agents@, #[trigger] ids@[t]),
                forall|id: AgentId| has_id(old(self).agents@, id) ==> has_id(self.agents@, id),
                forall|k: int|
                    0 <= k < self.agents@.len() ==> has_id(
                        old(self).agents@,
                        (#[trigger] self.agents@[k]).id,
                    ) || (self.agents@[k].id.island == old(self).id && old(self).last_agent_id
                        < self.agents@[k].id.seq <= self.last_agent_id),
                old_len == old(self).agents@.len(),
                ids@.len() <= ids0.len(),
                (ids0.len() - ids@.len()) % 2 == 0,
                self.agents@.len() as int == old_len + (ids0.len() - ids@.len()),
                self.last_agent_id as int == old(self).last_agent_id + (ids0.len() - ids@.len()),
                forall|k: int|
                    0 <= k < old_len ==> (#[trigger] self.agents@[k]).id
                        == old(self).agents@[k].id && self.agents@[k].genes@
                        == old(self).agents@[k].genes@ && self.agents@[k].fitness
                        == old(self).agents@[k].fitness,
                forall|k: int|
                    0 <= k < old_len && ids@.contains(old(self).agents@[k].id) ==> (
                    #[trigger] self.agents@[k]).energy == old(self).agents@[k].energy,
                forall|k: int|
                    0 <= k < old_len && !ids0.contains(old(self).agents@[k].id) ==> (
                    #[trigger] self.agents@[k]).energy == old(self).agents@[k].energy,
                forall|k: int|
                    0 <= k < old_len && ids0.contains(old(self).agents@[k].id) && !ids@.contains(
                        old(self).agents@[k].id,
                    ) ==> (#[trigger] self.agents@[k]).energy == old(self).agents@[k].energy
                        - withheld_energy(old(self).agents@[k].energy, share),
                forall|k: int|
                    old_len <= k < self.agents@.len() ==> self.historical_best.fitness <= (
                    #[trigger] self.agents@[k]).fitness,
                self.historical_best == old(self).historical_best || (exists|k: int|
                    old_len <= k < self.agents@.len() && self.historical_best.fitness == (
                    #[trigger] self.agents@[k]).fitness && self.historical_best.genes@
                        == self.agents@[k].genes@ && self.historical_best.id
                        == self.agents@[k].id && self.historical_best.energy
                        == self.agents@[k].energy),
            decreases ids.len(),
        {
            let ghost last0: u64 = self.last_agent_id;
            let ghost ids_pre: Seq<AgentId> = ids@;
            let a1_id: AgentId = match ids.pop() {
                Some(x) => x,
                None => unreached(),
            };
            let a2_id: AgentId = match ids.pop() {
                Some(x) => x,
                None => unreached(),
            };
            proof {
                assert(a1_id == ids_pre[ids_pre.len() - 1]);
                assert(a2_id == ids_pre[ids_pre.len() - 2]);
                assert(a1_id != a2_id);
                assert(ids@ =~= ids_pre.subrange(0, ids_pre.len() - 2));
                assert(ids_pre.contains(a1_id) && ids_pre.contains(a2_id));
                assert(ids0.contains(a1_id) && ids0.contains(a2_id));
                assert(has_id(old(self).agents@, a1_id));
                assert(has_id(old(self).agents@, a2_id));
                assert forall|t: int|
                    0 <= t < ids@.len() implies has_id(self.agents@, #[trigger] ids@[t])
                        && ids0.contains(#[trigger] ids@[t]) && has_id(
                        old(self).agents@,
                        ids@[t],
                    ) by {
                    assert(ids@[t] == ids_pre[t]);
                }
            }
            let seq1: u64 = self.new_agent_id();
            let seq2: u64 = self.new_agent_id();
            let ch1_id = AgentId { island: self.id, seq: seq1 };
            let ch2_id = AgentId { island: self.id, seq: seq2 };
            let i1: usize = match self.find_index(a1_id) {
                Some(i) => i,
                None => unreached(),
            };
            let i2: usize = match self.find_index(a2_id) {
                Some(i) => i,
                None => unreached(),
            };
            proof {
                assert(i1 != i2);
                lemma_energy_sum_pair(self.agents@, i1 as int, i2 as int);
                lemma_energy_sum_nonneg(self.migration_queue@);
                assert(agent_ok::<F>(self.agents@[i1 as int]));
                assert(agent_ok::<F>(self.agents@[i2 as int]));
                // the listed parents sit in the original part of the
                // population: fresh identities cannot carry a listed id
                assert(i1 < old_len && i2 < old_len) by {
                    let w1 = choose|w: int|
                        0 <= w < old(self).agents@.len() && (#[trigger] old(self).agents@[w]).id
                            == a1_id;
                    assert(self.agents@[w1].id == a1_id);
                    assert(w1 == i1 as int);
                    let w2 = choose|w: int|
                        0 <= w < old(self).agents@.len() && (#[trigger] old(self).agents@[w]).id
                            == a2_id;
                    assert(self.agents@[w2].id == a2_id);
                    assert(w2 == i2 as int);
                }
                assert(self.agents@[i1 as int].energy == old(self).agents@[i1 as int].energy);
                assert(self.agents@[i2 as int].energy == old(self).agents@[i2 as int].energy);
            }
            let mut a1: Agent = self.agents[i1].snapshot();
            let mut a2: Agent = self.agents[i2].snapshot();
            let children: (Agent, Agent) = a1.reproduce::<F, RS>(
                &mut a2,
                share,
                ch1_id,
                ch2_id,
                rng,
            );
            let c1: Agent = children.0;
            let c2: Agent = children.1;
            let ghost prev: Seq<Agent> = self.agents@;
            self.agents.set(i1, a1);
            self.agents.set(i2, a2);
            proof {
                lemma_energy_sum_update(prev, i1 as int, a1);
                lemma_energy_sum_update(prev.update(i1 as int, a1), i2 as int, a2);
                assert(a1.energy == old(self).agents@[i1 as int].energy - withheld_energy(
                    old(self).agents@[i1 as int].energy,
                    share,
                ));
                assert(a2.energy == old(self).agents@[i2 as int].energy - withheld_energy(
                    old(self).agents@[i2 as int].energy,
                    share,
                ));
            }
            let ghost hb_pre: Agent = self.historical_best;
            if c1.fitness < self.historical_best.fitness {
                self.historical_best = c1.snapshot();
            }
            if c2.fitness < self.historical_best.fitness {
                self.historical_best = c2.snapshot();
            }
            let ghost prev2: Seq<Agent> = self.agents@;
            self.agents.push(c1);
            self.agents.push(c2);
            proof {
                lemma_energy_sum_push(prev2, c1);
                lemma_energy_sum_push(prev2.push(c1), c2);
                assert(self.historical_best == old(self).historical_best || (exists|k: int|
                    old_len <= k < self.agents@.len() && self.historical_best.fitness == (
                    #[trigger] self.agents@[k]).fitness && self.historical_best.genes@
                        == self.agents@[k].genes@ && self.historical_best.id
                        == self.agents@[k].id && self.historical_best.energy
                        == self.agents@[k].energy)) by {
                    if self.historical_best != hb_pre {
                        if self.historical_best.fitness == c2.fitness
                            && self.historical_best.genes@ == c2.genes@
                            && self.historical_best.id == c2.id && self.historical_best.energy
                            == c2.energy {
                            assert(self.agents@[self.agents@.len() - 1] == c2);
                        } else {
                            assert(self.agents@[self.agents@.len() - 2] == c1);
                        }
                    } else if hb_pre != old(self).historical_best {
                        let w = choose|k: int|
                            old_len <= k < prev.len() && hb_pre.fitness == (
                            #[trigger] prev[k]).fitness && hb_pre.genes@ == prev[k].genes@
                                && hb_pre.id == prev[k].id && hb_pre.energy == prev[k].energy;
                        assert(prev2[w] == prev[w]);
                        assert(self.agents@[w] == prev2[w]);
                    }
                }
                assert(forall|k: int|
                    0 <= k < prev2.len() ==> (#[trigger] prev2[k]).id == prev[k].id);
                assert(!has_id(prev2, c1.id));
                assert(!has_id(prev2, c2.id));
                assert(ids_distinct(self.agents@));
                assert(self.agents@[self.agents@.len() - 2] == c1);
                assert(self.agents@[self.agents@.len() - 1] == c2);
                assert forall|t: int|
                    0 <= t < ids@.len() implies has_id(self.agents@, #[trigger] ids@[t]) by {
                    let w = choose|w: int|
                        0 <= w < prev.len() && (#[trigger] prev[w]).id == ids@[t];
                    assert(self.agents@[w].id == ids@[t]);
                }
                assert forall|id: AgentId|
                    has_id(old(self).agents@, id) implies has_id(self.agents@, id) by {
                    let w = choose|w: int|
                        0 <= w < prev.len() && (#[trigger] prev[w]).id == id;
                    assert(self.agents@[w].id == id);
                }
                // the two newly processed parents are exactly the listed
                // agents whose identities left the pending list
                assert forall|k: int|
                    0 <= k < old_len && ids0.contains(old(self).agents@[k].id) && !ids@.contains(
                        old(self).agents@[k].id,
                    ) implies (#[trigger] self.agents@[k]).energy == old(self).agents@[k].energy
                    - withheld_energy(old(self).agents@[k].energy, share) by {
                    if k != i1 as int && k != i2 as int {
                        if ids_pre.contains(old(self).agents@[k].id) {
                            let t = choose|t: int|
                                0 <= t < ids_pre.len() && ids_pre[t] == old(self).agents@[k].id;
                            assert(t < ids_pre.len() - 2) by {
                                assert(old(self).agents@[k].id == self.agents@[k].id);
                                assert(self.agents@[i1 as int].id == a1_id);
                                assert(self.agents@[i2 as int].id == a2_id);
                            }
                            assert(ids@[t] == ids_pre[t]);
                            assert(false);
                        }
                    }
                }
                assert forall|k: int|
                    0 <= k < old_len && ids@.contains(old(self).agents@[k].id) implies (
                #[trigger] self.agents@[k]).energy == old(self).agents@[k].energy by {
                    if k == i1 as int || k == i2 as int {
                        let t = choose|t: int|
                            0 <= t < ids@.len() && ids@[t] == old(self).agents@[k].id;
                        assert(ids_pre[t] == old(self).agents@[k].id);
                        assert(t < ids_pre.len() - 2);
                        assert(false);
                    }
                }
            }
        }
        proof {
            let ghost processed: int = ids0.len() - ids@.len();
            if old(self).last_agent_id + ids0.len() <= u64::MAX {
                assert(ids@.len() < 2) by {
                    if ids@.len() >= 2 {
                        assert(self.last_agent_id as int <= old(self).last_agent_id
                            + ids0.len() - 2);
                    }
                }
                assert(processed == 2 * (ids0.len() as int / 2)) by {
                    assert(ids@.len() as int == ids0.len() as int % 2);
                }
                let rem = ids@;
                assert(rem.len() == ids0.len() as int % 2);
                assert forall|k: int|
                    0 <= k < old_len && ids0.contains(old(self).agents@[k].id) implies ((
                #[trigger] self.agents@[k]).energy == (if rem.contains(old(self).agents@[k].id) {
                    old(self).agents@[k].energy as int
                } else {
                    old(self).agents@[k].energy - withheld_energy(
                        old(self).agents@[k].energy,
                        share,
                    )
                })) by {}
            }
            if ids0.len() >= 2 && old(self).last_agent_id < u64::MAX - 1 {
                assert(processed >= 2) by {
                    if processed == 0 {
                        assert(ids@.len() == ids0.len());
                        assert(self.last_agent_id == old(self).last_agent_id);
                    }
                }
            }
        }
    }

    /// The combat phase: the listed agents are paired off from the end of a
    /// shuffled order; each pair fights once, moving capped energy from
    /// loser to winner. Population membership, positions, genes and fitness
    /// are untouched, unlisted agents keep their energy, no agent's energy
    /// moves by more than the stake, and the island's total energy is
    /// exactly conserved. Outbox, counter and best snapshot are untouched.
    pub fn combats<F: FitnessFn, C: CombatWinChanceFn, RS: RandomSource>(
        &mut self,
        ids: Vec<AgentId>,
        energy_combat: u32,
        rng: &mut RS,
    )
        requires
            old(self).wf::<F>(),
            old(self).energy_total() <= u32::MAX,
            ids@.no_duplicates(),
            forall|t: int| 0 <= t < ids@.len() ==> has_id(old(self).agents@, #[trigger] ids@[t]),
        ensures
            final(self).wf::<F>(),
            final(self).energy_total() == old(self).energy_total(),
            final(self).id == old(self).id,
            final(self).migration_queue@ == old(self).migration_queue@,
            final(self).last_agent_id == old(self).last_agent_id,
            final(self).historical_best == old(self).historical_best,
            final(self).agents@.len() == old(self).agents@.len(),
            forall|k: int|
                0 <= k < final(self).agents@.len() ==> (#[trigger] final(self).agents@[k]).id
                    == old(self).agents@[k].id,
            forall|k: int|
                0 <= k < final(self).agents@.len() ==> (#[trigger] final(self).agents@[k]).genes@
                    == old(self).agents@[k].genes@ && final(self).agents@[k].fitness
                    == old(self).agents@[k].fitness,
            forall|k: int|
                0 <= k < final(self).agents@.len() ==> old(self).agents@[k].energy
                    - energy_combat <= (#[trigger] final(self).agents@[k]).energy
                    <= old(self).agents@[k].energy + energy_combat,
            forall|k: int|
                0 <= k < final(self).agents@.len() && !ids@.contains(old(self).agents@[k].id)
                    ==> (#[trigger] final(self).agents@[k]).energy == old(self).agents@[k].energy,
    {
        let mut ids = ids;
        let ghost ids0: Seq<AgentId> = ids@;
        rng.shuffle_agent_ids(&mut ids);
        proof {
            broadcast use vstd::seq_lib::group_to_multiset_ensures;
            ids0.lemma_multiset_has_no_duplicates();
            ids@.lemma_multiset_has_no_duplicates_conv();
            assert forall|t: int|
                0 <= t < ids@.len() implies has_id(old(self).agents@, #[trigger] ids@[t]) by {
                assert(ids@.to_multiset().contains(ids@[t]));
                assert(ids0.contains(ids@[t]));
                let w = choose|w: int| 0 <= w < ids0.len() && ids0[w] == ids@[t];
                assert(has_id(old(self).agents@, ids0[w]));
            }
            assert forall|id: AgentId| ids@.contains(id) <==> ids0.contains(id) by {
                if ids@.contains(id) {
                    assert(ids@.to_multiset().contains(id));
                }
                if ids0.contains(id) {
                    assert(ids0.to_multiset().contains(id));
                }
            }
        }
        while ids.len() >= 2
            invariant
                self.wf::<F>(),
                old(self).energy_total() <= u32::MAX,
                self.id == old(self).id,
                self.energy_total() == old(self).energy_total(),
                self.migration_queue@ == old(self).migration_queue@,
                self.last_agent_id == old(self).last_agent_id,
                self.historical_best == old(self).historical_best,
                self.agents@.len() == old(self).agents@.len(),
                forall|k: int|
                    0 <= k < self.agents@.len() ==> (#[trigger] self.agents@[k]).id
                        == old(self).agents@[k].id,
                forall|k: int|
                    0 <= k < self.agents@.len() ==> (#[trigger] self.agents@[k]).genes@
                        == old(self).agents@[k].genes@ && self.agents@[k].fitness
                        == old(self).agents@[k].fitness,
                forall|k: int|
                    0 <= k < self.agents@.len() ==> old(self).agents@[k].energy - energy_combat
                        <= (#[trigger] self.agents@[k]).energy <= old(self).agents@[k].energy
                        + energy_combat,
                forall|k: int|
                    0 <= k < self.agents@.len() && !ids0.contains(old(self).agents@[k].id) ==> (
                    #[trigger] self.agents@[k]).energy == old(self).agents@[k].energy,
                forall|k: int|
                    0 <= k < self.agents@.len() && ids@.contains(old(self).agents@[k].id) ==> (
                    #[trigger] self.agents@[k]).energy == old(self).agents@[k].energy,
                ids@.no_duplicates(),
                forall|t: int| 0 <= t < ids@.len() ==> has_id(self.agents@, #[trigger] ids@[t]),
                forall|t: int| 0 <= t < ids@.len() ==> ids0.contains(#[trigger] ids@[t]),
            decreases ids.len(),
        {
            let ghost ids_pre: Seq<AgentId> = ids@;
            let a1_id: AgentId = match ids.pop() {
                Some(x) => x,
                None => unreached(),
            };
            let a2_id: AgentId = match ids.pop() {
                Some(x) => x,
                None => unreached(),
            };
            proof {
                assert(a1_id == ids_pre[ids_pre.len() - 1]);
                assert(a2_id == ids_pre[ids_pre.len() - 2]);
                assert(a1_id != a2_id);
                assert(ids@ =~= ids_pre.subrange(0, ids_pre.len() - 2));
                assert forall|t: int|
                    0 <= t < ids@.len() implies has_id(self.agents@, #[trigger] ids@[t]) by {
                    assert(ids@[t] == ids_pre[t]);
                }
            }
            let i1: usize = match self.find_index(a1_id) {
                Some(i) => i,
                None => unreached(),
            };
            let i2: usize = match self.find_index(a2_id) {
                Some(i) => i,
                None => unreached(),
            };
            proof {
                assert(i1 != i2);
                lemma_energy_sum_pair(self.agents@, i1 as int, i2 as int);
                lemma_energy_sum_nonneg(self.migration_queue@);
                assert(agent_ok::<F>(self.agents@[i1 as int]));
                assert(agent_ok::<F>(self.agents@[i2 as int]));
            }
            let mut a1: Agent = self.agents[i1].snapshot();
            let mut a2: Agent = self.agents[i2].snapshot();
            a1.combat::<C, RS>(&mut a2, energy_combat, rng);
            let ghost prev: Seq<Agent> = self.agents@;
            self.agents.set(i1, a1);
            self.agents.set(i2, a2);
            proof {
                lemma_energy_sum_update(prev, i1 as int, a1);
                lemma_energy_sum_update(prev.update(i1 as int, a1), i2 as int, a2);
                assert(a1.id == prev[i1 as int].id);
                assert(a2.id == prev[i2 as int].id);
                assert(a1.genes@ == prev[i1 as int].genes@ && a1.fitness == prev[i1 as int]
                    .fitness);
                assert(a2.genes@ == prev[i2 as int].genes@ && a2.fitness == prev[i2 as int]
                    .fitness);
                assert(ids_pre.contains(a1_id)) by {
                    assert(ids_pre[ids_pre.len() - 1] == a1_id);
                }
                assert(ids_pre.contains(a2_id)) by {
                    assert(ids_pre[ids_pre.len() - 2] == a2_id);
                }
                assert(ids0.contains(a1_id) && ids0.contains(a2_id));
                assert(prev[i1 as int].energy == old(self).agents@[i1 as int].energy);
                assert(prev[i2 as int].energy == old(self).agents@[i2 as int].energy);
                assert(old(self).agents@[i1 as int].energy - energy_combat <= a1.energy
                    <= old(self).agents@[i1 as int].energy + energy_combat);
                assert(old(self).agents@[i2 as int].energy - energy_combat <= a2.energy
                    <= old(self).agents@[i2 as int].energy + energy_combat);
                assert forall|t: int|
                    0 <= t < ids@.len() implies has_id(self.agents@, #[trigger] ids@[t]) by {
                    let w = choose|w: int|
                        0 <= w < prev.len() && (#[trigger] prev[w]).id == ids@[t];
                    assert(self.agents@[w].id == ids@[t]);
                }
                assert forall|k: int|
                    0 <= k < self.agents@.len() && ids@.contains(old(self).agents@[k].id)
                    implies (#[trigger] self.agents@[k]).energy == old(self).agents@[k]
                    .energy by {
                    if k == i1 as int || k == i2 as int {
                        let t = choose|t: int|
                            0 <= t < ids@.len() && ids@[t] == old(self).agents@[k].id;
                        assert(ids_pre[t] == old(self).agents@[k].id);
                        assert(prev[k].id == old(self).agents@[k].id);
                        if k == i1 as int {
                            assert(ids_pre[t] == a1_id && t < ids_pre.len() - 1);
                        } else {
                            assert(ids_pre[t] == a2_id && t < ids_pre.len() - 2);
                        }
                        assert(false);
                    }
                }
            }
        }
    }

    /// The death phase: agents whose energy has reached zero are removed, in
    /// a single order-preserving pass. The dead hold no energy, so the
    /// island's total is untouched.
    pub fn deaths<F: FitnessFn>(&mut self)
        requires
            old(self).wf::<F>(),
        ensures
            final(self).wf::<F>(),
            final(self).agents@ == survivors(old(self).agents@),
            final(self).energy_total() == old(self).energy_total(),
            final(self).id == old(self).id,
            final(self).migration_queue@ == old(self).migration_queue@,
            final(self).last_agent_id == old(self).last_agent_id,
            final(self).historical_best == old(self).historical_best,
    {
        let ghost orig: Seq<Agent> = self.agents@;
        let ghost mut j: int = 0;
        let mut i: usize = 0;
        while i < self.agents.len()
            invariant
                0 <= j <= orig.len(),
                i as int == survivors(orig.subrange(0, j)).len(),
                self.agents@ == survivors(orig.subrange(0, j)) + orig.subrange(
                    j,
                    orig.len() as int,
                ),
                orig == old(self).agents@,
                self.id == old(self).id,
                self.migration_queue@ == old(self).migration_queue@,
                self.last_agent_id == old(self).last_agent_id,
                self.historical_best == old(self).historical_best,
                old(self).wf::<F>(),
            decreases orig.len() - j,
        {
            let ghost pre: Seq<Agent> = orig.subrange(0, j);
            let ghost cur: Seq<Agent> = orig.subrange(0, j + 1);
            proof {
                assert(j < orig.len()) by {
                    if j == orig.len() {
                        assert(orig.subrange(j, orig.len() as int).len() == 0);
                    }
                }
                assert(cur.drop_last() =~= pre);
                assert(cur.last() == orig[j]);
                assert(self.agents@[i as int] == orig[j]);
            }
            if self.agents[i].energy == 0 {
                let ghost before: Seq<Agent> = self.agents@;
                let _dead: Agent = self.agents.remove(i);
                proof {
                    assert(survivors(cur) == survivors(pre));
                    assert(self.agents@ =~= survivors(cur) + orig.subrange(
                        j + 1,
                        orig.len() as int,
                    ));
                    j = j + 1;
                }
            } else {
                proof {
                    assert(survivors(cur) == survivors(pre).push(orig[j]));
                    assert(self.agents@ =~= survivors(cur) + orig.subrange(
                        j + 1,
                        orig.len() as int,
                    ));
                    j = j + 1;
                }
                i = i + 1;
            }
        }
        proof {
            assert(j == orig.len()) by {
                if j < orig.len() {
                    assert(self.agents@.len() > i);
                }
            }
            assert(orig.subrange(0, orig.len() as int) =~= orig);
            assert(orig.subrange(j, orig.len() as int).len() == 0);
            assert(self.agents@ =~= survivors(orig));
        }
        proof {
            lemma_survivors_contained(orig);
            lemma_survivors_energy(orig);
            lemma_survivors_distinct(orig);
            let fin = self.agents@;
            assert forall|k: int| 0 <= k < fin.len() implies agent_ok::<F>(#[trigger] fin[k])
                && (fin[k].id.island == self.id ==> fin[k].id.seq <= self.last_agent_id) by {
                assert(orig.contains(fin[k]));
                let w = choose|w: int| 0 <= w < orig.len() && orig[w] == fin[k];
                assert(agent_ok::<F>(orig[w]));
            }
            assert forall|i2: int, j2: int|
                0 <= i2 < fin.len() && 0 <= j2 < self.migration_queue@.len() implies (
            #[trigger] fin[i2]).id != (#[trigger] self.migration_queue@[j2]).id by {
                assert(orig.contains(fin[i2]));
                let w = choose|w: int| 0 <= w < orig.len() && orig[w] == fin[i2];
                assert(orig[w].id != self.migration_queue@[j2].id);
            }
        }
    }

    /// One migration round of this island: rank the population by descending
    /// energy, take the first `best_amount` as candidates, sample
    /// `elite_amount` of them without replacement, and move the sampled
    /// agents — identities and all — from the population to the outbox.
    /// Exactly `elite_moved(best_amount, elite_amount, population)` agents
    /// move, each outranked by fewer than `best_amount` agents of the old
    /// population, the outbox keeps its old entries in order, and the
    /// island's total energy is unchanged.
    pub fn step_migrations<F: FitnessFn, RS: RandomSource>(
        &mut self,
        best_amount: usize,
        elite_amount: usize,
        rng: &mut RS,
    )
        requires
            old(self).wf::<F>(),
        ensures
            final(self).wf::<F>(),
            final(self).energy_total() == old(self).energy_total(),
            final(self).id == old(self).id,
            final(self).last_agent_id == old(self).last_agent_id,
            final(self).historical_best == old(self).historical_best,
            final(self).migration_queue@.len() == old(self).migration_queue@.len() + elite_moved(
                best_amount,
                elite_amount,
                old(self).agents@.len(),
            ),
            final(self).agents@.len() == old(self).agents@.len() - elite_moved(
                best_amount,
                elite_amount,
                old(self).agents@.len(),
            ),
            final(self).migration_queue@.subrange(0, old(self).migration_queue@.len() as int)
                == old(self).migration_queue@,
            forall|t: int|
                old(self).migration_queue@.len() <= t < final(self).migration_queue@.len()
                    ==> old(self).agents@.contains(#[trigger] final(self).migration_queue@[t]),
            forall|k: int|
                0 <= k < final(self).agents@.len() ==> old(self).agents@.contains(
                    #[trigger] final(self).agents@[k],
                ),
            forall|t: int|
                old(self).migration_queue@.len() <= t < final(self).migration_queue@.len()
                    ==> count_energy_above(
                    old(self).agents@,
                    (#[trigger] final(self).migration_queue@[t]).energy,
                ) < (if best_amount <= old(self).agents@.len() {
                    best_amount as int
                } else {
                    old(self).agents@.len() as int
                }),
    {
        let n: usize = self.agents.len();
        let best_n: usize = if best_amount <= n {
            best_amount
        } else {
            n
        };
        let elite_n: usize = if elite_amount <= best_n {
            elite_amount
        } else {
            best_n
        };
        proof {
            assert(elite_n as int == elite_moved(best_amount, elite_amount, old(self).agents@.len()));
        }
        let mut pairs: Vec<(u32, usize)> = Vec::new();
        let mut i: usize = 0;
        while i < n
            invariant
                i <= n,
                n == self.agents@.len(),
                *self == *old(self),
                pairs@.len() == i,
                forall|t: int|
                    0 <= t < i ==> (#[trigger] pairs@[t]).1 == t && pairs@[t].0
                        == self.agents@[t].energy,
            decreases n - i,
        {
            pairs.push((self.agents[i].energy, i));
            i = i + 1;
        }
        proof {
            assert(pairs@.no_duplicates()) by {
                assert forall|x: int, y: int|
                    0 <= x < pairs@.len() && 0 <= y < pairs@.len() && x != y implies pairs@[x]
                    != pairs@[y] by {
                    assert(pairs@[x].1 == x && pairs@[y].1 == y);
                }
            }
        }
        let ghost pairs0: Seq<(u32, usize)> = pairs@;
        let sorted: Vec<(u32, usize)> = sort_pairs_desc(pairs);
        proof {
            broadcast use vstd::seq_lib::group_to_multiset_ensures;
            pairs0.lemma_multiset_has_no_duplicates();
            sorted@.lemma_multiset_has_no_duplicates_conv();
            assert forall|t: int|
                0 <= t < sorted@.len() implies (#[trigger] sorted@[t]).1 < n && sorted@[t].0
                    == self.agents@[sorted@[t].1 as int].energy by {
                assert(sorted@.to_multiset().contains(sorted@[t]));
                assert(pairs@.contains(sorted@[t]));
                let w = choose|w: int| 0 <= w < pairs@.len() && pairs@[w] == sorted@[t];
            }
            assert forall|x: int, y: int|
                0 <= x < sorted@.len() && 0 <= y < sorted@.len() && x != y implies (
            #[trigger] sorted@[x]).1 != (#[trigger] sorted@[y]).1 by {
                if sorted@[x].1 == sorted@[y].1 {
                    let w: int = sorted@[x].1 as int;
                    assert(pairs@.contains(sorted@[x]));
                    let wx = choose|u: int| 0 <= u < pairs@.len() && pairs@[u] == sorted@[x];
                    assert(wx == w);
                    assert(pairs@.contains(sorted@[y]));
                    let wy = choose|u: int| 0 <= u < pairs@.len() && pairs@[u] == sorted@[y];
                    assert(wy == w);
                    assert(sorted@[x] == sorted@[y]);
                    assert(sorted@.no_duplicates());
                }
            }
            // every candidate position bounds, from above, how many agents
            // outrank the pair it holds
            assert forall|pos: int|
                0 <= pos < sorted@.len() implies count_energy_above(
                    self.agents@,
                    (#[trigger] sorted@[pos]).0,
                ) <= pos by {
                lemma_counts_align(self.agents@, pairs0, sorted@[pos].0);
                lemma_count_pairs_ms(pairs0, sorted@[pos].0);
                lemma_count_pairs_ms(sorted@, sorted@[pos].0);
                lemma_count_pairs_le(sorted@, sorted@[pos].0, pos);
            }
        }
        let picks: Vec<usize> = rng.pick_distinct(best_n, elite_n);
        let mut chosen: Vec<AgentId> = Vec::new();
        let mut t: usize = 0;
        while t < picks.len()
            invariant
                t <= picks@.len(),
                picks@.len() == elite_n,
                elite_n <= best_n <= n,
                n == self.agents@.len(),
                *self == *old(self),
                old(self).wf::<F>(),
                picks@.no_duplicates(),
                forall|u: int| 0 <= u < picks@.len() ==> #[trigger] picks@[u] < best_n,
                sorted@.len() == n,
                forall|u: int|
                    0 <= u < sorted@.len() ==> (#[trigger] sorted@[u]).1 < n,
                forall|x: int, y: int|
                    0 <= x < sorted@.len() && 0 <= y < sorted@.len() && x != y ==> (
                    #[trigger] sorted@[x]).1 != (#[trigger] sorted@[y]).1,
                chosen@.len() == t,
                forall|u: int|
                    0 <= u < t ==> #[trigger] chosen@[u] == self.agents@[sorted@[picks@[u] as int].1 as int].id,
                forall|pos: int|
                    0 <= pos < sorted@.len() ==> count_energy_above(
                        self.agents@,
                        (#[trigger] sorted@[pos]).0,
                    ) <= pos,
                forall|u: int|
                    0 <= u < sorted@.len() ==> (#[trigger] sorted@[u]).0
                        == self.agents@[sorted@[u].1 as int].energy,
            decreases picks@.len() - t,
        {
            let pos: usize = picks[t];
            let idx: usize = sorted[pos].1;
            chosen.push(self.agents[idx].id);
            t = t + 1;
        }
        proof {
            assert(chosen@.no_duplicates()) by {
                assert forall|x: int, y: int|
                    0 <= x < chosen@.len() && 0 <= y < chosen@.len() && x != y implies chosen@[x]
                    != chosen@[y] by {
                    let ix: int = sorted@[picks@[x] as int].1 as int;
                    let iy: int = sorted@[picks@[y] as int].1 as int;
                    assert(picks@[x] != picks@[y]);
                    assert(ix != iy);
                    assert(self.agents@[ix].id != self.agents@[iy].id);
                }
            }
            assert forall|u: int|
                0 <= u < chosen@.len() implies has_id(self.agents@, #[trigger] chosen@[u]) by {
                let w: int = sorted@[picks@[u] as int].1 as int;
                assert(self.agents@[w].id == chosen@[u]);
            }
        }
        let ghost agents0: Seq<Agent> = self.agents@;
        let ghost queue0: Seq<Agent> = self.migration_queue@;
        proof {
            assert forall|u: int|
                0 <= u < chosen@.len() implies ranked_in_pool(
                    agents0,
                    #[trigger] chosen@[u],
                    best_n as int,
                ) by {
                let w: int = sorted@[picks@[u] as int].1 as int;
                assert(agents0[w].id == chosen@[u]);
                assert(agents0[w].energy == sorted@[picks@[u] as int].0);
                assert(count_energy_above(agents0, sorted@[picks@[u] as int].0)
                    <= picks@[u] as int);
                assert(picks@[u] < best_n);
            }
        }
        let mut t: usize = 0;
        while t < chosen.len()
            invariant
                t <= chosen@.len(),
                chosen@.len() == elite_n,
                self.wf::<F>(),
                self.id == old(self).id,
                self.last_agent_id == old(self).last_agent_id,
                self.historical_best == old(self).historical_best,
                agents0 == old(self).agents@,
                queue0 == old(self).migration_queue@,
                ids_distinct(agents0),
                self.energy_total() == old(self).energy_total(),
                self.agents@.len() == agents0.len() - t,
                self.migration_queue@.len() == queue0.len() + t,
                self.migration_queue@.subrange(0, queue0.len() as int) == queue0,
                forall|u: int|
                    queue0.len() <= u < self.migration_queue@.len() ==> agents0.contains(
                        #[trigger] self.migration_queue@[u],
                    ),
                forall|k: int|
                    0 <= k < self.agents@.len() ==> agents0.contains(#[trigger] self.agents@[k]),
                chosen@.no_duplicates(),
                forall|u: int|
                    t <= u < chosen@.len() ==> has_id(self.agents@, #[trigger] chosen@[u]),
                forall|u: int|
                    0 <= u < chosen@.len() ==> ranked_in_pool(
                        agents0,
                        #[trigger] chosen@[u],
                        best_n as int,
                    ),
                forall|u: int|
                    queue0.len() <= u < self.migration_queue@.len() ==> count_energy_above(
                        agents0,
                        (#[trigger] self.migration_queue@[u]).energy,
                    ) < best_n,
            decreases chosen@.len() - t,
        {
            let id: AgentId = chosen[t];
            let i: usize = match self.find_index(id) {
                Some(i) => i,
                None => unreached(),
            };
            let ghost prev_agents: Seq<Agent> = self.agents@;
            let ghost prev_queue: Seq<Agent> = self.migration_queue@;
            proof {
                assert forall|k: int|
                    0 <= k < prev_agents.len() implies agents0.contains(
                        #[trigger] prev_agents[k],
                    ) by {
                    assert(prev_agents[k] == self.agents@[k]);
                }
            }
            let a: Agent = self.agents.remove(i);
            self.migration_queue.push(a);
            proof {
                lemma_energy_sum_remove(prev_agents, i as int);
                lemma_energy_sum_push(prev_queue, a);
                prev_agents.remove_ensures(i as int);
                assert(!has_id(self.agents@, a.id)) by {
                    if has_id(self.agents@, a.id) {
                        let w = choose|w: int|
                            0 <= w < self.agents@.len() && (#[trigger] self.agents@[w]).id == a.id;
                        let w0: int = if w < i as int {
                            w
                        } else {
                            w + 1
                        };
                        assert(prev_agents[w0].id == a.id);
                        assert(prev_agents[i as int].id == a.id);
                        assert(w0 != i as int);
                    }
                }
                assert(self.migration_queue@.subrange(0, queue0.len() as int) =~= queue0);
                assert(count_energy_above(agents0, a.energy) < best_n) by {
                    assert(a.id == chosen@[t as int]);
                    assert(ranked_in_pool(agents0, chosen@[t as int], best_n as int));
                    let w = choose|w: int|
                        0 <= w < agents0.len() && (#[trigger] agents0[w]).id == chosen@[t as int]
                            && count_energy_above(agents0, agents0[w].energy) < best_n as int;
                    assert(agents0.contains(prev_agents[i as int]));
                    let v = choose|v: int|
                        0 <= v < agents0.len() && agents0[v] == prev_agents[i as int];
                    assert(agents0[v].id == a.id);
                    assert(v == w);
                    assert(a.energy == agents0[w].energy);
                }
                assert forall|u: int|
                    t + 1 <= u < chosen@.len() implies has_id(
                        self.agents@,
                        #[trigger] chosen@[u],
                    ) by {
                    assert(chosen@[u] != chosen@[t as int]);
                    let w = choose|w: int|
                        0 <= w < prev_agents.len() && (#[trigger] prev_agents[w]).id == chosen@[u];
                    assert(w != i as int);
                    let w1: int = if w < i as int {
                        w
                    } else {
                        w - 1
                    };
                    assert(self.agents@[w1].id == chosen@[u]);
                }
            }
            t = t + 1;
        }
    }

    /// One full step of this island: classify every agent by the
    /// reproduction policy, run the reproduction pairs, then the combat
    /// pairs, then remove the dead. The island's total energy is exactly
    /// conserved, the best snapshot never regresses, every surviving
    /// identity is either an old one or freshly minted here, a step changes
    /// only energies of surviving old agents (never their genes or
    /// fitness), and two agents certain to reproduce advance the counter.
    pub fn step<F: FitnessFn, C: CombatWinChanceFn, R: ReproductionChanceFn, RS: RandomSource>(
        &mut self,
        share: u32,
        energy_combat: u32,
        rng: &mut RS,
    )
        requires
            old(self).wf::<F>(),
            domain_wf(F::spec_domain()),
            share <= ENERGY_SHARE_SCALE,
            old(self).energy_total() <= u32::MAX,
        ensures
            final(self).wf::<F>(),
            final(self).energy_total() == old(self).energy_total(),
            final(self).id == old(self).id,
            final(self).migration_queue@ == old(self).migration_queue@,
            old(self).last_agent_id <= final(self).last_agent_id,
            final(self).historical_best.fitness <= old(self).historical_best.fitness,
            forall|k: int|
                0 <= k < final(self).agents@.len() ==> has_id(
                    old(self).agents@,
                    (#[trigger] final(self).agents@[k]).id,
                ) || (final(self).agents@[k].id.island == old(self).id && old(self).last_agent_id
                    < final(self).agents@[k].id.seq <= final(self).last_agent_id),
            forall|k: int|
                0 <= k < final(self).agents@.len() ==> (#[trigger] final(self).agents@[k]).energy
                    >= 1,
            forall|k: int|
                0 <= k < final(self).agents@.len() && has_id(
                    old(self).agents@,
                    (#[trigger] final(self).agents@[k]).id,
                ) ==> (exists|w: int|
                    0 <= w < old(self).agents@.len() && (#[trigger] old(self).agents@[w]).id
                        == final(self).agents@[k].id && final(self).agents@[k].genes@
                        == old(self).agents@[w].genes@ && final(self).agents@[k].fitness
                        == old(self).agents@[w].fitness),
            (old(self).last_agent_id < u64::MAX - 1 && (exists|i: int, j: int|
                0 <= i < old(self).agents@.len() && 0 <= j < old(self).agents@.len() && i != j
                    && R::spec_chance((#[trigger] old(self).agents@[i]).energy) >= CHANCE_SCALE
                    && R::spec_chance((#[trigger] old(self).agents@[j]).energy)
                    >= CHANCE_SCALE)) ==> final(self).last_agent_id > old(self).last_agent_id,
    {
        let mut to_repro: Vec<AgentId> = Vec::new();
        let mut to_combat: Vec<AgentId> = Vec::new();
        let mut i: usize = 0;
        while i < self.agents.len()
            invariant
                i <= self.agents@.len(),
                self.wf::<F>(),
                *self == *old(self),
                forall|w: int|
                    0 <= w < i && R::spec_chance((#[trigger] self.agents@[w]).energy)
                        >= CHANCE_SCALE ==> to_repro@.contains(self.agents@[w].id),
                forall|t: int|
                    0 <= t < to_repro@.len() ==> exists|w: int|
                        0 <= w < i && (#[trigger] self.agents@[w]).id == #[trigger] to_repro@[t],
                forall|t: int|
                    0 <= t < to_combat@.len() ==> exists|w: int|
                        0 <= w < i && (#[trigger] self.agents@[w]).id == #[trigger] to_combat@[t],
                to_repro@.no_duplicates(),
                to_combat@.no_duplicates(),
            decreases self.agents@.len() - i,
        {
            let action: Action = self.agents[i].pick_action::<R, RS>(rng);
            let aid: AgentId = self.agents[i].id;
            proof {
                assert forall|t: int|
                    0 <= t < to_repro@.len() implies #[trigger] to_repro@[t] != aid by {
                    let w = choose|w: int|
                        0 <= w < i && (#[trigger] self.agents@[w]).id == to_repro@[t];
                    assert(self.agents@[w].id != self.agents@[i as int].id);
                }
                assert forall|t: int|
                    0 <= t < to_combat@.len() implies #[trigger] to_combat@[t] != aid by {
                    let w = choose|w: int|
                        0 <= w < i && (#[trigger] self.agents@[w]).id == to_combat@[t];
                    assert(self.agents@[w].id != self.agents@[i as int].id);
                }
            }
            let ghost repro_pre: Seq<AgentId> = to_repro@;
            match action {
                Action::Reproduce => to_repro.push(aid),
                Action::Combat => to_combat.push(aid),
            }
            proof {
                assert forall|w: int|
                    0 <= w < i + 1 && R::spec_chance((#[trigger] self.agents@[w]).energy)
                        >= CHANCE_SCALE implies to_repro@.contains(self.agents@[w].id) by {
                    if w == i as int {
                        assert(action == Action::Reproduce);
                        assert(to_repro@[to_repro@.len() - 1] == aid);
                    } else {
                        let t = choose|t: int|
                            0 <= t < repro_pre.len() && repro_pre[t] == self.agents@[w].id;
                        assert(to_repro@[t] == self.agents@[w].id);
                    }
                }
            }
            i = i + 1;
        }
        let ghost state0: Island = *self;
        proof {
            assert forall|t: int|
                0 <= t < to_repro@.len() implies has_id(self.agents@, #[trigger] to_repro@[t]) by {
                let w = choose|w: int|
                    0 <= w < self.agents@.len() && (#[trigger] self.agents@[w]).id
                        == to_repro@[t];
            }
            assert forall|t: int|
                0 <= t < to_combat@.len() implies has_id(self.agents@, #[trigger] to_combat@[t]) by {
                let w = choose|w: int|
                    0 <= w < self.agents@.len() && (#[trigger] self.agents@[w]).id
                        == to_combat@[t];
            }
            if exists|i: int, j: int|
                0 <= i < old(self).agents@.len() && 0 <= j < old(self).agents@.len() && i != j
                    && R::spec_chance((#[trigger] old(self).agents@[i]).energy) >= CHANCE_SCALE
                    && R::spec_chance((#[trigger] old(self).agents@[j]).energy) >= CHANCE_SCALE {
                let (wi, wj) = choose|i: int, j: int|
                    0 <= i < old(self).agents@.len() && 0 <= j < old(self).agents@.len() && i != j
                        && R::spec_chance((#[trigger] old(self).agents@[i]).energy)
                        >= CHANCE_SCALE && R::spec_chance(
                        (#[trigger] old(self).agents@[j]).energy,
                    ) >= CHANCE_SCALE;
                assert(to_repro@.contains(self.agents@[wi].id));
                assert(to_repro@.contains(self.agents@[wj].id));
                let ti = choose|t: int|
                    0 <= t < to_repro@.len() && to_repro@[t] == self.agents@[wi].id;
                let tj = choose|t: int|
                    0 <= t < to_repro@.len() && to_repro@[t] == self.agents@[wj].id;
                assert(self.agents@[wi].id != self.agents@[wj].id);
                assert(ti != tj);
                assert(to_repro@.len() >= 2);
            }
        }
        self.reproductions::<F, RS>(to_repro, share, rng);
        let ghost state1: Island = *self;
        proof {
            assert forall|t: int|
                0 <= t < to_combat@.len() implies has_id(self.agents@, #[trigger] to_combat@[t]) by {
                assert(has_id(state0.agents@, to_combat@[t]));
            }
        }
        self.combats::<F, C, RS>(to_combat, energy_combat, rng);
        let ghost state2: Island = *self;
        proof {
            assert forall|k: int|
                0 <= k < self.agents@.len() implies has_id(
                    old(self).agents@,
                    (#[trigger] self.agents@[k]).id,
                ) || (self.agents@[k].id.island == old(self).id && old(self).last_agent_id
                    < self.agents@[k].id.seq <= self.last_agent_id) by {
                assert(self.agents@[k].id == state1.agents@[k].id);
            }
        }
        self.deaths::<F>();
        proof {
            lemma_survivors_positive(state2.agents@);
            assert forall|k: int|
                0 <= k < self.agents@.len() && has_id(
                    old(self).agents@,
                    (#[trigger] self.agents@[k]).id,
                ) implies (exists|w: int|
                    0 <= w < old(self).agents@.len() && (#[trigger] old(self).agents@[w]).id
                        == self.agents@[k].id && self.agents@[k].genes@
                        == old(self).agents@[w].genes@ && self.agents@[k].fitness
                        == old(self).agents@[w].fitness) by {
                lemma_survivors_contained(state2.agents@);
                assert(state2.agents@.contains(self.agents@[k]));
                let v = choose|v: int|
                    0 <= v < state2.agents@.len() && state2.agents@[v] == self.agents@[k];
                let w0 = choose|w: int|
                    0 <= w < old(self).agents@.len() && (#[trigger] old(self).agents@[w]).id
                        == self.agents@[k].id;
                assert(state1.agents@[w0].id == old(self).agents@[w0].id);
                assert(state2.agents@[w0].id == state1.agents@[w0].id);
                assert(v == w0) by {
                    assert(ids_distinct(state2.agents@));
                    assert(state2.agents@[v].id == state2.agents@[w0].id);
                }
                assert(state2.agents@[w0].genes@ == state1.agents@[w0].genes@
                    && state2.agents@[w0].fitness == state1.agents@[w0].fitness);
                assert(state1.agents@[w0].genes@ == old(self).agents@[w0].genes@
                    && state1.agents@[w0].fitness == old(self).agents@[w0].fitness);
            }
            assert forall|k: int|
                0 <= k < self.agents@.len() implies has_id(
                    old(self).agents@,
                    (#[trigger] self.agents@[k]).id,
                ) || (self.agents@[k].id.island == old(self).id && old(self).last_agent_id
                    < self.agents@[k].id.seq <= self.last_agent_id) by {
                lemma_survivors_contained(state2.agents@);
                assert(state2.agents@.contains(self.agents@[k]));
                let w = choose|w: int|
                    0 <= w < state2.agents@.len() && state2.agents@[w] == self.agents@[k];
                assert(has_id(old(self).agents@, state2.agents@[w].id) || (
                state2.agents@[w].id.island == old(self).id && old(self).last_agent_id
                    < state2.agents@[w].id.seq <= state2.last_agent_id));
            }
        }
    }
}

} // verus!
