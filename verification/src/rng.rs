//! Randomness as an explicit capability. Every operation of the optimizer
//! that consumes randomness takes a `RandomSource` argument, so runs can be
//! driven either by a real generator or by a deterministic replay of recorded
//! draws. The contracts only pin down what holds of every possible outcome
//! (ranges, distinctness, permutation); they never pin down the draw itself.

use vstd::prelude::*;
use crate::agent::AgentId;
use crate::chances::CHANCE_SCALE;

verus! {

/// Largest interval width `next_gene` must accept; keeps the arithmetic of
/// every implementation inside `i64`.
pub const GENE_SPAN_MAX: i64 = 4_000_000_000_000_000_000;

/// A source of random draws. All decisions of the optimizer go through one
/// value of this trait, which makes runs seedable and replayable.
pub trait RandomSource: Sized {
    /// A uniform index below `n`.
    fn next_below(&mut self, n: usize) -> (r: usize)
        requires
            n >= 1,
        ensures
            r < n,
    ;

    /// A uniform draw to compare against a chance in `[0, CHANCE_SCALE]`:
    /// a chance of `CHANCE_SCALE` then always passes, a chance of 0 never.
    fn next_chance(&mut self) -> (r: u32)
        ensures
            r < CHANCE_SCALE,
    ;

    /// A uniform value in the closed interval `[lo, hi]`.
    fn next_gene(&mut self, lo: i64, hi: i64) -> (r: i64)
        requires
            lo <= hi,
            hi - lo <= GENE_SPAN_MAX,
        ensures
            lo <= r <= hi,
    ;

    /// A uniform sign choice.
    fn next_coin(&mut self) -> (r: bool);

    /// Permute `ids` in place: the new order holds exactly the old elements.
    fn shuffle_agent_ids(&mut self, ids: &mut Vec<AgentId>)
        ensures
            final(ids)@.to_multiset() == old(ids)@.to_multiset(),
    ;

    /// `k` distinct indices below `n`, sampled without replacement.
    fn pick_distinct(&mut self, n: usize, k: usize) -> (r: Vec<usize>)
        requires
            k <= n,
        ensures
            r@.len() == k,
            r@.no_duplicates(),
            forall|i: int| 0 <= i < r@.len() ==> #[trigger] r@[i] < n,
    ;
}

/// A deterministic source that replays a recorded list of raw draws, for
/// reproducible runs and for scripting exact scenarios. Once the recorded
/// draws are used up, every further raw draw is 0.
pub struct ReplayRandomSource {
    pub draws: Vec<u64>,
    pub cursor: usize,
}

impl ReplayRandomSource {
    /// A source that will hand out the given raw draws in order.
    pub fn new(draws: Vec<u64>) -> (r: ReplayRandomSource)
        ensures
            r.draws == draws,
            r.cursor == 0,
    {
        ReplayRandomSource { draws, cursor: 0 }
    }

    /// The next recorded raw draw, or 0 when the recording is exhausted.
    fn next_raw(&mut self) -> (r: u64)
        ensures
            final(self).draws == old(self).draws,
    {
        if self.cursor < self.draws.len() {
            let v: u64 = self.draws[self.cursor];
            self.cursor = self.cursor + 1;
            v
        } else {
            0
        }
    }
}

impl RandomSource for ReplayRandomSource {
    fn next_below(&mut self, n: usize) -> (r: usize) {
        let v: u64 = self.next_raw();
        (v % (n as u64)) as usize
    }

    fn next_chance(&mut self) -> (r: u32) {
        let v: u64 = self.next_raw();
        (v % (CHANCE_SCALE as u64)) as u32
    }

    fn next_gene(&mut self, lo: i64, hi: i64) -> (r: i64) {
        let v: u64 = self.next_raw();
        let width: i64 = hi - lo + 1;
        let offset: i64 = (v % (width as u64)) as i64;
        lo + offset
    }

    fn next_coin(&mut self) -> (r: bool) {
        let v: u64 = self.next_raw();
        v % 2 == 1
    }

    fn shuffle_agent_ids(&mut self, ids: &mut Vec<AgentId>) {
        let ghost orig: Seq<AgentId> = ids@;
        let mut out: Vec<AgentId> = Vec::new();
        while ids.len() > 0
            invariant
                (out@ + ids@).to_multiset() == orig.to_multiset(),
            decreases ids.len(),
        {
            let j: usize = self.next_below(ids.len());
            let ghost prev_ids: Seq<AgentId> = ids@;
            let ghost prev_out: Seq<AgentId> = out@;
            let a: AgentId = ids.remove(j);
            out.push(a);
            proof {
                broadcast use vstd::seq_lib::group_to_multiset_ensures;
                broadcast use vstd::seq_lib::lemma_multiset_commutative;
                broadcast use vstd::multiset::group_multiset_axioms;
                assert((prev_out + prev_ids).to_multiset() == orig.to_multiset());
                assert(out@ == prev_out.push(a));
                assert(ids@ == prev_ids.remove(j as int));
                assert((out@ + ids@).to_multiset() =~= out@.to_multiset().add(
                    ids@.to_multiset(),
                ));
                assert((prev_out + prev_ids).to_multiset() =~= prev_out.to_multiset().add(
                    prev_ids.to_multiset(),
                ));
                assert(out@.to_multiset() =~= prev_out.to_multiset().insert(a));
                assert(ids@.to_multiset() =~= prev_ids.to_multiset().remove(a));
                assert(prev_ids.to_multiset().contains(a)) by {
                    assert(prev_ids.contains(a));
                }
                assert((out@ + ids@).to_multiset() =~= orig.to_multiset());
            }
        }
        proof {
            assert(out@ + ids@ =~= out@);
        }
        *ids = out;
    }

    fn pick_distinct(&mut self, n: usize, k: usize) -> (r: Vec<usize>) {
        let mut pool: Vec<usize> = Vec::new();
        let mut i: usize = 0;
        while i < n
            invariant
                i <= n,
                pool@.len() == i,
                forall|t: int| 0 <= t < pool@.len() ==> #[trigger] pool@[t] == t,
            decreases n - i,
        {
            pool.push(i);
            i = i + 1;
        }
        assert(pool@.no_duplicates());
        let mut out: Vec<usize> = Vec::new();
        let mut t: usize = 0;
        while t < k
            invariant
                t <= k,
                k <= n,
                out@.len() == t,
                pool@.len() == n - t,
                out@.no_duplicates(),
                pool@.no_duplicates(),
                forall|x: int| 0 <= x < out@.len() ==> #[trigger] out@[x] < n,
                forall|x: int| 0 <= x < pool@.len() ==> #[trigger] pool@[x] < n,
                forall|x: int, y: int|
                    0 <= x < out@.len() && 0 <= y < pool@.len() ==> out@[x] != pool@[y],
            decreases k - t,
        {
            let j: usize = self.next_below(pool.len());
            let ghost old_pool: Seq<usize> = pool@;
            let v: usize = pool.remove(j);
            proof {
                old_pool.remove_ensures(j as int);
            }
            out.push(v);
            t = t + 1;
        }
        out
    }
}

/// A real random source: a seeded `rand` standard generator. The draws it
/// hands out satisfy the same range contracts as every other source; nothing
/// beyond those ranges is assumed of them.
pub struct StdRandomSource {
    pub rng: rand::rngs::StdRng,
}

#[verifier::external_type_specification]
#[verifier::external_body]
pub struct ExStdRng(rand::rngs::StdRng);

/// Relies on rand::SeedableRng::seed_from_u64: a generator deterministically
/// derived from the seed.
#[verifier::external_body]
fn std_rng_seeded(seed: u64) -> rand::rngs::StdRng {
    <rand::rngs::StdRng as rand::SeedableRng>::seed_from_u64(seed)
}

/// Relies on rand::Rng::gen_range over `0..n`: a uniform value of the
/// non-empty range, so strictly below `n`.
#[verifier::external_body]
fn std_rng_below(r: &mut rand::rngs::StdRng, n: usize) -> (v: usize)
    requires
        n >= 1,
    ensures
        v < n,
{
    rand::Rng::gen_range(r, 0..n)
}

/// Relies on rand::Rng::gen_range over `lo..=hi`: a uniform value of the
/// non-empty closed range, so between the bounds inclusively.
#[verifier::external_body]
fn std_rng_between(r: &mut rand::rngs::StdRng, lo: i64, hi: i64) -> (v: i64)
    requires
        lo <= hi,
    ensures
        lo <= v <= hi,
{
    rand::Rng::gen_range(r, lo..=hi)
}

/// Relies on rand::Rng::gen for `bool`: one fair coin flip.
#[verifier::external_body]
fn std_rng_coin(r: &mut rand::rngs::StdRng) -> (v: bool) {
    rand::Rng::gen(r)
}

/// Relies on rand::seq::SliceRandom::shuffle: a Fisher-Yates permutation of
/// the slice in place, so the elements are exactly the old ones.
#[verifier::external_body]
fn std_rng_shuffle(r: &mut rand::rngs::StdRng, ids: &mut Vec<AgentId>)
    ensures
        final(ids)@.to_multiset() == old(ids)@.to_multiset(),
{
    rand::seq::SliceRandom::shuffle(ids.as_mut_slice(), r)
}

/// Relies on rand::seq::IteratorRandom::choose_multiple on `0..n`: reservoir
/// sampling that, given at least `k` items, returns exactly `k` of them
/// without replacement — here `k` distinct indices below `n`.
#[verifier::external_body]
fn std_rng_sample(r: &mut rand::rngs::StdRng, n: usize, k: usize) -> (v: Vec<usize>)
    requires
        k <= n,
    ensures
        v@.len() == k,
        v@.no_duplicates(),
        forall|i: int| 0 <= i < v@.len() ==> #[trigger] v@[i] < n,
{
    rand::seq::IteratorRandom::choose_multiple(0..n, r, k)
}

impl StdRandomSource {
    /// A generator deterministically derived from `seed`: runs with the same
    /// seed and inputs draw the same values.
    pub fn seeded(seed: u64) -> StdRandomSource {
        StdRandomSource { rng: std_rng_seeded(seed) }
    }
}

impl RandomSource for StdRandomSource {
    fn next_below(&mut self, n: usize) -> (r: usize) {
        std_rng_below(&mut self.rng, n)
    }

    fn next_chance(&mut self) -> (r: u32) {
        let v: usize = std_rng_below(&mut self.rng, CHANCE_SCALE as usize);
        v as u32
    }

    fn next_gene(&mut self, lo: i64, hi: i64) -> (r: i64) {
        std_rng_between(&mut self.rng, lo, hi)
    }

    fn next_coin(&mut self) -> (r: bool) {
        std_rng_coin(&mut self.rng)
    }

    fn shuffle_agent_ids(&mut self, ids: &mut Vec<AgentId>) {
        std_rng_shuffle(&mut self.rng, ids)
    }

    fn pick_distinct(&mut self, n: usize, k: usize) -> (r: Vec<usize>) {
        std_rng_sample(&mut self.rng, n, k)
    }
}

} // verus!
