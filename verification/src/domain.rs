//! Box domains: the per-dimension closed intervals that every gene of every
//! agent must stay inside. Genes are fixed-point values: the caller picks the
//! scale, the optimizer only ever needs the interval arithmetic below.

use vstd::prelude::*;

verus! {

/// Largest magnitude a domain bound may have. Keeping bounds inside this
/// range guarantees that interval widths and mutation offsets fit in `i64`.
pub const GENE_LIMIT: i64 = 1_000_000_000_000_000_000;

/// The closed interval `[min, max]` that one gene coordinate must stay in.
#[derive(Clone, Copy, PartialEq, Eq, Structural, Debug)]
pub struct GeneBound {
    pub min: i64,
    pub max: i64,
}

impl GeneBound {
    /// A bound is usable when it is a non-empty interval within `GENE_LIMIT`.
    pub open spec fn wf(self) -> bool {
        &&& self.min <= self.max
        &&& -GENE_LIMIT <= self.min
        &&& self.max <= GENE_LIMIT
    }
}

/// Every dimension's bound is well formed and there is at least one dimension.
pub open spec fn domain_wf(dom: Seq<GeneBound>) -> bool {
    &&& dom.len() >= 1
    &&& forall|i: int| 0 <= i < dom.len() ==> (#[trigger] dom[i]).wf()
}

/// `genes` has one coordinate per dimension and each lies in its interval.
pub open spec fn genes_within(dom: Seq<GeneBound>, genes: Seq<i64>) -> bool {
    &&& genes.len() == dom.len()
    &&& forall|i: int| 0 <= i < dom.len() ==> dom[i].min <= #[trigger] genes[i] <= dom[i].max
}

/// Clamp `v` into the closed interval of `b`.
pub fn clamp_gene(v: i64, b: GeneBound) -> (r: i64)
    requires
        b.min <= b.max,
    ensures
        b.min <= r <= b.max,
        v < b.min ==> r == b.min,
        v > b.max ==> r == b.max,
        b.min <= v <= b.max ==> r == v,
{
    if v < b.min {
        b.min
    } else if v > b.max {
        b.max
    } else {
        v
    }
}

} // verus!
