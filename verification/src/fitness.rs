//! The fitness strategy: a pure cost function over gene vectors, together
//! with the box domain those vectors live in. Lower fitness is better; the
//! optimizer only ever compares and copies fitness values.

use vstd::prelude::*;
use crate::domain::{GeneBound, genes_within};

verus! {

/// A user-supplied cost function over a fixed box domain. `spec_fitness` is
/// the mathematical statement of the cost; `call` must compute exactly it.
pub trait FitnessFn {
    /// The box domain the strategy is defined over.
    spec fn spec_domain() -> Seq<GeneBound>;

    /// The cost of a gene vector (lower is better).
    spec fn spec_fitness(genes: Seq<i64>) -> i64;

    /// The domain, as data.
    fn domain() -> (d: Vec<GeneBound>)
        ensures
            d@ == Self::spec_domain(),
    ;

    /// The cost of `genes`, which must lie within the strategy's domain.
    fn call(genes: &Vec<i64>) -> (r: i64)
        requires
            genes_within(Self::spec_domain(), genes@),
        ensures
            r == Self::spec_fitness(genes@),
    ;
}

/// Width of the sphere benchmark's domain on each side of the origin.
pub const SPHERE_BOUND: i64 = 1_000_000;

/// The two-dimensional sphere benchmark: the cost of `(x, y)` is
/// `x*x + y*y`, minimized at the origin with cost 0.
pub struct SphereFitness;

impl FitnessFn for SphereFitness {
    open spec fn spec_domain() -> Seq<GeneBound> {
        seq![
            GeneBound { min: (-SPHERE_BOUND) as i64, max: SPHERE_BOUND },
            GeneBound { min: (-SPHERE_BOUND) as i64, max: SPHERE_BOUND },
        ]
    }

    open spec fn spec_fitness(genes: Seq<i64>) -> i64 {
        if genes.len() == 2 {
            (genes[0] * genes[0] + genes[1] * genes[1]) as i64
        } else {
            0
        }
    }

    fn domain() -> (d: Vec<GeneBound>) {
        let mut d: Vec<GeneBound> = Vec::new();
        d.push(GeneBound { min: -SPHERE_BOUND, max: SPHERE_BOUND });
        d.push(GeneBound { min: -SPHERE_BOUND, max: SPHERE_BOUND });
        proof {
            assert(d@ =~= Self::spec_domain());
        }
        d
    }

    fn call(genes: &Vec<i64>) -> (r: i64) {
        let x: i64 = genes[0];
        let y: i64 = genes[1];
        proof {
            assert(Self::spec_domain()[0] == GeneBound { min: (-SPHERE_BOUND) as i64, max: SPHERE_BOUND });
            assert(Self::spec_domain()[1] == GeneBound { min: (-SPHERE_BOUND) as i64, max: SPHERE_BOUND });
            assert(-SPHERE_BOUND <= x <= SPHERE_BOUND);
            assert(-SPHERE_BOUND <= y <= SPHERE_BOUND);
            assert(x * x <= SPHERE_BOUND * SPHERE_BOUND && x * x >= 0) by (nonlinear_arith)
                requires
                    -SPHERE_BOUND <= x <= SPHERE_BOUND,
            ;
            assert(y * y <= SPHERE_BOUND * SPHERE_BOUND && y * y >= 0) by (nonlinear_arith)
                requires
                    -SPHERE_BOUND <= y <= SPHERE_BOUND,
            ;
        }
        x * x + y * y
    }
}

} // verus!
