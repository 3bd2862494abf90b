//! A second, unfused metric family: the plain predicates plus a marker for
//! the "perfect" conjunctions, which are evaluated by composing two plain
//! checks rather than in one fused pass.

use vstd::prelude::*;

use crate::cost_metric::{
    spec_affordable, spec_crateable, spec_slot_count, spec_stackable, to_ints, CostMetric,
};
use crate::MATERIAL_COUNT;

verus! {

/// The plain predicates over a cost vector. `PerfectMetric` only names the
/// family of fused conjunctions below; it has no single evaluation of its
/// own.
#[derive(Debug, PartialEq, Eq, Structural, Hash, Clone, Copy)]
pub enum OptimalityMetric {
    Affordable,
    NValid(u16),
    Stackable,
    Crateable,
    PerfectMetric,
}

/// The conjunctions of a divisibility predicate with an exact slot count.
#[derive(Debug, PartialEq, Eq, Structural, Hash, Clone, Copy)]
pub enum PerfectMetric {
    PerfectlyStackable(u16),
    PerfectlyCrateable(u16),
}

/// What each plain predicate states of a cost vector.
pub open spec fn spec_check_optimality(m: OptimalityMetric, cv: Seq<int>) -> bool {
    match m {
        OptimalityMetric::Affordable => spec_affordable(cv),
        OptimalityMetric::NValid(n) => spec_slot_count(cv) == n as int,
        OptimalityMetric::Stackable => spec_stackable(cv),
        OptimalityMetric::Crateable => spec_crateable(cv),
        OptimalityMetric::PerfectMetric => false,
    }
}

/// What each perfect metric states of a cost vector; the slot count is the
/// stack-based one in both variants.
pub open spec fn spec_check_perfect(m: PerfectMetric, cv: Seq<int>) -> bool {
    match m {
        PerfectMetric::PerfectlyStackable(n) => spec_stackable(cv) && spec_slot_count(cv) == n as int,
        PerfectMetric::PerfectlyCrateable(n) => spec_crateable(cv) && spec_slot_count(cv) == n as int,
    }
}

impl OptimalityMetric {
    /// Evaluate one plain predicate. The `PerfectMetric` marker is not a
    /// predicate and is excluded by contract.
    pub fn check_metric(&self, cv: &Vec<u16>) -> (r: bool)
        requires
            cv@.len() == MATERIAL_COUNT,
            *self != OptimalityMetric::PerfectMetric,
        ensures
            r == spec_check_optimality(*self, to_ints(cv@)),
    {
        match self {
            OptimalityMetric::Affordable => CostMetric::Affordable.check_metric(cv),
            OptimalityMetric::NValid(n) => CostMetric::NValid(*n).check_metric(cv),
            OptimalityMetric::Stackable => CostMetric::Stackable.check_metric(cv),
            OptimalityMetric::Crateable => CostMetric::Crateable.check_metric(cv),
            OptimalityMetric::PerfectMetric => false,
        }
    }
}

impl PerfectMetric {
    /// Evaluate a perfect metric as two independent plain checks.
    pub fn check_metric(&self, cv: &Vec<u16>) -> (r: bool)
        requires
            cv@.len() == MATERIAL_COUNT,
        ensures
            r == spec_check_perfect(*self, to_ints(cv@)),
    {
        match self {
            PerfectMetric::PerfectlyStackable(n) => {
                OptimalityMetric::Stackable.check_metric(cv) && OptimalityMetric::NValid(*n).check_metric(cv)
            },
            PerfectMetric::PerfectlyCrateable(n) => {
                OptimalityMetric::Crateable.check_metric(cv) && OptimalityMetric::NValid(*n).check_metric(cv)
            },
        }
    }
}

/// Law: a perfect metric agrees with the matching fused variant of
/// `CostMetric`, evaluated on the same cost vector.
pub proof fn lemma_perfect_agrees_with_fused(n: u16, cv: Seq<int>)
    ensures
        spec_check_perfect(PerfectMetric::PerfectlyStackable(n), cv) == crate::cost_metric::spec_check_metric(
            CostMetric::PerfectlyStackable(n),
            cv,
        ),
        spec_check_perfect(PerfectMetric::PerfectlyCrateable(n), cv) == crate::cost_metric::spec_check_metric(
            CostMetric::PerfectlyCrateable(n),
            cv,
        ),
{
}

} // verus!
