//! Cost-metric predicates over a material cost vector: affordability, exact
//! slot-count equality, stack- and crate-divisibility, and the fused
//! "perfectly stackable" / "perfectly crateable" checks.

use vstd::prelude::*;

use crate::material::{crate_of, stack_of};
use crate::{MATERIAL_COUNT, TRUCK_SIZE_U16};

verus! {

/// The entries of a cost vector as unbounded integers.
pub open spec fn to_ints(s: Seq<u16>) -> Seq<int> {
    s.map_values(|x: u16| x as int)
}

/// A cost vector: one non-negative entry per material.
pub open spec fn cost_vector_wf(cv: Seq<int>) -> bool {
    cv.len() == MATERIAL_COUNT && forall|j: int| 0 <= j < cv.len() ==> cv[j] >= 0
}

/// Ceiling division for non-negative `x` and positive `d`.
pub open spec fn div_ceil_by(x: int, d: int) -> int {
    if x % d == 0 {
        x / d
    } else {
        x / d + 1
    }
}

/// Slots needed by the first `k` entries of a cost vector: each material's
/// cost is rounded up to whole stacks independently, then summed.
pub open spec fn slot_sum_prefix(cv: Seq<int>, k: int) -> int
    decreases k,
{
    if k <= 0 {
        0
    } else {
        slot_sum_prefix(cv, k - 1) + div_ceil_by(cv[k - 1], stack_of(k - 1))
    }
}

/// Total slot count of a cost vector: stacks needed to carry every material.
pub open spec fn spec_slot_count(cv: Seq<int>) -> int {
    slot_sum_prefix(cv, cv.len() as int)
}

/// A cost vector is affordable when its slot count fits one truck.
pub open spec fn spec_affordable(cv: Seq<int>) -> bool {
    spec_slot_count(cv) <= TRUCK_SIZE_U16 as int
}

/// Every material's cost is an exact multiple of its stack value.
pub open spec fn spec_stackable(cv: Seq<int>) -> bool {
    forall|j: int| 0 <= j < cv.len() ==> #[trigger] cv[j] % stack_of(j) == 0
}

/// Every material's cost is an exact multiple of its crate value.
pub open spec fn spec_crateable(cv: Seq<int>) -> bool {
    forall|j: int| 0 <= j < cv.len() ==> #[trigger] cv[j] % crate_of(j) == 0
}

/// The closed family of predicates used both to prune the searches and to
/// classify their results, parameterised by an optional target slot count.
#[derive(Debug, PartialEq, Eq, Structural, Hash, Clone, Copy)]
pub enum CostMetric {
    Affordable,
    NValid(u16),
    Stackable,
    Crateable,
    PerfectlyStackable(u16),
    PerfectlyCrateable(u16),
}

/// What each metric states of a cost vector. The slot count of
/// `PerfectlyCrateable` is deliberately the stack-based one: crates and
/// stacks are different physical units, and truck slots are always stacks.
pub open spec fn spec_check_metric(m: CostMetric, cv: Seq<int>) -> bool {
    match m {
        CostMetric::Affordable => spec_affordable(cv),
        CostMetric::NValid(n) => spec_slot_count(cv) == n as int,
        CostMetric::Stackable => spec_stackable(cv),
        CostMetric::Crateable => spec_crateable(cv),
        CostMetric::PerfectlyStackable(n) => spec_stackable(cv) && spec_slot_count(cv) == n as int,
        CostMetric::PerfectlyCrateable(n) => spec_crateable(cv) && spec_slot_count(cv) == n as int,
    }
}

/// Stack divisor of the material at cost-vector position `j`.
pub(crate) fn stack_value_at(j: usize) -> (r: u16)
    requires
        j < MATERIAL_COUNT,
    ensures
        r == stack_of(j as int),
        r >= 1,
{
    if j == 0 {
        100
    } else if j == 1 {
        100
    } else if j == 2 {
        100
    } else {
        100
    }
}

/// Crate divisor of the material at cost-vector position `j`.
pub(crate) fn crate_value_at(j: usize) -> (r: u16)
    requires
        j < MATERIAL_COUNT,
    ensures
        r == crate_of(j as int),
        r >= 1,
{
    if j == 0 {
        100
    } else if j == 1 {
        40
    } else if j == 2 {
        30
    } else {
        20
    }
}

/// Whole stacks needed for one material's cost.
fn div_ceil_u16(x: u16, d: u16) -> (r: u16)
    requires
        d >= 2,
    ensures
        r == div_ceil_by(x as int, d as int),
{
    let q = x / d;
    if x % d == 0 {
        q
    } else {
        assert(q + 1 <= x) by {
            if x == 0 {
                assert(0int % (d as int) == 0) by {
                    vstd::arithmetic::div_mod::lemma_small_mod(0nat, d as nat);
                }
            }
            vstd::arithmetic::div_mod::lemma_div_decreases(x as int, d as int);
        }
        q + 1
    }
}

impl CostMetric {
    /// Evaluate this metric on a cost vector, in one pass per variant; the
    /// fused variants abort on the first non-divisible material.
    #[verifier::loop_isolation(false)]
    pub fn check_metric(&self, cv: &Vec<u16>) -> (r: bool)
        requires
            cv@.len() == MATERIAL_COUNT,
        ensures
            r == spec_check_metric(*self, to_ints(cv@)),
    {
        let ghost icv = to_ints(cv@);
        match self {
            CostMetric::Affordable => no_slots(cv) <= TRUCK_SIZE_U16,
            CostMetric::NValid(n) => no_slots(cv) == *n,
            CostMetric::Stackable => {
                let mut j: usize = 0;
                while j < MATERIAL_COUNT
                    invariant
                        j <= MATERIAL_COUNT,
                        cv@.len() == MATERIAL_COUNT,
                        icv == to_ints(cv@),
                        forall|k: int| 0 <= k < j ==> #[trigger] icv[k] % stack_of(k) == 0,
                    decreases MATERIAL_COUNT - j,
                {
                    if cv[j] % stack_value_at(j) != 0 {
                        assert(icv[j as int] % stack_of(j as int) != 0);
                        assert(!spec_stackable(icv));
                        return false;
                    }
                    j = j + 1;
                }
                true
            },
            CostMetric::Crateable => {
                let mut j: usize = 0;
                while j < MATERIAL_COUNT
                    invariant
                        j <= MATERIAL_COUNT,
                        cv@.len() == MATERIAL_COUNT,
                        icv == to_ints(cv@),
                        forall|k: int| 0 <= k < j ==> #[trigger] icv[k] % crate_of(k) == 0,
                    decreases MATERIAL_COUNT - j,
                {
                    if cv[j] % crate_value_at(j) != 0 {
                        assert(icv[j as int] % crate_of(j as int) != 0);
                        assert(!spec_crateable(icv));
                        return false;
                    }
                    j = j + 1;
                }
                true
            },
            CostMetric::PerfectlyStackable(n) => {
                let mut acc: u16 = 0;
                let mut j: usize = 0;
                while j < MATERIAL_COUNT
                    invariant
                        j <= MATERIAL_COUNT,
                        cv@.len() == MATERIAL_COUNT,
                        icv == to_ints(cv@),
                        forall|k: int| 0 <= k < j ==> #[trigger] icv[k] % stack_of(k) == 0,
                        acc == slot_sum_prefix(icv, j as int),
                        acc <= j * 656,
                    decreases MATERIAL_COUNT - j,
                {
                    let s = stack_value_at(j);
                    if cv[j] % s != 0 {
                        assert(icv[j as int] % stack_of(j as int) != 0);
                        assert(!spec_stackable(icv));
                        return false;
                    }
                    let t = div_ceil_u16(cv[j], s);
                    assert(t <= 656) by {
                        assert(stack_of(j as int) == 100);
                        assert(div_ceil_by(icv[j as int], 100) <= 656);
                    }
                    acc = acc + t;
                    j = j + 1;
                }
                acc == *n
            },
            CostMetric::PerfectlyCrateable(n) => {
                let mut acc: u16 = 0;
                let mut j: usize = 0;
                while j < MATERIAL_COUNT
                    invariant
                        j <= MATERIAL_COUNT,
                        cv@.len() == MATERIAL_COUNT,
                        icv == to_ints(cv@),
                        forall|k: int| 0 <= k < j ==> #[trigger] icv[k] % crate_of(k) == 0,
                        acc == slot_sum_prefix(icv, j as int),
                        acc <= j * 656,
                    decreases MATERIAL_COUNT - j,
                {
                    if cv[j] % crate_value_at(j) != 0 {
                        assert(icv[j as int] % crate_of(j as int) != 0);
                        assert(!spec_crateable(icv));
                        return false;
                    }
                    // Slots are counted with the stack divisor even though
                    // divisibility is tested with the crate divisor.
                    let t = div_ceil_u16(cv[j], stack_value_at(j));
                    assert(t <= 656) by {
                        assert(stack_of(j as int) == 100);
                        assert(div_ceil_by(icv[j as int], 100) <= 656);
                    }
                    acc = acc + t;
                    j = j + 1;
                }
                acc == *n
            },
        }
    }
}

/// Law: the fused perfectly-stackable check agrees with evaluating
/// stackability and the slot-count test independently.
pub proof fn lemma_perfectly_stackable_agrees(cv: Seq<int>, n: u16)
    ensures
        spec_check_metric(CostMetric::PerfectlyStackable(n), cv) == (spec_check_metric(
            CostMetric::Stackable,
            cv,
        ) && spec_check_metric(CostMetric::NValid(n), cv)),
{
}

/// Law: the fused perfectly-crateable check agrees with evaluating
/// crate-divisibility and the stack-based slot-count test independently;
/// in particular its slot count uses stack values, not crate values.
pub proof fn lemma_perfectly_crateable_agrees(cv: Seq<int>, n: u16)
    ensures
        spec_check_metric(CostMetric::PerfectlyCrateable(n), cv) == (spec_check_metric(
            CostMetric::Crateable,
            cv,
        ) && spec_check_metric(CostMetric::NValid(n), cv)),
{
}

/// Slot terms are never negative.
pub proof fn lemma_slot_sum_prefix_nonneg(cv: Seq<int>, k: int)
    requires
        forall|j: int| 0 <= j < cv.len() ==> cv[j] >= 0,
        k <= cv.len(),
    ensures
        slot_sum_prefix(cv, k) >= 0,
    decreases k,
{
    if k > 0 {
        lemma_slot_sum_prefix_nonneg(cv, k - 1);
    }
}

/// Ceiling division never returns a negative value.
proof fn lemma_div_ceil_nonneg(x: int, d: int)
    requires
        x >= 0,
        d >= 1,
    ensures
        div_ceil_by(x, d) >= 0,
{
    vstd::arithmetic::div_mod::lemma_div_is_ordered(0, x, d);
    assert(0int / d == 0) by {
        vstd::arithmetic::div_mod::lemma_small_div_converse(0, d);
        vstd::arithmetic::div_mod::lemma_small_mod(0nat, d as nat);
    }
}

/// Ceiling division is monotone in its dividend.
proof fn lemma_div_ceil_monotone(x: int, y: int, d: int)
    requires
        0 <= x <= y,
        d >= 1,
    ensures
        div_ceil_by(x, d) <= div_ceil_by(y, d),
{
    vstd::arithmetic::div_mod::lemma_div_is_ordered(x, y, d);
    if x % d != 0 && y % d == 0 && x / d == y / d {
        vstd::arithmetic::div_mod::lemma_fundamental_div_mod(x, d);
        vstd::arithmetic::div_mod::lemma_fundamental_div_mod(y, d);
        vstd::arithmetic::div_mod::lemma_mod_bound(x, d);
        assert(false);
    }
}

/// Each slot term is bounded by the whole prefix sum.
proof fn lemma_slot_term_le_sum(cv: Seq<int>, j: int, k: int)
    requires
        forall|i: int| 0 <= i < cv.len() ==> cv[i] >= 0,
        0 <= j < k <= cv.len(),
    ensures
        div_ceil_by(cv[j], stack_of(j)) <= slot_sum_prefix(cv, k),
    decreases k,
{
    if j == k - 1 {
        lemma_slot_sum_prefix_nonneg(cv, k - 1);
    } else {
        lemma_slot_term_le_sum(cv, j, k - 1);
        lemma_div_ceil_nonneg(cv[k - 1], stack_of(k - 1));
    }
}

/// An affordable cost vector has no entry above one truck's worth of any
/// single material.
pub proof fn lemma_affordable_entry_bound(cv: Seq<int>)
    requires
        cost_vector_wf(cv),
        spec_affordable(cv),
    ensures
        forall|j: int| 0 <= j < cv.len() ==> #[trigger] cv[j] <= 1500,
{
    assert forall|j: int| 0 <= j < cv.len() implies #[trigger] cv[j] <= 1500 by {
        lemma_slot_term_le_sum(cv, j, cv.len() as int);
        assert(stack_of(j) == 100);
        if cv[j] > 1500 {
            assert(div_ceil_by(1501, 100) == 16);
            lemma_div_ceil_monotone(1501, cv[j], 100);
        }
    }
}

/// The slot count is monotone in each entry of the cost vector: growing a
/// batch can only grow the slots it needs.
pub proof fn lemma_slot_sum_monotone(a: Seq<int>, b: Seq<int>, k: int)
    requires
        a.len() == b.len(),
        forall|j: int| 0 <= j < a.len() ==> 0 <= #[trigger] a[j] <= b[j],
        0 <= k <= a.len(),
    ensures
        slot_sum_prefix(a, k) <= slot_sum_prefix(b, k),
    decreases k,
{
    if k > 0 {
        lemma_slot_sum_monotone(a, b, k - 1);
        lemma_div_ceil_monotone(a[k - 1], b[k - 1], stack_of(k - 1));
    }
}

/// Affordability of a cost vector carries down to any componentwise-smaller
/// one; this is what makes prefix pruning in the searches lossless.
pub proof fn lemma_affordable_monotone(a: Seq<int>, b: Seq<int>)
    requires
        a.len() == b.len(),
        forall|j: int| 0 <= j < a.len() ==> 0 <= #[trigger] a[j] <= b[j],
        spec_affordable(b),
    ensures
        spec_affordable(a),
{
    lemma_slot_sum_monotone(a, b, a.len() as int);
}

/// Number of slots a cost vector occupies on the truck.
pub fn no_slots(cv: &Vec<u16>) -> (r: u16)
    requires
        cv@.len() == MATERIAL_COUNT,
    ensures
        r == spec_slot_count(to_ints(cv@)),
{
    let ghost icv = to_ints(cv@);
    let mut acc: u16 = 0;
    let mut j: usize = 0;
    while j < MATERIAL_COUNT
        invariant
            j <= MATERIAL_COUNT,
            cv@.len() == MATERIAL_COUNT,
            icv == to_ints(cv@),
            acc == slot_sum_prefix(icv, j as int),
            acc <= j * 656,
        decreases MATERIAL_COUNT - j,
    {
        let s = stack_value_at(j);
        let t = div_ceil_u16(cv[j], s);
        assert(t <= 656) by {
            assert(stack_of(j as int) == 100);
            assert(div_ceil_by(icv[j as int], 100) <= 656);
        }
        acc = acc + t;
        j = j + 1;
    }
    acc
}

} // verus!
