//! Depth-first batch search: combines one queue-candidate list per category,
//! in the fixed category order, via an explicit stack, pruning any partial
//! batch that is unaffordable or too large, and emits every full-length
//! batch whose aggregate cost satisfies the caller's metric.

use vstd::prelude::*;

use crate::cost_metric::{
    lemma_affordable_entry_bound, lemma_affordable_monotone, spec_affordable, spec_check_metric,
    to_ints, CostMetric,
};
use crate::queue::QueueCandidate;
use crate::{MATERIAL_COUNT, TRUCK_SIZE_U16};

verus! {

/// Every candidate of every category list is affordable, fits the truck,
/// and carries a cost vector of the right width.
pub open spec fn all_candidates_valid(cs: Seq<Vec<QueueCandidate>>) -> bool {
    forall|i: int, k: int|
        0 <= i < cs.len() && 0 <= k < cs[i]@.len() ==> (#[trigger] cs[i]@[k]).valid()
}

/// A selection picks one candidate index per category, for a prefix of the
/// category order.
pub open spec fn sel_ok(cs: Seq<Vec<QueueCandidate>>, sel: Seq<int>) -> bool {
    sel.len() <= cs.len() && forall|i: int| 0 <= i < sel.len() ==> 0 <= #[trigger] sel[i] < cs[i]@.len()
}

/// Material `j` of the aggregate cost vector of a selection.
pub open spec fn sel_cost_at(cs: Seq<Vec<QueueCandidate>>, sel: Seq<int>, j: int) -> int
    decreases sel.len(),
{
    if sel.len() == 0 {
        0
    } else {
        sel_cost_at(cs, sel.drop_last(), j) + cs[sel.len() - 1]@[sel.last()].cost@[j]
    }
}

/// The aggregate cost vector of a selection.
pub open spec fn sel_costs(cs: Seq<Vec<QueueCandidate>>, sel: Seq<int>) -> Seq<int> {
    Seq::new(MATERIAL_COUNT as nat, |j: int| sel_cost_at(cs, sel, j))
}

/// The aggregate item count of a selection.
pub open spec fn sel_count(cs: Seq<Vec<QueueCandidate>>, sel: Seq<int>) -> int
    decreases sel.len(),
{
    if sel.len() == 0 {
        0
    } else {
        sel_count(cs, sel.drop_last()) + cs[sel.len() - 1]@[sel.last()].item_count
    }
}

/// A selection is feasible when its aggregate cost is affordable and its
/// aggregate item count fits the truck.
pub open spec fn sel_feasible(cs: Seq<Vec<QueueCandidate>>, sel: Seq<int>) -> bool {
    spec_affordable(sel_costs(cs, sel)) && sel_count(cs, sel) <= TRUCK_SIZE_U16 as int
}

/// `batch` holds exactly the order vectors the selection picks.
pub open spec fn batch_matches(
    cs: Seq<Vec<QueueCandidate>>,
    sel: Seq<int>,
    batch: Seq<Vec<u16>>,
) -> bool {
    batch.len() == sel.len() && forall|i: int|
        0 <= i < sel.len() ==> (#[trigger] batch[i])@ == cs[i]@[sel[i]].queue@
}

/// What the batch search emits: a full-length feasible selection whose
/// aggregate cost satisfies the metric.
pub open spec fn batch_target(
    cs: Seq<Vec<QueueCandidate>>,
    n: int,
    metric: CostMetric,
    sel: Seq<int>,
) -> bool {
    &&& sel_ok(cs, sel)
    &&& sel.len() == n
    &&& sel_feasible(cs, sel)
    &&& spec_check_metric(metric, sel_costs(cs, sel))
}

/// One emitted batch: its order vectors, aggregate cost vector and item
/// count.
pub struct BatchResult {
    pub batch: Vec<Vec<u16>>,
    pub cost: Vec<u16>,
    pub item_count: u16,
}

/// An emitted result carries exactly the data of its selection.
pub open spec fn result_matches(
    cs: Seq<Vec<QueueCandidate>>,
    sel: Seq<int>,
    r: BatchResult,
) -> bool {
    &&& batch_matches(cs, sel, r.batch@)
    &&& r.cost@.len() == MATERIAL_COUNT
    &&& forall|j: int| 0 <= j < MATERIAL_COUNT ==> r.cost@[j] == sel_cost_at(cs, sel, j)
    &&& r.item_count == sel_count(cs, sel)
}

/// Appending one pick adds that candidate's cost and count.
pub proof fn lemma_sel_push(cs: Seq<Vec<QueueCandidate>>, sel: Seq<int>, k: int, j: int)
    ensures
        sel_cost_at(cs, sel.push(k), j) == sel_cost_at(cs, sel, j) + cs[sel.len() as int]@[k].cost@[j],
        sel_count(cs, sel.push(k)) == sel_count(cs, sel) + cs[sel.len() as int]@[k].item_count,
{
    let s = sel.push(k);
    assert(s.drop_last() =~= sel);
    assert(s.last() == k);
}

/// Truncating one pick removes that candidate's cost and count.
pub proof fn lemma_sel_take_succ(cs: Seq<Vec<QueueCandidate>>, sel: Seq<int>, k: int, j: int)
    requires
        0 <= k < sel.len(),
    ensures
        sel_cost_at(cs, sel.subrange(0, k + 1), j) == sel_cost_at(cs, sel.subrange(0, k), j)
            + cs[k]@[sel[k]].cost@[j],
        sel_count(cs, sel.subrange(0, k + 1)) == sel_count(cs, sel.subrange(0, k))
            + cs[k]@[sel[k]].item_count,
{
    let s = sel.subrange(0, k + 1);
    assert(s.drop_last() =~= sel.subrange(0, k));
    assert(s.last() == sel[k]);
}

/// Aggregate costs and counts are never negative.
pub proof fn lemma_sel_nonneg(cs: Seq<Vec<QueueCandidate>>, sel: Seq<int>, j: int)
    ensures
        sel_cost_at(cs, sel, j) >= 0,
        sel_count(cs, sel) >= 0,
    decreases sel.len(),
{
    if sel.len() > 0 {
        lemma_sel_nonneg(cs, sel.drop_last(), j);
    }
}

/// A prefix of a selection costs and counts no more than the whole.
pub proof fn lemma_sel_prefix_le(cs: Seq<Vec<QueueCandidate>>, sel: Seq<int>, k: int, j: int)
    requires
        0 <= k <= sel.len(),
    ensures
        sel_cost_at(cs, sel.subrange(0, k), j) <= sel_cost_at(cs, sel, j),
        sel_count(cs, sel.subrange(0, k)) <= sel_count(cs, sel),
    decreases sel.len() - k,
{
    if k == sel.len() {
        assert(sel.subrange(0, k) =~= sel);
    } else {
        lemma_sel_prefix_le(cs, sel, k + 1, j);
        lemma_sel_take_succ(cs, sel, k, j);
    }
}

/// Feasibility of a whole selection carries down to each of its prefixes:
/// this is why pruning partial batches loses no final batch.
pub proof fn lemma_sel_prefix_feasible(cs: Seq<Vec<QueueCandidate>>, sel: Seq<int>, k: int)
    requires
        sel_ok(cs, sel),
        sel_feasible(cs, sel),
        0 <= k <= sel.len(),
    ensures
        sel_feasible(cs, sel.subrange(0, k)),
{
    let pre = sel.subrange(0, k);
    assert forall|j: int| 0 <= j < MATERIAL_COUNT implies 0 <= #[trigger] sel_costs(cs, pre)[j]
        <= sel_costs(cs, sel)[j] by {
        lemma_sel_nonneg(cs, pre, j);
        lemma_sel_prefix_le(cs, sel, k, j);
    }
    lemma_affordable_monotone(sel_costs(cs, pre), sel_costs(cs, sel));
    lemma_sel_prefix_le(cs, sel, k, 0);
    lemma_sel_nonneg(cs, pre, 0);
}

/// Largest candidate-list length over all categories.
pub open spec fn max_cand_len(cs: Seq<Vec<QueueCandidate>>) -> int
    decreases cs.len(),
{
    if cs.len() == 0 {
        0
    } else {
        let rest = max_cand_len(cs.drop_last());
        if cs.last()@.len() > rest {
            cs.last()@.len() as int
        } else {
            rest
        }
    }
}

/// Every category's list is bounded by the maximum.
pub(crate) proof fn lemma_max_cand_len(cs: Seq<Vec<QueueCandidate>>, i: int)
    requires
        0 <= i < cs.len(),
    ensures
        (#[trigger] cs[i])@.len() <= max_cand_len(cs),
        max_cand_len(cs) >= 0,
    decreases cs.len(),
{
    if cs.len() > 0 && i < cs.len() - 1 {
        lemma_max_cand_len(cs.drop_last(), i);
        assert(cs.drop_last()[i] == cs[i]);
    }
    if cs.len() > 0 {
        lemma_max_cand_len_nonneg(cs.drop_last());
    }
}

pub(crate) proof fn lemma_max_cand_len_nonneg(cs: Seq<Vec<QueueCandidate>>)
    ensures
        max_cand_len(cs) >= 0,
    decreases cs.len(),
{
    if cs.len() > 0 {
        lemma_max_cand_len_nonneg(cs.drop_last());
    }
}

/// One state of the depth-first traversal: a partial batch, its aggregate
/// cost vector and item count, and (for the proof) the selection of
/// candidate indices it was built from.
struct SearchState {
    batch: Vec<Vec<u16>>,
    cost: Vec<u16>,
    item_count: u16,
    sel: Ghost<Seq<int>>,
}

/// A stack entry is internally consistent with its selection and feasible.
spec fn state_ok(cs: Seq<Vec<QueueCandidate>>, st: SearchState) -> bool {
    &&& sel_ok(cs, st.sel@)
    &&& 1 <= st.sel@.len()
    &&& batch_matches(cs, st.sel@, st.batch@)
    &&& st.cost@.len() == MATERIAL_COUNT
    &&& forall|j: int| 0 <= j < MATERIAL_COUNT ==> st.cost@[j] == sel_cost_at(cs, st.sel@, j)
    &&& st.item_count == sel_count(cs, st.sel@)
    &&& sel_feasible(cs, st.sel@)
}

/// Termination measure of the traversal: each state at depth `len` can spawn
/// fewer than `b` children, so it weighs one power of `b` more than they do.
spec fn stack_potential(states: Seq<SearchState>, n: int, b: int) -> int
    decreases states.len(),
{
    if states.len() == 0 {
        0
    } else {
        stack_potential(states.drop_last(), n, b) + vstd::arithmetic::power::pow(
            b,
            (n - states.last().sel@.len()) as nat,
        )
    }
}

proof fn lemma_stack_potential_nonneg(states: Seq<SearchState>, n: int, b: int)
    requires
        b >= 1,
    ensures
        stack_potential(states, n, b) >= 0,
    decreases states.len(),
{
    if states.len() > 0 {
        lemma_stack_potential_nonneg(states.drop_last(), n, b);
        vstd::arithmetic::power::lemma_pow_positive(
            b,
            (n - states.last().sel@.len()) as nat,
        );
    }
}

/// The potential of a stack with its top removed.
proof fn lemma_stack_potential_pop(states: Seq<SearchState>, n: int, b: int)
    requires
        states.len() > 0,
    ensures
        stack_potential(states, n, b) == stack_potential(states.subrange(0, states.len() - 1), n, b)
            + vstd::arithmetic::power::pow(b, (n - states.last().sel@.len()) as nat),
{
    assert(states.drop_last() =~= states.subrange(0, states.len() - 1));
}

/// The potential of a stack with one state pushed.
proof fn lemma_stack_potential_push(states: Seq<SearchState>, st: SearchState, n: int, b: int)
    ensures
        stack_potential(states.push(st), n, b) == stack_potential(states, n, b)
            + vstd::arithmetic::power::pow(b, (n - st.sel@.len()) as nat),
{
    let s = states.push(st);
    assert(s.drop_last() =~= states);
    assert(s.last() == st);
}

/// Copy a batch of order vectors.
pub(crate) fn copy_batch(v: &Vec<Vec<u16>>) -> (r: Vec<Vec<u16>>)
    ensures
        r@.len() == v@.len(),
        forall|i: int| 0 <= i < v@.len() ==> (#[trigger] r@[i])@ == (v@[i])@,
{
    let mut r: Vec<Vec<u16>> = Vec::new();
    let mut i: usize = 0;
    while i < v.len()
        invariant
            i <= v@.len(),
            r@.len() == i,
            forall|k: int| 0 <= k < i ==> (#[trigger] r@[k])@ == (v@[k])@,
        decreases v@.len() - i,
    {
        r.push(vstd::slice::slice_to_vec(v[i].as_slice()));
        i = i + 1;
    }
    r
}

/// Elementwise sum of two cost vectors.
pub(crate) fn add_cost(a: &Vec<u16>, b: &Vec<u16>) -> (r: Vec<u16>)
    requires
        a@.len() == MATERIAL_COUNT,
        b@.len() == MATERIAL_COUNT,
        forall|j: int| 0 <= j < MATERIAL_COUNT ==> #[trigger] a@[j] <= 1500,
        forall|j: int| 0 <= j < MATERIAL_COUNT ==> #[trigger] b@[j] <= 1500,
    ensures
        r@.len() == MATERIAL_COUNT,
        forall|j: int| 0 <= j < MATERIAL_COUNT ==> #[trigger] r@[j] == a@[j] + b@[j],
{
    let mut r: Vec<u16> = Vec::new();
    let mut j: usize = 0;
    while j < MATERIAL_COUNT
        invariant
            j <= MATERIAL_COUNT,
            r@.len() == j,
            a@.len() == MATERIAL_COUNT,
            b@.len() == MATERIAL_COUNT,
            forall|k: int| 0 <= k < MATERIAL_COUNT ==> #[trigger] a@[k] <= 1500,
            forall|k: int| 0 <= k < MATERIAL_COUNT ==> #[trigger] b@[k] <= 1500,
            forall|k: int| 0 <= k < j ==> #[trigger] r@[k] == a@[k] + b@[k],
        decreases MATERIAL_COUNT - j,
    {
        r.push(a[j] + b[j]);
        j = j + 1;
    }
    r
}

/// `r` is a legitimate emission: some full-length feasible selection that
/// satisfies the metric produced exactly this result.
pub open spec fn emitted_ok(
    cs: Seq<Vec<QueueCandidate>>,
    n: int,
    metric: CostMetric,
    r: BatchResult,
) -> bool {
    exists|sel: Seq<int>| #[trigger] batch_target(cs, n, metric, sel) && result_matches(cs, sel, r)
}

/// Some emitted result carries exactly the data of selection `sel`.
pub open spec fn covers(cs: Seq<Vec<QueueCandidate>>, out: Seq<BatchResult>, sel: Seq<int>) -> bool {
    exists|k: int| 0 <= k < out.len() && result_matches(cs, sel, #[trigger] out[k])
}

/// Some stack entry is a prefix state of selection `sel`.
spec fn stack_covers(stack: Seq<SearchState>, sel: Seq<int>) -> bool {
    exists|i: int|
        0 <= i < stack.len() && (#[trigger] stack[i]).sel@ == sel.subrange(
            0,
            stack[i].sel@.len() as int,
        )
}

/// Depth-first search over batches of exactly `n` categories: starting from
/// the first category's candidates, extend each partial batch with every
/// candidate of the next category, pruning extensions that are unaffordable
/// or exceed the truck capacity, and emit each full-length batch whose
/// aggregate cost satisfies `metric`.
///
/// The result is exactly the set of feasible full-length selections that
/// satisfy the metric; in particular no emitted batch exceeds the truck
/// capacity, whatever the metric.
#[verifier::loop_isolation(false)]
#[verifier::rlimit(60)]
pub fn find_n_batches_with_metric(
    base: &Vec<Vec<QueueCandidate>>,
    n: usize,
    metric: &CostMetric,
) -> (out: Vec<BatchResult>)
    requires
        n >= 1,
        all_candidates_valid(base@),
    ensures
        forall|k: int|
            0 <= k < out@.len() ==> emitted_ok(base@, n as int, *metric, #[trigger] out@[k]),
        forall|sel: Seq<int>| #[trigger]
            batch_target(base@, n as int, *metric, sel) ==> covers(base@, out@, sel),
        forall|k: int| 0 <= k < out@.len() ==> (#[trigger] out@[k]).item_count <= TRUCK_SIZE_U16,
{
    let ghost cs = base@;
    let ghost nn = n as int;
    let ghost metric0 = *metric;
    let ghost b = max_cand_len(cs) + 1;
    proof {
        lemma_max_cand_len_nonneg(cs);
    }

    let mut out: Vec<BatchResult> = Vec::new();
    if base.len() == 0 {
        proof {
            assert forall|sel: Seq<int>| !batch_target(cs, nn, metric0, sel) by {
                if sel_ok(cs, sel) {
                    assert(sel.len() == 0);
                }
            }
        }
        return out;
    }

    // Seed the stack with the first category's candidates, last first, so
    // that they are explored in generation order.
    let mut stack_v: Vec<SearchState> = Vec::new();
    let mut k = base[0].len();
    while k > 0
        invariant
            k <= base@[0]@.len(),
            stack_v@.len() == base@[0]@.len() - k,
            forall|i: int|
                0 <= i < stack_v@.len() ==> state_ok(cs, #[trigger] stack_v@[i]) && stack_v@[i].sel@.len()
                    == 1,
            forall|i: int|
                0 <= i < stack_v@.len() ==> (#[trigger] stack_v@[i]).sel@ == seq![
                    base@[0]@.len() - 1 - i,
                ],
        decreases k,
    {
        k = k - 1;
        let c = &base[0][k];
        let ghost e = Seq::<int>::empty();
        let ghost isel = e.push(k as int);
        proof {
            assert(cs[0]@[k as int].valid());
            assert(sel_count(cs, e) == 0);
            assert(sel_count(cs, isel) == c.item_count as int) by {
                lemma_sel_push(cs, e, k as int, 0);
            }
            assert forall|j: int| 0 <= j < MATERIAL_COUNT implies sel_cost_at(cs, isel, j)
                == c.cost@[j] by {
                lemma_sel_push(cs, e, k as int, j);
                assert(sel_cost_at(cs, e, j) == 0);
            }
            assert(sel_costs(cs, isel) =~= to_ints(c.cost@));
        }
        let st = SearchState {
            batch: {
                let mut bvec: Vec<Vec<u16>> = Vec::new();
                bvec.push(vstd::slice::slice_to_vec(c.queue.as_slice()));
                bvec
            },
            cost: vstd::slice::slice_to_vec(c.cost.as_slice()),
            item_count: c.item_count,
            sel: Ghost(isel),
        };
        proof {
            assert(isel =~= seq![k as int]);
            assert(state_ok(cs, st));
        }
        stack_v.push(st);
    }
    proof {
        assert forall|sel: Seq<int>| #[trigger]
            batch_target(cs, nn, metric0, sel) implies stack_covers(stack_v@, sel) by {
            assert(0 <= sel[0] < cs[0]@.len());
            let i = cs[0]@.len() - 1 - sel[0];
            assert(stack_v@[i].sel@ == seq![sel[0]]);
            assert(seq![sel[0]] =~= sel.subrange(0, 1));
        }
    }

    // The traversal itself.
    while stack_v.len() > 0
        invariant
            forall|i: int|
                0 <= i < stack_v@.len() ==> state_ok(cs, #[trigger] stack_v@[i]) && stack_v@[i].sel@.len()
                    <= nn,
            forall|k2: int|
                0 <= k2 < out@.len() ==> emitted_ok(cs, nn, metric0, #[trigger] out@[k2]),
            forall|k2: int| 0 <= k2 < out@.len() ==> (#[trigger] out@[k2]).item_count <= TRUCK_SIZE_U16,
            forall|sel: Seq<int>| #[trigger]
                batch_target(cs, nn, metric0, sel) ==> covers(cs, out@, sel) || stack_covers(
                    stack_v@,
                    sel,
                ),
        decreases stack_potential(stack_v@, nn, b),
    {
        let ghost pre = stack_v@;
        let ghost pot0 = stack_potential(pre, nn, b);
        proof {
            lemma_stack_potential_pop(pre, nn, b);
            lemma_stack_potential_nonneg(pre, nn, b);
        }
        let st = stack_v.pop().unwrap();
        let ghost stg = st;
        let ghost sel0 = stg.sel@;
        let ghost ll = sel0.len() as int;
        proof {
            assert(state_ok(cs, stg));
            lemma_stack_potential_nonneg(stack_v@, nn, b);
            vstd::arithmetic::power::lemma_pow_positive(b, (nn - ll) as nat);
        }

        if st.batch.len() == n {
            let ghost out0 = out@;
            let ok = metric.check_metric(&st.cost);
            proof {
                assert(to_ints(stg.cost@) =~= sel_costs(cs, sel0));
            }
            if ok {
                out.push(BatchResult { batch: st.batch, cost: st.cost, item_count: st.item_count });
                proof {
                    assert(batch_target(cs, nn, metric0, sel0));
                    assert(result_matches(cs, sel0, out@[out@.len() - 1]));
                    assert(emitted_ok(cs, nn, metric0, out@[out@.len() - 1]));
                }
            }
            proof {
                assert forall|sel: Seq<int>| #[trigger]
                    batch_target(cs, nn, metric0, sel) implies covers(cs, out@, sel) || stack_covers(
                    stack_v@,
                    sel,
                ) by {
                    if covers(cs, out0, sel) {
                        let k2 = choose|k2: int|
                            0 <= k2 < out0.len() && result_matches(cs, sel, #[trigger] out0[k2]);
                        assert(out@[k2] == out0[k2]);
                        assert(covers(cs, out@, sel));
                    } else {
                        let i = choose|i: int|
                            0 <= i < pre.len() && (#[trigger] pre[i]).sel@ == sel.subrange(
                                0,
                                pre[i].sel@.len() as int,
                            );
                        if i == pre.len() - 1 {
                            assert(sel.subrange(0, nn) =~= sel);
                            assert(sel == sel0);
                            assert(ok);
                            assert(result_matches(cs, sel, out@[out@.len() - 1]));
                            assert(covers(cs, out@, sel));
                        } else {
                            assert(stack_v@[i] == pre[i]);
                            assert(stack_covers(stack_v@, sel));
                        }
                    }
                }
            }
        } else {
            // A partial batch: extend it with the next category's candidates
            // if there is one; otherwise the branch dies.
            if st.batch.len() < base.len() {
                let level = st.batch.len();
                let ghost lvl = level as int;
                let nextc = &base[level];
                proof {
                    assert(to_ints(stg.cost@) =~= sel_costs(cs, sel0));
                    lemma_affordable_entry_bound(to_ints(stg.cost@));
                    lemma_max_cand_len(cs, lvl);
                    assert forall|sel: Seq<int>| #[trigger]
                        batch_target(cs, nn, metric0, sel) implies covers(cs, out@, sel) || stack_covers(
                        stack_v@,
                        sel,
                    ) || (sel.subrange(0, lvl) == sel0 && sel[lvl] < nextc@.len()) by {
                        if !covers(cs, out@, sel) {
                            let i = choose|i: int|
                                0 <= i < pre.len() && (#[trigger] pre[i]).sel@ == sel.subrange(
                                    0,
                                    pre[i].sel@.len() as int,
                                );
                            if i == pre.len() - 1 {
                                assert(sel0 == sel.subrange(0, lvl));
                                assert(0 <= sel[lvl] < cs[lvl]@.len());
                            } else {
                                assert(stack_v@[i] == pre[i]);
                                assert(stack_covers(stack_v@, sel));
                            }
                        }
                    }
                }
                let mut jj = nextc.len();
                while jj > 0
                    invariant
                        jj <= nextc@.len(),
                        forall|i: int|
                            0 <= i < stack_v@.len() ==> state_ok(cs, #[trigger] stack_v@[i])
                                && stack_v@[i].sel@.len() <= nn,
                        forall|k2: int|
                            0 <= k2 < out@.len() ==> emitted_ok(cs, nn, metric0, #[trigger] out@[k2]),
                        forall|k2: int|
                            0 <= k2 < out@.len() ==> (#[trigger] out@[k2]).item_count
                                <= TRUCK_SIZE_U16,
                        forall|sel: Seq<int>| #[trigger]
                            batch_target(cs, nn, metric0, sel) ==> covers(cs, out@, sel)
                                || stack_covers(stack_v@, sel) || (sel.subrange(0, lvl) == sel0
                                && sel[lvl] < jj),
                        stack_potential(stack_v@, nn, b) <= pot0 - vstd::arithmetic::power::pow(
                            b,
                            (nn - ll) as nat,
                        ) + (nextc@.len() - jj) * vstd::arithmetic::power::pow(
                            b,
                            (nn - ll - 1) as nat,
                        ),
                    decreases jj,
                {
                    jj = jj - 1;
                    let ghost stack1 = stack_v@;
                    let c = &nextc[jj];
                    let ghost nsel = sel0.push(jj as int);
                    proof {
                        assert(cs[lvl]@[jj as int].valid());
                        lemma_affordable_entry_bound(to_ints(c.cost@));
                        assert forall|j: int| 0 <= j < MATERIAL_COUNT implies #[trigger] stg.cost@[j]
                            <= 1500 by {
                            assert(to_ints(stg.cost@)[j] <= 1500);
                        }
                        assert forall|j: int| 0 <= j < MATERIAL_COUNT implies #[trigger] c.cost@[j]
                            <= 1500 by {
                            assert(to_ints(c.cost@)[j] <= 1500);
                        }
                        assert forall|j: int| 0 <= j < MATERIAL_COUNT implies sel_cost_at(cs, nsel, j)
                            == sel_cost_at(cs, sel0, j) + c.cost@[j] by {
                            lemma_sel_push(cs, sel0, jj as int, j);
                        }
                        lemma_sel_push(cs, sel0, jj as int, 0);
                    }
                    let new_cost = add_cost(&st.cost, &c.cost);
                    let new_count = st.item_count + c.item_count;
                    proof {
                        assert(to_ints(new_cost@) =~= sel_costs(cs, nsel));
                    }
                    let afford = CostMetric::Affordable.check_metric(&new_cost);
                    let feasible = afford && new_count <= TRUCK_SIZE_U16;
                    if feasible {
                        let mut new_batch = copy_batch(&st.batch);
                        new_batch.push(vstd::slice::slice_to_vec(c.queue.as_slice()));
                        let nst = SearchState {
                            batch: new_batch,
                            cost: new_cost,
                            item_count: new_count,
                            sel: Ghost(nsel),
                        };
                        proof {
                            assert(batch_matches(cs, nsel, nst.batch@));
                            assert(state_ok(cs, nst));
                            lemma_stack_potential_push(stack1, nst, nn, b);
                        }
                        stack_v.push(nst);
                    }
                    proof {
                        // Completeness: a target whose next pick is `jj` now
                        // has a stack witness.
                        assert forall|sel: Seq<int>| #[trigger]
                            batch_target(cs, nn, metric0, sel) implies covers(cs, out@, sel)
                            || stack_covers(stack_v@, sel) || (sel.subrange(0, lvl) == sel0
                            && sel[lvl] < jj) by {
                            if !covers(cs, out@, sel) {
                                if stack_covers(stack1, sel) {
                                    let i = choose|i: int|
                                        0 <= i < stack1.len() && (#[trigger] stack1[i]).sel@
                                            == sel.subrange(0, stack1[i].sel@.len() as int);
                                    assert(stack_v@[i] == stack1[i]);
                                    assert(stack_covers(stack_v@, sel));
                                } else if sel.subrange(0, lvl) == sel0 && sel[lvl] == jj {
                                    // this extension is feasible, so it was pushed
                                    assert(lvl < sel.len());
                                    lemma_sel_prefix_feasible(cs, sel, lvl + 1);
                                    assert(sel.subrange(0, lvl + 1) =~= nsel);
                                    assert(spec_affordable(sel_costs(cs, nsel)));
                                    assert(sel_count(cs, nsel) <= TRUCK_SIZE_U16 as int);
                                    assert(afford);
                                    assert(new_count <= TRUCK_SIZE_U16);
                                    assert(stack_v@[stack_v@.len() - 1].sel@ == nsel);
                                    assert(nsel == sel.subrange(0, lvl + 1));
                                    assert(stack_covers(stack_v@, sel));
                                }
                            }
                        }
                        // Potential bookkeeping.
                        assert(stack_potential(stack_v@, nn, b) <= pot0
                            - vstd::arithmetic::power::pow(b, (nn - ll) as nat) + (nextc@.len() - jj)
                            * vstd::arithmetic::power::pow(b, (nn - ll - 1) as nat)) by {
                            let p = vstd::arithmetic::power::pow(b, (nn - ll - 1) as nat);
                            assert(ll < nn);
                            vstd::arithmetic::power::lemma_pow_positive(b, (nn - ll - 1) as nat);
                            assert((nn - (ll + 1)) as nat == (nn - ll - 1) as nat);
                            assert((nextc@.len() - jj) * p == (nextc@.len() - (jj + 1)) * p + p)
                                by (nonlinear_arith);
                        }
                    }
                }
                proof {
                    // All children processed: the popped state's obligations
                    // are discharged.
                    assert forall|sel: Seq<int>| #[trigger]
                        batch_target(cs, nn, metric0, sel) implies covers(cs, out@, sel)
                        || stack_covers(stack_v@, sel) by {
                        if sel.subrange(0, lvl) == sel0 && sel[lvl] < 0 {
                            assert(0 <= sel[lvl]);
                        }
                    }
                    lemma_stack_potential_nonneg(stack_v@, nn, b);
                    // Strict decrease of the potential.
                    assert(stack_potential(stack_v@, nn, b) < pot0) by {
                        let p = vstd::arithmetic::power::pow(b, (nn - ll - 1) as nat);
                        let q = vstd::arithmetic::power::pow(b, (nn - ll) as nat);
                        vstd::arithmetic::power::lemma_pow_positive(b, (nn - ll - 1) as nat);
                        assert(ll < nn);
                        vstd::arithmetic::power::lemma_pow1(b);
                        vstd::arithmetic::power::lemma_pow_adds(b, 1nat, (nn - ll - 1) as nat);
                        assert(q == b * p);
                        assert(nextc@.len() <= b - 1);
                        assert(nextc@.len() * p <= (b - 1) * p && (b - 1) * p == b * p - p)
                            by (nonlinear_arith)
                            requires
                                p >= 1,
                                nextc@.len() <= b - 1,
                        ;
                    }
                }
            } else {
                // The category order is exhausted short of `n`: no batch of
                // length `n` exists at all along this branch.
                proof {
                    assert forall|sel: Seq<int>| #[trigger]
                        batch_target(cs, nn, metric0, sel) implies covers(cs, out@, sel)
                        || stack_covers(stack_v@, sel) by {
                        if !covers(cs, out@, sel) {
                            let i = choose|i: int|
                                0 <= i < pre.len() && (#[trigger] pre[i]).sel@ == sel.subrange(
                                    0,
                                    pre[i].sel@.len() as int,
                                );
                            if i == pre.len() - 1 {
                                assert(sel.len() <= cs.len());
                                assert(ll < nn);
                                assert(false);
                            } else {
                                assert(stack_v@[i] == pre[i]);
                                assert(stack_covers(stack_v@, sel));
                            }
                        }
                    }
                }
            }
        }
    }
    out
}

/// Batch search over the full category order: every category contributes one
/// order vector.
pub fn find_all_batches_with_metric(base: &Vec<Vec<QueueCandidate>>, metric: &CostMetric) -> (out:
    Vec<BatchResult>)
    requires
        all_candidates_valid(base@),
    ensures
        forall|k: int|
            0 <= k < out@.len() ==> emitted_ok(
                base@,
                crate::CATEGORY_COUNT as int,
                *metric,
                #[trigger] out@[k],
            ),
        forall|sel: Seq<int>| #[trigger]
            batch_target(base@, crate::CATEGORY_COUNT as int, *metric, sel) ==> covers(
                base@,
                out@,
                sel,
            ),
        forall|k: int| 0 <= k < out@.len() ==> (#[trigger] out@[k]).item_count <= TRUCK_SIZE_U16,
{
    find_n_batches_with_metric(base, crate::CATEGORY_COUNT, metric)
}

/// Law: with a target length of one category and `Affordable` as the metric,
/// the batch targets are exactly the first category's own queue candidates,
/// so the search returns exactly that candidate list.
pub proof fn lemma_single_category_targets(cs: Seq<Vec<QueueCandidate>>, k: int)
    requires
        all_candidates_valid(cs),
        cs.len() >= 1,
        0 <= k < cs[0]@.len(),
    ensures
        batch_target(cs, 1, CostMetric::Affordable, seq![k]),
{
    let e = Seq::<int>::empty();
    let sel = e.push(k);
    assert(sel =~= seq![k]);
    assert(cs[0]@[k].valid());
    assert(sel_count(cs, sel) == cs[0]@[k].item_count as int) by {
        lemma_sel_push(cs, e, k, 0);
    }
    assert forall|j: int| 0 <= j < MATERIAL_COUNT implies sel_cost_at(cs, sel, j)
        == cs[0]@[k].cost@[j] by {
        lemma_sel_push(cs, e, k, j);
        assert(sel_cost_at(cs, e, j) == 0);
    }
    assert(sel_costs(cs, sel) =~= to_ints(cs[0]@[k].cost@));
    assert(batch_target(cs, 1, CostMetric::Affordable, seq![k]));
}

/// Law, converse direction: every batch target of length one picks exactly
/// one candidate of the first category.
pub proof fn lemma_single_category_targets_converse(cs: Seq<Vec<QueueCandidate>>, sel: Seq<int>)
    requires
        batch_target(cs, 1, CostMetric::Affordable, sel),
    ensures
        sel.len() == 1,
        0 <= sel[0] < cs[0]@.len(),
        sel =~= seq![sel[0]],
{
}

/// One queue-candidate list per category of the given order, each generated
/// from the category's own size and cost matrix with the same order range;
/// the lists satisfy everything the searches require of their input.
pub fn generate_category_queues(
    cats: &Vec<crate::item_set::ItemSetCategoryWrapper>,
    order_range: &Vec<u16>,
) -> (r: Vec<Vec<QueueCandidate>>)
    ensures
        r@.len() == cats@.len(),
        all_candidates_valid(r@),
        forall|i: int|
            0 <= i < r@.len() ==> crate::queue::candidate_list_wf(
                cats@[i].spec_size(),
                cats@[i].spec_cost_matrix(),
                order_range@,
                (#[trigger] r@[i])@,
            ),
        forall|i: int|
            0 <= i < r@.len() ==> crate::queue::candidate_list_complete(
                cats@[i].spec_size(),
                cats@[i].spec_cost_matrix(),
                order_range@,
                (#[trigger] r@[i])@,
            ),
{
    let mut r: Vec<Vec<QueueCandidate>> = Vec::new();
    let mut i: usize = 0;
    while i < cats.len()
        invariant
            i <= cats@.len(),
            r@.len() == i,
            forall|ii: int|
                0 <= ii < r@.len() ==> crate::queue::candidate_list_wf(
                    cats@[ii].spec_size(),
                    cats@[ii].spec_cost_matrix(),
                    order_range@,
                    (#[trigger] r@[ii])@,
                ),
            forall|ii: int|
                0 <= ii < r@.len() ==> crate::queue::candidate_list_complete(
                    cats@[ii].spec_size(),
                    cats@[ii].spec_cost_matrix(),
                    order_range@,
                    (#[trigger] r@[ii])@,
                ),
        decreases cats@.len() - i,
    {
        let qs = cats[i].generate_valid_queue_vec(order_range);
        r.push(qs);
        i = i + 1;
    }
    proof {
        assert forall|i2: int, k: int|
            0 <= i2 < r@.len() && 0 <= k < r@[i2]@.len() implies (#[trigger] r@[i2]@[k]).valid() by {
            assert(crate::queue::candidate_list_wf(
                cats@[i2].spec_size(),
                cats@[i2].spec_cost_matrix(),
                order_range@,
                r@[i2]@,
            ));
            assert(r@[i2]@[k].wf(cats@[i2].spec_size(), cats@[i2].spec_cost_matrix(), order_range@));
        }
    }
    r
}

} // verus!
