//! Prime-group search: the same pruned depth-first traversal as the batch
//! search, additionally tracking how many categories contributed a non-zero
//! order vector. A branch whose aggregate cost already satisfies the metric
//! is emitted at once and not extended; a branch that reaches the group
//! bound `n` without satisfying it is abandoned; a branch whose only picks
//! so far are all-zero is discarded outright.

use vstd::prelude::*;

use crate::cost_metric::{
    lemma_affordable_entry_bound, spec_affordable, spec_check_metric, to_ints, CostMetric,
};
use crate::queue::QueueCandidate;
use crate::search::{
    add_cost, all_candidates_valid, batch_matches, copy_batch, lemma_sel_prefix_feasible,
    lemma_sel_push, sel_cost_at, sel_costs, sel_count, sel_feasible, sel_ok,
};
use crate::{MATERIAL_COUNT, TRUCK_SIZE_U16};

verus! {

/// An order vector that orders nothing.
pub open spec fn is_zero_queue(q: Seq<u16>) -> bool {
    forall|i: int| 0 <= i < q.len() ==> q[i] == 0
}

/// How many categories of the selection contribute a non-zero order vector.
pub open spec fn sel_nzc(cs: Seq<Vec<QueueCandidate>>, sel: Seq<int>) -> int
    decreases sel.len(),
{
    if sel.len() == 0 {
        0
    } else {
        sel_nzc(cs, sel.drop_last()) + if is_zero_queue(
            cs[sel.len() - 1]@[sel.last()].queue@,
        ) {
            0int
        } else {
            1int
        }
    }
}

/// Appending one pick grows the non-zero count by zero or one.
pub proof fn lemma_sel_nzc_push(cs: Seq<Vec<QueueCandidate>>, sel: Seq<int>, k: int)
    ensures
        sel_nzc(cs, sel.push(k)) == sel_nzc(cs, sel) + if is_zero_queue(
            cs[sel.len() as int]@[k].queue@,
        ) {
            0int
        } else {
            1int
        },
{
    let s = sel.push(k);
    assert(s.drop_last() =~= sel);
    assert(s.last() == k);
}

/// Truncating one pick shrinks the non-zero count by zero or one.
pub proof fn lemma_sel_nzc_take_succ(cs: Seq<Vec<QueueCandidate>>, sel: Seq<int>, k: int)
    requires
        0 <= k < sel.len(),
    ensures
        sel_nzc(cs, sel.subrange(0, k + 1)) == sel_nzc(cs, sel.subrange(0, k)) + if is_zero_queue(
            cs[k]@[sel[k]].queue@,
        ) {
            0int
        } else {
            1int
        },
{
    let s = sel.subrange(0, k + 1);
    assert(s.drop_last() =~= sel.subrange(0, k));
    assert(s.last() == sel[k]);
}

/// The non-zero count never decreases along a prefix and never exceeds the
/// prefix length.
pub proof fn lemma_sel_nzc_prefix(cs: Seq<Vec<QueueCandidate>>, sel: Seq<int>, k: int)
    requires
        0 <= k <= sel.len(),
    ensures
        sel_nzc(cs, sel.subrange(0, k)) <= sel_nzc(cs, sel),
        0 <= sel_nzc(cs, sel.subrange(0, k)) <= k,
    decreases sel.len() - k,
{
    lemma_sel_nzc_bounds(cs, sel.subrange(0, k));
    if k == sel.len() {
        assert(sel.subrange(0, k) =~= sel);
    } else {
        lemma_sel_nzc_prefix(cs, sel, k + 1);
        lemma_sel_nzc_take_succ(cs, sel, k);
    }
}

/// The non-zero count lies between zero and the selection length.
pub proof fn lemma_sel_nzc_bounds(cs: Seq<Vec<QueueCandidate>>, sel: Seq<int>)
    ensures
        0 <= sel_nzc(cs, sel) <= sel.len(),
    decreases sel.len(),
{
    if sel.len() > 0 {
        lemma_sel_nzc_bounds(cs, sel.drop_last());
    }
}

/// What the prime-group search emits for a group bound `n`: a feasible
/// selection whose first pick is non-trivial, whose aggregate cost is the
/// first along its branch to satisfy the metric, and none of whose proper
/// prefixes had already reached `n` non-trivial categories.
pub open spec fn prime_target(
    cs: Seq<Vec<QueueCandidate>>,
    n: int,
    metric: CostMetric,
    sel: Seq<int>,
) -> bool {
    &&& sel_ok(cs, sel)
    &&& 1 <= sel.len()
    &&& !is_zero_queue(cs[0]@[sel[0]].queue@)
    &&& sel_feasible(cs, sel)
    &&& spec_check_metric(metric, sel_costs(cs, sel))
    &&& forall|k: int|
        1 <= k < sel.len() ==> !spec_check_metric(metric, sel_costs(cs, #[trigger] sel.subrange(0, k)))
    &&& forall|k: int| 1 <= k < sel.len() ==> sel_nzc(cs, #[trigger] sel.subrange(0, k)) != n
}

/// One emitted prime group: its order vectors, aggregate cost vector, item
/// count, and how many categories contributed a non-zero order vector.
pub struct PrimeGroupResult {
    pub batch: Vec<Vec<u16>>,
    pub cost: Vec<u16>,
    pub item_count: u16,
    pub group_count: u8,
}

/// An emitted result carries exactly the data of its selection.
pub open spec fn prime_result_matches(
    cs: Seq<Vec<QueueCandidate>>,
    sel: Seq<int>,
    r: PrimeGroupResult,
) -> bool {
    &&& batch_matches(cs, sel, r.batch@)
    &&& r.cost@.len() == MATERIAL_COUNT
    &&& forall|j: int| 0 <= j < MATERIAL_COUNT ==> r.cost@[j] == sel_cost_at(cs, sel, j)
    &&& r.item_count == sel_count(cs, sel)
    &&& r.group_count == sel_nzc(cs, sel)
}

/// `r` is a legitimate emission for the group bound `n` and the metric.
pub open spec fn prime_emitted_ok(
    cs: Seq<Vec<QueueCandidate>>,
    n: int,
    metric: CostMetric,
    r: PrimeGroupResult,
) -> bool {
    exists|sel: Seq<int>| #[trigger] prime_target(cs, n, metric, sel) && prime_result_matches(cs, sel, r)
}

/// Some emitted result carries exactly the data of selection `sel`.
pub open spec fn prime_covers(
    cs: Seq<Vec<QueueCandidate>>,
    out: Seq<PrimeGroupResult>,
    sel: Seq<int>,
) -> bool {
    exists|k: int| 0 <= k < out.len() && prime_result_matches(cs, sel, #[trigger] out[k])
}

/// Does this order vector order nothing?
fn is_zero_vec(q: &Vec<u16>) -> (r: bool)
    ensures
        r == is_zero_queue(q@),
{
    let mut i: usize = 0;
    while i < q.len()
        invariant
            i <= q@.len(),
            forall|k: int| 0 <= k < i ==> q@[k] == 0,
        decreases q@.len() - i,
    {
        if q[i] != 0 {
            assert(!is_zero_queue(q@));
            return false;
        }
        i = i + 1;
    }
    true
}

/// One state of the prime-group traversal.
struct PrimeState {
    batch: Vec<Vec<u16>>,
    cost: Vec<u16>,
    item_count: u16,
    nzc: u8,
    sel: Ghost<Seq<int>>,
}

/// A stack entry is consistent with its selection, feasible, and records the
/// branch conditions under which it was created.
spec fn prime_state_ok(
    cs: Seq<Vec<QueueCandidate>>,
    n: int,
    metric: CostMetric,
    st: PrimeState,
) -> bool {
    &&& sel_ok(cs, st.sel@)
    &&& 1 <= st.sel@.len()
    &&& batch_matches(cs, st.sel@, st.batch@)
    &&& st.cost@.len() == MATERIAL_COUNT
    &&& forall|j: int| 0 <= j < MATERIAL_COUNT ==> st.cost@[j] == sel_cost_at(cs, st.sel@, j)
    &&& st.item_count == sel_count(cs, st.sel@)
    &&& st.nzc == sel_nzc(cs, st.sel@)
    &&& sel_feasible(cs, st.sel@)
    &&& st.sel@.len() > 1 ==> !is_zero_queue(cs[0]@[st.sel@[0]].queue@)
    &&& forall|k: int|
        1 <= k < st.sel@.len() ==> !spec_check_metric(
            metric,
            sel_costs(cs, #[trigger] st.sel@.subrange(0, k)),
        )
    &&& forall|k: int| 1 <= k < st.sel@.len() ==> sel_nzc(cs, #[trigger] st.sel@.subrange(0, k)) != n
}

/// Some stack entry is a prefix state of selection `sel`.
spec fn prime_stack_covers(stack: Seq<PrimeState>, sel: Seq<int>) -> bool {
    exists|i: int|
        0 <= i < stack.len() && stack[i].sel@.len() <= sel.len() && (#[trigger] stack[i]).sel@
            == sel.subrange(0, stack[i].sel@.len() as int)
}

/// Termination measure, as in the batch search, over the full category depth.
spec fn prime_stack_potential(states: Seq<PrimeState>, n: int, b: int) -> int
    decreases states.len(),
{
    if states.len() == 0 {
        0
    } else {
        prime_stack_potential(states.drop_last(), n, b) + vstd::arithmetic::power::pow(
            b,
            (n - states.last().sel@.len()) as nat,
        )
    }
}

proof fn lemma_prime_potential_nonneg(states: Seq<PrimeState>, n: int, b: int)
    requires
        b >= 1,
    ensures
        prime_stack_potential(states, n, b) >= 0,
    decreases states.len(),
{
    if states.len() > 0 {
        lemma_prime_potential_nonneg(states.drop_last(), n, b);
        vstd::arithmetic::power::lemma_pow_positive(b, (n - states.last().sel@.len()) as nat);
    }
}

proof fn lemma_prime_potential_pop(states: Seq<PrimeState>, n: int, b: int)
    requires
        states.len() > 0,
    ensures
        prime_stack_potential(states, n, b) == prime_stack_potential(
            states.subrange(0, states.len() - 1),
            n,
            b,
        ) + vstd::arithmetic::power::pow(b, (n - states.last().sel@.len()) as nat),
{
    assert(states.drop_last() =~= states.subrange(0, states.len() - 1));
}

proof fn lemma_prime_potential_push(states: Seq<PrimeState>, st: PrimeState, n: int, b: int)
    ensures
        prime_stack_potential(states.push(st), n, b) == prime_stack_potential(states, n, b)
            + vstd::arithmetic::power::pow(b, (n - st.sel@.len()) as nat),
{
    let s = states.push(st);
    assert(s.drop_last() =~= states);
    assert(s.last() == st);
}

/// Prime-group search with group bound `n`: explore the pruned batch tree,
/// discard branches whose picks are all zero, emit a batch the moment its
/// aggregate cost satisfies `metric` (and stop extending it), and abandon a
/// branch once `n` categories contribute without the metric being satisfied.
///
/// The result is exactly the set of selections described by `prime_target`.
#[verifier::loop_isolation(false)]
#[verifier::rlimit(90)]
pub fn find_prime_n_groups_with_metric(
    base: &Vec<Vec<QueueCandidate>>,
    n: usize,
    metric: &CostMetric,
) -> (out: Vec<PrimeGroupResult>)
    requires
        n >= 1,
        all_candidates_valid(base@),
        base@.len() <= u8::MAX,
    ensures
        forall|k: int|
            0 <= k < out@.len() ==> prime_emitted_ok(base@, n as int, *metric, #[trigger] out@[k]),
        forall|sel: Seq<int>| #[trigger]
            prime_target(base@, n as int, *metric, sel) ==> prime_covers(base@, out@, sel),
        forall|k: int| 0 <= k < out@.len() ==> (#[trigger] out@[k]).item_count <= TRUCK_SIZE_U16,
{
    let ghost cs = base@;
    let ghost nn = n as int;
    let ghost metric0 = *metric;
    let ghost dd = cs.len() as int;
    let ghost b = crate::search::max_cand_len(cs) + 1;
    proof {
        crate::search::lemma_max_cand_len_nonneg(cs);
    }

    let mut out: Vec<PrimeGroupResult> = Vec::new();
    if base.len() == 0 {
        proof {
            assert forall|sel: Seq<int>| !prime_target(cs, nn, metric0, sel) by {
                if sel_ok(cs, sel) {
                    assert(sel.len() == 0);
                }
            }
        }
        return out;
    }

    // Seed the stack with every candidate of the first category, last first.
    let mut stack_v: Vec<PrimeState> = Vec::new();
    let mut k = base[0].len();
    while k > 0
        invariant
            k <= base@[0]@.len(),
            stack_v@.len() == base@[0]@.len() - k,
            forall|i: int|
                0 <= i < stack_v@.len() ==> prime_state_ok(cs, nn, metric0, #[trigger] stack_v@[i])
                    && stack_v@[i].sel@.len() <= dd,
            forall|i: int|
                0 <= i < stack_v@.len() ==> (#[trigger] stack_v@[i]).sel@ == seq![
                    base@[0]@.len() - 1 - i,
                ],
        decreases k,
    {
        k = k - 1;
        let c = &base[0][k];
        let ghost e = Seq::<int>::empty();
        let ghost isel = e.push(k as int);
        let nz = is_zero_vec(&c.queue);
        proof {
            assert(cs[0]@[k as int].valid());
            assert(sel_count(cs, isel) == c.item_count as int) by {
                lemma_sel_push(cs, e, k as int, 0);
            }
            lemma_sel_nzc_push(cs, e, k as int);
            assert forall|j: int| 0 <= j < MATERIAL_COUNT implies sel_cost_at(cs, isel, j)
                == c.cost@[j] by {
                lemma_sel_push(cs, e, k as int, j);
                assert(sel_cost_at(cs, e, j) == 0);
            }
            assert(sel_costs(cs, isel) =~= to_ints(c.cost@));
        }
        let st = PrimeState {
            batch: {
                let mut bvec: Vec<Vec<u16>> = Vec::new();
                bvec.push(vstd::slice::slice_to_vec(c.queue.as_slice()));
                bvec
            },
            cost: vstd::slice::slice_to_vec(c.cost.as_slice()),
            item_count: c.item_count,
            nzc: if nz {
                0
            } else {
                1
            },
            sel: Ghost(isel),
        };
        proof {
            assert(isel =~= seq![k as int]);
            assert(prime_state_ok(cs, nn, metric0, st));
        }
        stack_v.push(st);
    }
    proof {
        assert forall|sel: Seq<int>| #[trigger]
            prime_target(cs, nn, metric0, sel) implies prime_stack_covers(stack_v@, sel) by {
            assert(0 <= sel[0] < cs[0]@.len());
            let i = cs[0]@.len() - 1 - sel[0];
            assert(stack_v@[i].sel@ == seq![sel[0]]);
            assert(seq![sel[0]] =~= sel.subrange(0, 1));
        }
    }

    // The traversal itself.
    while stack_v.len() > 0
        invariant
            forall|i: int|
                0 <= i < stack_v@.len() ==> prime_state_ok(cs, nn, metric0, #[trigger] stack_v@[i])
                    && stack_v@[i].sel@.len() <= dd,
            forall|k2: int|
                0 <= k2 < out@.len() ==> prime_emitted_ok(cs, nn, metric0, #[trigger] out@[k2]),
            forall|k2: int| 0 <= k2 < out@.len() ==> (#[trigger] out@[k2]).item_count <= TRUCK_SIZE_U16,
            forall|sel: Seq<int>| #[trigger]
                prime_target(cs, nn, metric0, sel) ==> prime_covers(cs, out@, sel)
                    || prime_stack_covers(stack_v@, sel),
        decreases prime_stack_potential(stack_v@, dd, b),
    {
        let ghost pre = stack_v@;
        let ghost pot0 = prime_stack_potential(pre, dd, b);
        proof {
            lemma_prime_potential_pop(pre, dd, b);
            lemma_prime_potential_nonneg(pre, dd, b);
        }
        let st = stack_v.pop().unwrap();
        let ghost stg = st;
        let ghost sel0 = stg.sel@;
        let ghost ll = sel0.len() as int;
        proof {
            assert(prime_state_ok(cs, nn, metric0, stg));
            lemma_prime_potential_nonneg(stack_v@, dd, b);
            vstd::arithmetic::power::lemma_pow_positive(b, (dd - ll) as nat);
            // The first pick of this state, as a one-element prefix.
            assert(sel0.subrange(0, 1) =~= Seq::<int>::empty().push(sel0[0]));
            lemma_sel_nzc_push(cs, Seq::<int>::empty(), sel0[0]);
            lemma_sel_nzc_prefix(cs, sel0, 1);
        }

        if st.nzc == 0 {
            // An all-zero batch prefix can never become interesting.
            proof {
                assert(is_zero_queue(cs[0]@[sel0[0]].queue@)) by {
                    assert(sel_nzc(cs, sel0.subrange(0, 1)) == 0);
                }
                assert forall|sel: Seq<int>| #[trigger]
                    prime_target(cs, nn, metric0, sel) implies prime_covers(cs, out@, sel)
                    || prime_stack_covers(stack_v@, sel) by {
                    if !prime_covers(cs, out@, sel) {
                        let i = choose|i: int|
                            0 <= i < pre.len() && pre[i].sel@.len() <= sel.len() && (
                            #[trigger] pre[i]).sel@ == sel.subrange(
                                0,
                                pre[i].sel@.len() as int,
                            );
                        if i == pre.len() - 1 {
                            assert(sel0[0] == sel[0]);
                            assert(false);
                        } else {
                            assert(stack_v@[i] == pre[i]);
                            assert(prime_stack_covers(stack_v@, sel));
                        }
                    }
                }
            }
        } else {
            let ok = metric.check_metric(&st.cost);
            proof {
                assert(to_ints(stg.cost@) =~= sel_costs(cs, sel0));
                assert(!is_zero_queue(cs[0]@[sel0[0]].queue@)) by {
                    if ll == 1 {
                        assert(sel0.subrange(0, 1) =~= sel0);
                    }
                }
            }
            if ok {
                // First qualifying point along this branch: emit and stop.
                let ghost out0 = out@;
                out.push(
                    PrimeGroupResult {
                        batch: st.batch,
                        cost: st.cost,
                        item_count: st.item_count,
                        group_count: st.nzc,
                    },
                );
                proof {
                    assert(prime_target(cs, nn, metric0, sel0));
                    assert(prime_result_matches(cs, sel0, out@[out@.len() - 1]));
                    assert(prime_emitted_ok(cs, nn, metric0, out@[out@.len() - 1]));
                    assert forall|sel: Seq<int>| #[trigger]
                        prime_target(cs, nn, metric0, sel) implies prime_covers(cs, out@, sel)
                        || prime_stack_covers(stack_v@, sel) by {
                        if prime_covers(cs, out0, sel) {
                            let k2 = choose|k2: int|
                                0 <= k2 < out0.len() && prime_result_matches(
                                    cs,
                                    sel,
                                    #[trigger] out0[k2],
                                );
                            assert(out@[k2] == out0[k2]);
                            assert(prime_covers(cs, out@, sel));
                        } else {
                            let i = choose|i: int|
                                0 <= i < pre.len() && pre[i].sel@.len() <= sel.len() && (
                                #[trigger] pre[i]).sel@ == sel.subrange(
                                    0,
                                    pre[i].sel@.len() as int,
                                );
                            if i == pre.len() - 1 {
                                if sel.len() == ll {
                                    assert(sel.subrange(0, ll) =~= sel);
                                    assert(sel == sel0);
                                    assert(prime_covers(cs, out@, sel));
                                } else {
                                    // sel extends sel0, but sel0 already
                                    // satisfied the metric
                                    assert(1 <= ll < sel.len());
                                    assert(!spec_check_metric(
                                        metric0,
                                        sel_costs(cs, sel.subrange(0, ll)),
                                    ));
                                    assert(false);
                                }
                            } else {
                                assert(stack_v@[i] == pre[i]);
                                assert(prime_stack_covers(stack_v@, sel));
                            }
                        }
                    }
                }
            } else if usize::from(st.nzc) == n {
                // Group bound reached without satisfying the metric.
                proof {
                    assert forall|sel: Seq<int>| #[trigger]
                        prime_target(cs, nn, metric0, sel) implies prime_covers(cs, out@, sel)
                        || prime_stack_covers(stack_v@, sel) by {
                        if !prime_covers(cs, out@, sel) {
                            let i = choose|i: int|
                                0 <= i < pre.len() && pre[i].sel@.len() <= sel.len() && (
                                #[trigger] pre[i]).sel@ == sel.subrange(
                                    0,
                                    pre[i].sel@.len() as int,
                                );
                            if i == pre.len() - 1 {
                                if sel.len() == ll {
                                    assert(sel.subrange(0, ll) =~= sel);
                                    assert(false);
                                } else {
                                    assert(1 <= ll < sel.len());
                                    assert(sel_nzc(cs, sel.subrange(0, ll)) != nn);
                                    assert(false);
                                }
                            } else {
                                assert(stack_v@[i] == pre[i]);
                                assert(prime_stack_covers(stack_v@, sel));
                            }
                        }
                    }
                }
            } else if st.batch.len() < base.len() {
                // Extend with the next category's candidates.
                let level = st.batch.len();
                let ghost lvl = level as int;
                let nextc = &base[level];
                proof {
                    lemma_affordable_entry_bound(to_ints(stg.cost@));
                    crate::search::lemma_max_cand_len(cs, lvl);
                    lemma_sel_nzc_bounds(cs, sel0);
                    assert forall|sel: Seq<int>| #[trigger]
                        prime_target(cs, nn, metric0, sel) implies prime_covers(cs, out@, sel)
                        || prime_stack_covers(stack_v@, sel) || (sel.subrange(0, lvl) == sel0
                        && lvl < sel.len() && sel[lvl] < nextc@.len()) by {
                        if !prime_covers(cs, out@, sel) {
                            let i = choose|i: int|
                                0 <= i < pre.len() && pre[i].sel@.len() <= sel.len() && (
                                #[trigger] pre[i]).sel@ == sel.subrange(
                                    0,
                                    pre[i].sel@.len() as int,
                                );
                            if i == pre.len() - 1 {
                                if sel.len() == ll {
                                    assert(sel.subrange(0, ll) =~= sel);
                                    assert(false);
                                } else {
                                    assert(0 <= sel[lvl] < cs[lvl]@.len());
                                }
                            } else {
                                assert(stack_v@[i] == pre[i]);
                                assert(prime_stack_covers(stack_v@, sel));
                            }
                        }
                    }
                }
                let mut jj = nextc.len();
                while jj > 0
                    invariant
                        jj <= nextc@.len(),
                        forall|i: int|
                            0 <= i < stack_v@.len() ==> prime_state_ok(
                                cs,
                                nn,
                                metric0,
                                #[trigger] stack_v@[i],
                            ) && stack_v@[i].sel@.len() <= dd,
                        forall|k2: int|
                            0 <= k2 < out@.len() ==> prime_emitted_ok(
                                cs,
                                nn,
                                metric0,
                                #[trigger] out@[k2],
                            ),
                        forall|k2: int|
                            0 <= k2 < out@.len() ==> (#[trigger] out@[k2]).item_count
                                <= TRUCK_SIZE_U16,
                        forall|sel: Seq<int>| #[trigger]
                            prime_target(cs, nn, metric0, sel) ==> prime_covers(cs, out@, sel)
                                || prime_stack_covers(stack_v@, sel) || (sel.subrange(0, lvl) == sel0
                                && lvl < sel.len() && sel[lvl] < jj),
                        prime_stack_potential(stack_v@, dd, b) <= pot0
                            - vstd::arithmetic::power::pow(b, (dd - ll) as nat) + (nextc@.len() - jj)
                            * vstd::arithmetic::power::pow(b, (dd - ll - 1) as nat),
                    decreases jj,
                {
                    jj = jj - 1;
                    let ghost stack1 = stack_v@;
                    let c = &nextc[jj];
                    let ghost nsel = sel0.push(jj as int);
                    proof {
                        assert(cs[lvl]@[jj as int].valid());
                        lemma_affordable_entry_bound(to_ints(c.cost@));
                        assert forall|j: int| 0 <= j < MATERIAL_COUNT implies #[trigger] stg.cost@[j]
                            <= 1500 by {
                            assert(to_ints(stg.cost@)[j] <= 1500);
                        }
                        assert forall|j: int| 0 <= j < MATERIAL_COUNT implies #[trigger] c.cost@[j]
                            <= 1500 by {
                            assert(to_ints(c.cost@)[j] <= 1500);
                        }
                        assert forall|j: int| 0 <= j < MATERIAL_COUNT implies sel_cost_at(cs, nsel, j)
                            == sel_cost_at(cs, sel0, j) + c.cost@[j] by {
                            lemma_sel_push(cs, sel0, jj as int, j);
                        }
                        lemma_sel_push(cs, sel0, jj as int, 0);
                        lemma_sel_nzc_push(cs, sel0, jj as int);
                    }
                    let new_cost = add_cost(&st.cost, &c.cost);
                    let new_count = st.item_count + c.item_count;
                    let nz = is_zero_vec(&c.queue);
                    let new_nzc: u8 = if nz {
                        st.nzc
                    } else {
                        st.nzc + 1
                    };
                    proof {
                        assert(to_ints(new_cost@) =~= sel_costs(cs, nsel));
                        assert(new_nzc == sel_nzc(cs, nsel));
                    }
                    let afford = CostMetric::Affordable.check_metric(&new_cost);
                    let feasible = afford && new_count <= TRUCK_SIZE_U16;
                    if feasible {
                        let mut new_batch = copy_batch(&st.batch);
                        new_batch.push(vstd::slice::slice_to_vec(c.queue.as_slice()));
                        let nst = PrimeState {
                            batch: new_batch,
                            cost: new_cost,
                            item_count: new_count,
                            nzc: new_nzc,
                            sel: Ghost(nsel),
                        };
                        proof {
                            assert(batch_matches(cs, nsel, nst.batch@));
                            assert forall|k2: int| 1 <= k2 < nsel.len() implies !spec_check_metric(
                                metric0,
                                sel_costs(cs, #[trigger] nsel.subrange(0, k2)),
                            ) && sel_nzc(cs, #[trigger] nsel.subrange(0, k2)) != nn by {
                                if k2 < ll {
                                    assert(nsel.subrange(0, k2) =~= sel0.subrange(0, k2));
                                } else {
                                    assert(nsel.subrange(0, k2) =~= sel0);
                                }
                            }
                            assert(prime_state_ok(cs, nn, metric0, nst));
                            lemma_prime_potential_push(stack1, nst, dd, b);
                        }
                        stack_v.push(nst);
                    }
                    proof {
                        assert forall|sel: Seq<int>| #[trigger]
                            prime_target(cs, nn, metric0, sel) implies prime_covers(cs, out@, sel)
                            || prime_stack_covers(stack_v@, sel) || (sel.subrange(0, lvl) == sel0
                            && lvl < sel.len() && sel[lvl] < jj) by {
                            if !prime_covers(cs, out@, sel) {
                                if prime_stack_covers(stack1, sel) {
                                    let i = choose|i: int|
                                        0 <= i < stack1.len() && stack1[i].sel@.len() <= sel.len()
                                            && (#[trigger] stack1[i]).sel@ == sel.subrange(
                                            0,
                                            stack1[i].sel@.len() as int,
                                        );
                                    assert(stack_v@[i] == stack1[i]);
                                    assert(prime_stack_covers(stack_v@, sel));
                                } else if sel.subrange(0, lvl) == sel0 && lvl < sel.len() && sel[lvl]
                                    == jj {
                                    lemma_sel_prefix_feasible(cs, sel, lvl + 1);
                                    assert(sel.subrange(0, lvl + 1) =~= nsel);
                                    assert(spec_affordable(sel_costs(cs, nsel)));
                                    assert(sel_count(cs, nsel) <= TRUCK_SIZE_U16 as int);
                                    assert(afford);
                                    assert(new_count <= TRUCK_SIZE_U16);
                                    assert(stack_v@[stack_v@.len() - 1].sel@ == nsel);
                                    assert(prime_stack_covers(stack_v@, sel));
                                }
                            }
                        }
                        assert(prime_stack_potential(stack_v@, dd, b) <= pot0
                            - vstd::arithmetic::power::pow(b, (dd - ll) as nat) + (nextc@.len() - jj)
                            * vstd::arithmetic::power::pow(b, (dd - ll - 1) as nat)) by {
                            let p = vstd::arithmetic::power::pow(b, (dd - ll - 1) as nat);
                            assert(ll < dd);
                            vstd::arithmetic::power::lemma_pow_positive(b, (dd - ll - 1) as nat);
                            assert((dd - (ll + 1)) as nat == (dd - ll - 1) as nat);
                            assert((nextc@.len() - jj) * p == (nextc@.len() - (jj + 1)) * p + p)
                                by (nonlinear_arith);
                        }
                    }
                }
                proof {
                    assert forall|sel: Seq<int>| #[trigger]
                        prime_target(cs, nn, metric0, sel) implies prime_covers(cs, out@, sel)
                        || prime_stack_covers(stack_v@, sel) by {
                        if sel.subrange(0, lvl) == sel0 && lvl < sel.len() && sel[lvl] < 0 {
                            assert(0 <= sel[lvl]);
                        }
                    }
                    lemma_prime_potential_nonneg(stack_v@, dd, b);
                    assert(prime_stack_potential(stack_v@, dd, b) < pot0) by {
                        let p = vstd::arithmetic::power::pow(b, (dd - ll - 1) as nat);
                        let q = vstd::arithmetic::power::pow(b, (dd - ll) as nat);
                        vstd::arithmetic::power::lemma_pow_positive(b, (dd - ll - 1) as nat);
                        assert(ll < dd);
                        vstd::arithmetic::power::lemma_pow1(b);
                        vstd::arithmetic::power::lemma_pow_adds(b, 1nat, (dd - ll - 1) as nat);
                        assert(q == b * p);
                        assert(nextc@.len() <= b - 1);
                        assert(nextc@.len() * p <= (b - 1) * p && (b - 1) * p == b * p - p)
                            by (nonlinear_arith)
                            requires
                                p >= 1,
                                nextc@.len() <= b - 1,
                        ;
                    }
                }
            } else {
                // The category order is exhausted and the metric never held
                // along this branch.
                proof {
                    assert forall|sel: Seq<int>| #[trigger]
                        prime_target(cs, nn, metric0, sel) implies prime_covers(cs, out@, sel)
                        || prime_stack_covers(stack_v@, sel) by {
                        if !prime_covers(cs, out@, sel) {
                            let i = choose|i: int|
                                0 <= i < pre.len() && pre[i].sel@.len() <= sel.len() && (
                                #[trigger] pre[i]).sel@ == sel.subrange(
                                    0,
                                    pre[i].sel@.len() as int,
                                );
                            if i == pre.len() - 1 {
                                if sel.len() == ll {
                                    assert(sel.subrange(0, ll) =~= sel);
                                    assert(false);
                                } else {
                                    assert(sel.len() <= cs.len());
                                    assert(ll < cs.len());
                                    assert(false);
                                }
                            } else {
                                assert(stack_v@[i] == pre[i]);
                                assert(prime_stack_covers(stack_v@, sel));
                            }
                        }
                    }
                }
            }
        }
    }
    out
}

/// Prime-group search over the full category order: the group bound is the
/// total number of categories.
pub fn find_all_prime_groups_with_metric(
    base: &Vec<Vec<QueueCandidate>>,
    metric: &CostMetric,
) -> (out: Vec<PrimeGroupResult>)
    requires
        all_candidates_valid(base@),
        base@.len() <= u8::MAX,
    ensures
        forall|k: int|
            0 <= k < out@.len() ==> prime_emitted_ok(
                base@,
                crate::CATEGORY_COUNT as int,
                *metric,
                #[trigger] out@[k],
            ),
        forall|sel: Seq<int>| #[trigger]
            prime_target(base@, crate::CATEGORY_COUNT as int, *metric, sel) ==> prime_covers(
                base@,
                out@,
                sel,
            ),
        forall|k: int| 0 <= k < out@.len() ==> (#[trigger] out@[k]).item_count <= TRUCK_SIZE_U16,
{
    find_prime_n_groups_with_metric(base, crate::CATEGORY_COUNT, metric)
}

/// Law: with `Affordable` as the metric, the prime-group search emits, for
/// every feasible full-length batch whose first category's order vector is
/// non-trivial, a prefix of that batch — the one-category prefix already
/// satisfies the metric, whatever the group bound. A feasible batch whose
/// first category is all-zero has no such prefix: the search discards
/// branches that start trivially.
pub proof fn lemma_prime_groups_cover_batches(
    cs: Seq<Vec<QueueCandidate>>,
    n: int,
    sel: Seq<int>,
)
    requires
        all_candidates_valid(cs),
        cs.len() >= 1,
        crate::search::batch_target(cs, cs.len() as int, CostMetric::Affordable, sel),
        !is_zero_queue(cs[0]@[sel[0]].queue@),
    ensures
        prime_target(cs, n, CostMetric::Affordable, sel.subrange(0, 1)),
{
    let pre = sel.subrange(0, 1);
    lemma_sel_prefix_feasible(cs, sel, 1);
    assert(spec_check_metric(CostMetric::Affordable, sel_costs(cs, pre)));
    assert(pre[0] == sel[0]);
    assert(prime_target(cs, n, CostMetric::Affordable, pre));
}

} // verus!
