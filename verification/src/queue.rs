//! The queue generator: enumerates, for one category, every admissible order
//! vector, evaluates its cost vector and item count, and keeps exactly those
//! that are affordable and fit the truck.

use vstd::prelude::*;

use crate::cost_metric::{spec_affordable, to_ints, lemma_affordable_entry_bound, cost_vector_wf,
    div_ceil_by, slot_sum_prefix, spec_slot_count};
use crate::material::stack_of;
use crate::{MATERIAL_COUNT, MAX_ORDER_U16, TRUCK_SIZE_U16};

verus! {

/// Total number of items an order vector requests.
pub open spec fn queue_sum(q: Seq<u16>) -> int
    decreases q.len(),
{
    if q.len() == 0 {
        0
    } else {
        queue_sum(q.drop_last()) + q.last()
    }
}

/// An order vector is admissible for a category of `size` items when it has
/// one entry per item, every entry is drawn from the allowed order range,
/// and the entries sum to at most the per-category order cap.
pub open spec fn admissible_queue(q: Seq<u16>, size: int, range: Seq<u16>) -> bool {
    &&& q.len() == size
    &&& forall|i: int| 0 <= i < q.len() ==> range.contains(#[trigger] q[i])
    &&& queue_sum(q) <= MAX_ORDER_U16 as int
}

/// Material `j` consumed by order vector `q` under the row-major cost matrix
/// `m`: the sum over items `i` of `q[i] * m[i * MATERIAL_COUNT + j]`.
pub open spec fn mat_cost_at(q: Seq<u16>, m: Seq<u16>, j: int) -> int
    decreases q.len(),
{
    if q.len() == 0 {
        0
    } else {
        mat_cost_at(q.drop_last(), m, j) + q.last() * m[(q.len() - 1) * (MATERIAL_COUNT as int) + j]
    }
}

/// The full cost vector of an order vector, as unbounded integers.
pub open spec fn spec_queue_cost(q: Seq<u16>, m: Seq<u16>) -> Seq<int> {
    Seq::new(MATERIAL_COUNT as nat, |j: int| mat_cost_at(q, m, j))
}

/// The generator's filter: the cost vector is affordable and the item count
/// fits the truck.
pub open spec fn passes_filter(q: Seq<u16>, m: Seq<u16>) -> bool {
    spec_affordable(spec_queue_cost(q, m)) && queue_sum(q) <= TRUCK_SIZE_U16 as int
}

/// One admissible order vector together with its evaluated cost vector and
/// item count, as produced by the queue generator.
pub struct QueueCandidate {
    pub queue: Vec<u16>,
    pub cost: Vec<u16>,
    pub item_count: u16,
}

impl QueueCandidate {
    /// Everything the generator promises of one candidate: the order vector
    /// is admissible, the stored cost vector is exactly the one recomputed
    /// from the order vector and the cost matrix, the stored item count is
    /// the sum of the order vector, and the candidate passed the filter.
    pub open spec fn wf(self, size: int, m: Seq<u16>, range: Seq<u16>) -> bool {
        &&& admissible_queue(self.queue@, size, range)
        &&& self.cost@.len() == MATERIAL_COUNT
        &&& forall|j: int|
            0 <= j < MATERIAL_COUNT ==> self.cost@[j] == mat_cost_at(self.queue@, m, j)
        &&& self.item_count == queue_sum(self.queue@)
        &&& spec_affordable(to_ints(self.cost@))
        &&& self.item_count <= TRUCK_SIZE_U16
    }

    /// The part of well-formedness the batch searches rely on, independent of
    /// any particular category.
    pub open spec fn valid(self) -> bool {
        &&& self.cost@.len() == MATERIAL_COUNT
        &&& spec_affordable(to_ints(self.cost@))
        &&& self.item_count <= TRUCK_SIZE_U16
    }
}


/// Every candidate of the list is well-formed for this category.
pub open spec fn candidate_list_wf(
    size: int,
    m: Seq<u16>,
    range: Seq<u16>,
    list: Seq<QueueCandidate>,
) -> bool {
    forall|k: int| 0 <= k < list.len() ==> (#[trigger] list[k]).wf(size, m, range)
}

/// Every admissible order vector that passes the filter appears in the list.
pub open spec fn candidate_list_complete(
    size: int,
    m: Seq<u16>,
    range: Seq<u16>,
    list: Seq<QueueCandidate>,
) -> bool {
    forall|q: Seq<u16>| #[trigger]
        admissible_queue(q, size, range) && passes_filter(q, m) ==> exists|k: int|
            0 <= k < list.len() && (#[trigger] list[k]).queue@ == q
}

/// Extending a prefix appends one term to its sum.
pub proof fn lemma_queue_sum_take_succ(q: Seq<u16>, k: int)
    requires
        0 <= k < q.len(),
    ensures
        queue_sum(q.subrange(0, k + 1)) == queue_sum(q.subrange(0, k)) + q[k],
{
    let s = q.subrange(0, k + 1);
    assert(s.drop_last() =~= q.subrange(0, k));
    assert(s.last() == q[k]);
}

/// Order sums are never negative.
pub proof fn lemma_queue_sum_nonneg(q: Seq<u16>)
    ensures
        queue_sum(q) >= 0,
    decreases q.len(),
{
    if q.len() > 0 {
        lemma_queue_sum_nonneg(q.drop_last());
    }
}

/// A prefix never sums to more than the whole vector.
pub proof fn lemma_queue_sum_take_le(q: Seq<u16>, k: int)
    requires
        0 <= k <= q.len(),
    ensures
        queue_sum(q.subrange(0, k)) <= queue_sum(q),
    decreases q.len() - k,
{
    if k == q.len() {
        assert(q.subrange(0, k) =~= q);
    } else {
        lemma_queue_sum_take_le(q, k + 1);
        lemma_queue_sum_take_succ(q, k);
    }
}

/// Extending a prefix appends one term to each material cost.
pub proof fn lemma_mat_cost_take_succ(q: Seq<u16>, m: Seq<u16>, j: int, k: int)
    requires
        0 <= k < q.len(),
    ensures
        mat_cost_at(q.subrange(0, k + 1), m, j) == mat_cost_at(q.subrange(0, k), m, j) + q[k] * m[k
            * (MATERIAL_COUNT as int) + j],
{
    let s = q.subrange(0, k + 1);
    assert(s.drop_last() =~= q.subrange(0, k));
    assert(s.last() == q[k]);
}

/// Material costs are never negative.
pub proof fn lemma_mat_cost_nonneg(q: Seq<u16>, m: Seq<u16>, j: int)
    ensures
        mat_cost_at(q, m, j) >= 0,
    decreases q.len(),
{
    if q.len() > 0 {
        lemma_mat_cost_nonneg(q.drop_last(), m, j);
        assert(q.last() * m[(q.len() - 1) * (MATERIAL_COUNT as int) + j] >= 0) by (nonlinear_arith);
    }
}

/// A material cost is bounded by the order sum times the largest possible
/// matrix entry; this is what keeps the evaluation inside a machine word.
pub proof fn lemma_mat_cost_bound(q: Seq<u16>, m: Seq<u16>, j: int)
    ensures
        mat_cost_at(q, m, j) <= queue_sum(q) * 65535,
    decreases q.len(),
{
    if q.len() == 0 {
    } else {
        lemma_mat_cost_bound(q.drop_last(), m, j);
        let x = q.last() as int;
        let e = m[(q.len() - 1) * (MATERIAL_COUNT as int) + j] as int;
        assert(x * e <= x * 65535 && (queue_sum(q.drop_last()) + x) * 65535 == queue_sum(
            q.drop_last(),
        ) * 65535 + x * 65535) by (nonlinear_arith)
            requires
                0 <= x,
                0 <= e <= 65535,
        ;
    }
}

/// Sum of the entries of an order vector.
#[verifier::loop_isolation(false)]
fn order_sum(v: &Vec<u16>) -> (r: u16)
    requires
        queue_sum(v@) <= u16::MAX,
    ensures
        r == queue_sum(v@),
{
    let mut acc: u16 = 0;
    let mut i: usize = 0;
    proof {
        assert(v@.subrange(0, 0) =~= Seq::<u16>::empty());
    }
    while i < v.len()
        invariant
            i <= v@.len(),
            acc == queue_sum(v@.subrange(0, i as int)),
        decreases v@.len() - i,
    {
        proof {
            lemma_queue_sum_take_succ(v@, i as int);
            lemma_queue_sum_take_le(v@, i as int + 1);
            lemma_queue_sum_nonneg(v@.subrange(0, i as int));
        }
        acc = acc + v[i];
        i = i + 1;
    }
    proof {
        assert(v@.subrange(0, v@.len() as int) =~= v@);
    }
    acc
}

/// There is an entry at `t` of `list` whose contents are the length-`l`
/// prefix of `q`.
pub open spec fn holds_prefix(list: Seq<Vec<u16>>, q: Seq<u16>, l: int) -> bool {
    exists|t: int| 0 <= t < list.len() && (#[trigger] list[t])@ == q.subrange(0, l)
}

/// A generated prefix: `level` entries, each from the order range, summing
/// to at most the per-category cap.
pub open spec fn prefix_ok(p: Seq<u16>, level: int, range: Seq<u16>) -> bool {
    &&& p.len() == level
    &&& forall|i: int| 0 <= i < p.len() ==> range.contains(#[trigger] p[i])
    &&& queue_sum(p) <= MAX_ORDER_U16 as int
}

/// Enumerate every admissible order vector for a category of `size` items,
/// keep those whose cost vector is affordable and whose item count fits the
/// truck, and return them with their evaluated cost vectors and item counts.
///
/// The enumeration grows prefixes level by level and never extends a prefix
/// beyond the order cap, so the admissible space is produced without ever
/// materialising an inadmissible vector.
#[verifier::loop_isolation(false)]
pub fn generate_valid_queues(size: usize, cost_matrix: &Vec<u16>, order_range: &Vec<u16>) -> (r:
    Vec<QueueCandidate>)
    requires
        cost_matrix@.len() == size * MATERIAL_COUNT,
    ensures
        candidate_list_wf(size as int, cost_matrix@, order_range@, r@),
        candidate_list_complete(size as int, cost_matrix@, order_range@, r@),
{
    let ghost m = cost_matrix@;
    let ghost range = order_range@;
    let mlen: usize = cost_matrix.len();

    // Phase one: grow all admissible prefixes, level by level.
    let mut prefixes: Vec<Vec<u16>> = Vec::new();
    prefixes.push(Vec::new());
    proof {
        assert(queue_sum(Seq::<u16>::empty()) == 0);
        assert forall|q: Seq<u16>| #[trigger]
            admissible_queue(q, size as int, range) implies holds_prefix(prefixes@, q, 0) by {
            assert(prefixes@[0]@ =~= q.subrange(0, 0));
        }
    }
    let mut level: usize = 0;
    while level < size
        invariant
            level <= size,
            forall|t: int|
                0 <= t < prefixes@.len() ==> prefix_ok((#[trigger] prefixes@[t])@, level as int, range),
            forall|q: Seq<u16>| #[trigger]
                admissible_queue(q, size as int, range) ==> holds_prefix(prefixes@, q, level as int),
        decreases size - level,
    {
        let mut next: Vec<Vec<u16>> = Vec::new();
        let mut pi: usize = 0;
        while pi < prefixes.len()
            invariant
                pi <= prefixes@.len(),
                forall|t: int|
                    0 <= t < next@.len() ==> prefix_ok((#[trigger] next@[t])@, level as int + 1, range),
                forall|q: Seq<u16>| #[trigger]
                    admissible_queue(q, size as int, range) ==> holds_prefix(next@, q, level as int + 1)
                        || exists|t: int|
                        pi <= t < prefixes@.len() && (#[trigger] prefixes@[t])@ == q.subrange(
                            0,
                            level as int,
                        ),
            decreases prefixes@.len() - pi,
        {
            let p = &prefixes[pi];
            proof {
                lemma_queue_sum_nonneg(p@);
            }
            let sum = order_sum(p);
            proof {
                assert forall|q: Seq<u16>| #[trigger]
                    admissible_queue(q, size as int, range) implies holds_prefix(
                    next@,
                    q,
                    level as int + 1,
                ) || exists|u: int|
                    pi < u < prefixes@.len() && (#[trigger] prefixes@[u])@ == q.subrange(
                        0,
                        level as int,
                    ) || (q.subrange(0, level as int) == p@ && exists|w: int|
                        0 <= w < range.len() && range[w] == q[level as int]) by {
                    if !holds_prefix(next@, q, level as int + 1) {
                        let u = choose|t: int|
                            pi <= t < prefixes@.len() && (#[trigger] prefixes@[t])@ == q.subrange(
                                0,
                                level as int,
                            );
                        if u == pi {
                            assert(range.contains(q[level as int]));
                        }
                    }
                }
            }
            let mut t: usize = 0;
            while t < order_range.len()
                invariant
                    t <= range.len(),
                    forall|u: int|
                        0 <= u < next@.len() ==> prefix_ok((#[trigger] next@[u])@, level as int + 1, range),
                    forall|q: Seq<u16>| #[trigger]
                        admissible_queue(q, size as int, range) ==> holds_prefix(
                            next@,
                            q,
                            level as int + 1,
                        ) || exists|u: int|
                            pi < u < prefixes@.len() && (#[trigger] prefixes@[u])@ == q.subrange(
                                0,
                                level as int,
                            ) || (q.subrange(0, level as int) == p@ && exists|w: int|
                                t <= w < range.len() && range[w] == q[level as int]),
                decreases range.len() - t,
            {
                let ghost next0 = next@;
                let n = order_range[t];
                let pushed = n <= MAX_ORDER_U16 && sum + n <= MAX_ORDER_U16;
                if pushed {
                    let mut ext = vstd::slice::slice_to_vec(p.as_slice());
                    ext.push(n);
                    proof {
                        assert(ext@.drop_last() =~= p@);
                        assert(prefix_ok(ext@, level as int + 1, range)) by {
                            assert(forall|i: int|
                                0 <= i < p@.len() ==> range.contains(#[trigger] p@[i]));
                            assert(ext@[level as int] == range[t as int]);
                        }
                    }
                    next.push(ext);
                    proof {
                        assert(next@ == next0.push(ext));
                        assert(next@[next0.len() as int]@ == p@.push(n));
                    }
                }
                proof {
                    let t0 = t as int;
                    let l = level as int;
                    assert forall|q: Seq<u16>| #[trigger]
                        admissible_queue(q, size as int, range) implies holds_prefix(
                        next@,
                        q,
                        l + 1,
                    ) || exists|u: int|
                        pi < u < prefixes@.len() && (#[trigger] prefixes@[u])@ == q.subrange(
                            0,
                            l,
                        ) || (q.subrange(0, l) == p@ && exists|w: int|
                            t0 + 1 <= w < range.len() && range[w] == q[l]) by {
                        if holds_prefix(next0, q, l + 1) {
                            let tt = choose|u: int|
                                0 <= u < next0.len() && (#[trigger] next0[u])@ == q.subrange(0, l + 1);
                            assert((next@[tt])@ == q.subrange(0, l + 1));
                            assert(holds_prefix(next@, q, l + 1));
                        } else if exists|u: int|
                            pi < u < prefixes@.len() && (#[trigger] prefixes@[u])@ == q.subrange(0, l) {
                            // untouched witness persists
                        } else if q.subrange(0, l) == p@ && exists|w: int|
                            t0 <= w < range.len() && range[w] == q[l] {
                            if exists|w2: int| t0 + 1 <= w2 < range.len() && range[w2] == q[l] {
                                // a later occurrence of the same order value remains
                            } else {
                                let w = choose|w: int| t0 <= w < range.len() && range[w] == q[l];
                                assert(w == t0);
                                assert(n == q[l]);
                                // the extension fits under the order cap, so it was pushed
                                lemma_queue_sum_take_succ(q, l);
                                lemma_queue_sum_take_le(q, l + 1);
                                lemma_queue_sum_nonneg(q.subrange(0, l));
                                assert(queue_sum(q.subrange(0, l + 1)) <= MAX_ORDER_U16 as int);
                                assert(sum + n <= MAX_ORDER_U16);
                                assert(n <= MAX_ORDER_U16);
                                assert(pushed);
                                assert((next@[next0.len() as int])@ == p@.push(n));
                                assert(p@.push(n) =~= q.subrange(0, l + 1));
                                assert(holds_prefix(next@, q, l + 1));
                            }
                        }
                    }
                }
                t = t + 1;
            }
            pi = pi + 1;
        }
        prefixes = next;
        level = level + 1;
    }

    // Phase two: evaluate each completed order vector and keep those that
    // pass the affordability and truck-capacity filter.
    let mut r: Vec<QueueCandidate> = Vec::new();
    let mut pi: usize = 0;
    while pi < prefixes.len()
        invariant
            pi <= prefixes@.len(),
            forall|k: int|
                0 <= k < r@.len() ==> (#[trigger] r@[k]).wf(size as int, m, range),
            forall|q: Seq<u16>| #[trigger]
                admissible_queue(q, size as int, range) && passes_filter(q, m) ==> (exists|k: int|
                    0 <= k < r@.len() && (#[trigger] r@[k]).queue@ == q) || exists|t: int|
                    pi <= t < prefixes@.len() && (#[trigger] prefixes@[t])@ == q,
        decreases prefixes@.len() - pi,
    {
        let p = &prefixes[pi];
        let ghost pq = p@;
        let ghost r0 = r@;
        proof {
            assert(prefix_ok(pq, size as int, range));
            assert(pq =~= pq.subrange(0, size as int));
        }

        // Evaluate the cost vector in a wide accumulator.
        let ghost icv = spec_queue_cost(pq, m);
        let mut cost_wide: Vec<u32> = Vec::new();
        let mut j: usize = 0;
        while j < MATERIAL_COUNT
            invariant
                j <= MATERIAL_COUNT,
                cost_wide@.len() == j,
                forall|jj: int| 0 <= jj < j ==> cost_wide@[jj] == mat_cost_at(pq, m, jj),
            decreases MATERIAL_COUNT - j,
        {
            let mut acc: u32 = 0;
            let mut i: usize = 0;
            proof {
                assert(pq.subrange(0, 0) =~= Seq::<u16>::empty());
            }
            while i < size
                invariant
                    i <= size,
                    j < MATERIAL_COUNT,
                    acc == mat_cost_at(pq.subrange(0, i as int), m, j as int),
                    acc <= queue_sum(pq.subrange(0, i as int)) * 65535,
                decreases size - i,
            {
                proof {
                    assert(i * MATERIAL_COUNT + j < size * MATERIAL_COUNT) by (nonlinear_arith)
                        requires
                            i < size,
                            j < MATERIAL_COUNT,
                    ;
                    assert(size * MATERIAL_COUNT == mlen);
                    lemma_mat_cost_take_succ(pq, m, j as int, i as int);
                    lemma_queue_sum_take_succ(pq, i as int);
                    lemma_queue_sum_take_le(pq, i as int + 1);
                    lemma_queue_sum_nonneg(pq.subrange(0, i as int));
                    lemma_mat_cost_nonneg(pq.subrange(0, i as int), m, j as int);
                    assert((pq[i as int] as int) * (m[(i as int) * (MATERIAL_COUNT as int) + (
                    j as int)] as int) <= (pq[i as int] as int) * 65535 && (queue_sum(
                        pq.subrange(0, i as int),
                    ) + pq[i as int]) * 65535 == queue_sum(pq.subrange(0, i as int)) * 65535 + (
                    pq[i as int] as int) * 65535) by (nonlinear_arith)
                        requires
                            0 <= pq[i as int] as int,
                            0 <= m[(i as int) * (MATERIAL_COUNT as int) + (j as int)] as int
                                <= 65535,
                    ;
                }
                acc = acc + (p[i] as u32) * (cost_matrix[i * MATERIAL_COUNT + j] as u32);
                i = i + 1;
            }
            proof {
                assert(pq.subrange(0, size as int) =~= pq);
            }
            cost_wide.push(acc);
            j = j + 1;
        }

        // Slot count of the evaluated cost vector.
        let mut slots: u32 = 0;
        let mut j2: usize = 0;
        while j2 < MATERIAL_COUNT
            invariant
                j2 <= MATERIAL_COUNT,
                cost_wide@.len() == MATERIAL_COUNT,
                forall|jj: int| 0 <= jj < MATERIAL_COUNT ==> cost_wide@[jj] == mat_cost_at(pq, m, jj),
                slots == slot_sum_prefix(icv, j2 as int),
                slots <= (j2 as int) * 3000,
            decreases MATERIAL_COUNT - j2,
        {
            let c = cost_wide[j2];
            let q32 = c / 100;
            let t32 = if c % 100 == 0 {
                q32
            } else {
                q32 + 1
            };
            proof {
                assert(stack_of(j2 as int) == 100);
                assert(icv[j2 as int] == c as int);
                assert(t32 == div_ceil_by(c as int, 100));
                assert(c as int <= 262140) by {
                    lemma_mat_cost_bound(pq, m, j2 as int);
                    lemma_queue_sum_nonneg(pq);
                    assert(queue_sum(pq) * 65535 <= 4 * 65535) by (nonlinear_arith)
                        requires
                            queue_sum(pq) <= 4,
                    ;
                }
                assert(div_ceil_by(c as int, 100) <= 3000);
            }
            slots = slots + t32;
            j2 = j2 + 1;
        }
        proof {
            assert(icv.len() == MATERIAL_COUNT);
            assert(slots == spec_slot_count(icv));
        }

        let item_count = order_sum(p);

        if slots <= TRUCK_SIZE_U16 as u32 && item_count <= TRUCK_SIZE_U16 {
            // Affordability bounds every entry, so the cost narrows to u16.
            proof {
                assert(cost_vector_wf(icv)) by {
                    assert forall|jj: int| 0 <= jj < icv.len() implies icv[jj] >= 0 by {
                        lemma_mat_cost_nonneg(pq, m, jj);
                    }
                }
                lemma_affordable_entry_bound(icv);
            }
            let mut cost: Vec<u16> = Vec::new();
            let mut j3: usize = 0;
            while j3 < MATERIAL_COUNT
                invariant
                    j3 <= MATERIAL_COUNT,
                    cost@.len() == j3,
                    cost_wide@.len() == MATERIAL_COUNT,
                    forall|jj: int|
                        0 <= jj < MATERIAL_COUNT ==> cost_wide@[jj] == mat_cost_at(pq, m, jj),
                    forall|jj: int| 0 <= jj < j3 ==> cost@[jj] == mat_cost_at(pq, m, jj),
                decreases MATERIAL_COUNT - j3,
            {
                proof {
                    assert(icv[j3 as int] <= 1500);
                }
                cost.push(cost_wide[j3] as u16);
                j3 = j3 + 1;
            }
            let cand = QueueCandidate { queue: vstd::slice::slice_to_vec(p.as_slice()), cost, item_count };
            proof {
                assert(to_ints(cand.cost@) =~= icv);
                assert(cand.wf(size as int, m, range));
            }
            r.push(cand);
        }
        proof {
            assert forall|q: Seq<u16>| #[trigger]
                admissible_queue(q, size as int, range) && passes_filter(q, m) implies (exists|k: int|
                0 <= k < r@.len() && (#[trigger] r@[k]).queue@ == q) || exists|t: int|
                pi + 1 <= t < prefixes@.len() && (#[trigger] prefixes@[t])@ == q by {
                if exists|k: int| 0 <= k < r0.len() && (#[trigger] r0[k]).queue@ == q {
                    let k0 = choose|k: int| 0 <= k < r0.len() && (#[trigger] r0[k]).queue@ == q;
                    assert(r@[k0].queue@ == q);
                } else {
                    let t0 = choose|t: int|
                        pi <= t < prefixes@.len() && (#[trigger] prefixes@[t])@ == q;
                    if t0 == pi {
                        // This very order vector was just evaluated; the
                        // filter passed, so it was emitted.
                        assert(pq == q);
                        assert(spec_queue_cost(pq, m) == spec_queue_cost(q, m));
                        assert(r@[r@.len() - 1].queue@ == q);
                    }
                }
            }
        }
        pi = pi + 1;
    }
    proof {
        assert(candidate_list_wf(size as int, m, range, r@));
        assert forall|q: Seq<u16>| #[trigger]
            admissible_queue(q, size as int, range) && passes_filter(q, m) implies exists|k: int|
            0 <= k < r@.len() && (#[trigger] r@[k]).queue@ == q by {
        }
    }
    r
}

} // verus!
