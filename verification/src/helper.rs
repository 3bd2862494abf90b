//! Aggregate cost of a whole batch: the element-wise sum over categories of
//! each order vector multiplied by its category's cost matrix.

use vstd::prelude::*;

use crate::item_set::ItemSetCategoryWrapper;
use crate::queue::{lemma_mat_cost_bound, lemma_mat_cost_nonneg, lemma_queue_sum_nonneg,
    lemma_queue_sum_take_le, lemma_queue_sum_take_succ, lemma_mat_cost_take_succ, mat_cost_at,
    queue_sum};
use crate::{CATEGORY_COUNT, MATERIAL_COUNT, MAX_ORDER_U16};

verus! {

/// Material `j` consumed by the first `k` categories of a batch.
pub open spec fn batch_cost_prefix(
    cats: Seq<ItemSetCategoryWrapper>,
    batch: Seq<Vec<u16>>,
    k: int,
    j: int,
) -> int
    decreases k,
{
    if k <= 0 {
        0
    } else {
        batch_cost_prefix(cats, batch, k - 1, j) + mat_cost_at(
            (batch[k - 1])@,
            cats[k - 1].spec_cost_matrix(),
            j,
        )
    }
}

/// Material `j` consumed by the whole batch.
pub open spec fn spec_batch_cost(
    cats: Seq<ItemSetCategoryWrapper>,
    batch: Seq<Vec<u16>>,
    j: int,
) -> int {
    batch_cost_prefix(cats, batch, batch.len() as int, j)
}

/// The aggregate cost vector of a batch: one order vector per category, in
/// category order, each multiplied by its category's cost matrix and summed.
#[verifier::loop_isolation(false)]
pub fn batch_cost(batch: &Vec<Vec<u16>>, cats: &Vec<ItemSetCategoryWrapper>) -> (r: Vec<u32>)
    requires
        batch@.len() == cats@.len(),
        cats@.len() <= CATEGORY_COUNT,
        forall|i: int| 0 <= i < batch@.len() ==> (#[trigger] batch@[i])@.len() == cats@[i].spec_size(),
        forall|i: int| 0 <= i < batch@.len() ==> queue_sum((#[trigger] batch@[i])@) <= MAX_ORDER_U16,
    ensures
        r@.len() == MATERIAL_COUNT,
        forall|j: int| 0 <= j < MATERIAL_COUNT ==> r@[j] == spec_batch_cost(cats@, batch@, j),
{
    let mut r: Vec<u32> = Vec::new();
    let mut j: usize = 0;
    while j < MATERIAL_COUNT
        invariant
            j <= MATERIAL_COUNT,
            r@.len() == j,
            forall|jj: int| 0 <= jj < j ==> r@[jj] == spec_batch_cost(cats@, batch@, jj),
        decreases MATERIAL_COUNT - j,
    {
        let mut acc: u32 = 0;
        let mut idx: usize = 0;
        while idx < batch.len()
            invariant
                idx <= batch@.len(),
                j < MATERIAL_COUNT,
                acc == batch_cost_prefix(cats@, batch@, idx as int, j as int),
                acc <= idx * 262140,
            decreases batch@.len() - idx,
        {
            let q = &batch[idx];
            let m = cats[idx].cost_matrix();
            let ghost pq = q@;
            let ghost mm = m@;

            let mut cat_acc: u32 = 0;
            let mut i: usize = 0;
            proof {
                assert(pq.subrange(0, 0) =~= Seq::<u16>::empty());
            }
            while i < q.len()
                invariant
                    i <= pq.len(),
                    j < MATERIAL_COUNT,
                    idx < batch@.len(),
                    pq == (batch@[idx as int])@,
                    mm == m@,
                    mm.len() == pq.len() * MATERIAL_COUNT,
                    queue_sum(pq) <= MAX_ORDER_U16,
                    cat_acc == mat_cost_at(pq.subrange(0, i as int), mm, j as int),
                    cat_acc <= queue_sum(pq.subrange(0, i as int)) * 65535,
                decreases pq.len() - i,
            {
                proof {
                    assert(i * MATERIAL_COUNT + j < pq.len() * MATERIAL_COUNT) by (nonlinear_arith)
                        requires
                            i < pq.len(),
                            j < MATERIAL_COUNT,
                    ;
                    lemma_mat_cost_take_succ(pq, mm, j as int, i as int);
                    lemma_queue_sum_take_succ(pq, i as int);
                    lemma_queue_sum_take_le(pq, i as int + 1);
                    lemma_queue_sum_nonneg(pq.subrange(0, i as int));
                    assert((pq[i as int] as int) * (mm[(i as int) * (MATERIAL_COUNT as int) + (
                    j as int)] as int) <= (pq[i as int] as int) * 65535 && (queue_sum(
                        pq.subrange(0, i as int),
                    ) + pq[i as int]) * 65535 == queue_sum(pq.subrange(0, i as int)) * 65535 + (
                    pq[i as int] as int) * 65535) by (nonlinear_arith)
                        requires
                            0 <= pq[i as int] as int,
                            0 <= mm[(i as int) * (MATERIAL_COUNT as int) + (j as int)] as int
                                <= 65535,
                    ;
                }
                cat_acc = cat_acc + (q[i] as u32) * (m[i * MATERIAL_COUNT + j] as u32);
                i = i + 1;
            }
            proof {
                assert(pq.subrange(0, pq.len() as int) =~= pq);
                lemma_queue_sum_nonneg(pq);
                lemma_mat_cost_nonneg(pq, mm, j as int);
                lemma_mat_cost_bound(pq, mm, j as int);
                assert(queue_sum(pq) * 65535 <= 4 * 65535) by (nonlinear_arith)
                    requires
                        queue_sum(pq) <= 4,
                ;
            }
            acc = acc + cat_acc;
            idx = idx + 1;
        }
        r.push(acc);
        j = j + 1;
    }
    r
}

} // verus!
