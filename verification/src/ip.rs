//! The integer-program formulation of the batch problem: one bounded integer
//! variable per (category, item) pair plus stack, crate and slot variables
//! per material, with the affordability, divisibility and capacity rules as
//! linear constraints. A generic solver is an outside collaborator: this
//! module builds the program, checks a proposed assignment exactly, and
//! turns an accepted assignment back into a batch.

use vstd::prelude::*;

use crate::item_set::ItemSetCategoryWrapper;
use crate::material::crate_of;
use crate::{CATEGORY_COUNT, MATERIAL_COUNT, MAX_ORDER_U16, TRUCK_SIZE_U16};

verus! {

/// Largest magnitude a solved variable may take to be accepted.
pub const SOLUTION_BOUND: i64 = 1000000000;

/// One linear term: a coefficient times one decision variable.
#[derive(Debug, PartialEq, Eq, Structural, Clone, Copy)]
pub struct LinTerm {
    pub var: usize,
    pub coeff: i64,
}

/// The comparison of one linear constraint.
#[derive(Debug, PartialEq, Eq, Structural, Clone, Copy)]
pub enum ConstraintOp {
    Le,
    Ge,
    Eq,
}

/// One linear constraint: a sum of terms compared against a constant.
pub struct LinConstraint {
    pub terms: Vec<LinTerm>,
    pub op: ConstraintOp,
    pub rhs: i64,
}

/// A bounded-integer linear program: variable bounds, a linear objective to
/// maximise, and linear constraints.
pub struct IntegerProgram {
    pub num_vars: usize,
    pub lower: Vec<i64>,
    pub upper: Vec<Option<i64>>,
    pub objective: Vec<i64>,
    pub constraints: Vec<LinConstraint>,
}

/// Value of a sum of linear terms under an assignment.
pub open spec fn lin_value(terms: Seq<LinTerm>, a: Seq<i64>) -> int
    decreases terms.len(),
{
    if terms.len() == 0 {
        0
    } else {
        lin_value(terms.drop_last(), a) + terms.last().coeff * a[terms.last().var as int]
    }
}

/// An assignment satisfies one constraint.
pub open spec fn constraint_holds(c: LinConstraint, a: Seq<i64>) -> bool {
    match c.op {
        ConstraintOp::Le => lin_value(c.terms@, a) <= c.rhs,
        ConstraintOp::Ge => lin_value(c.terms@, a) >= c.rhs,
        ConstraintOp::Eq => lin_value(c.terms@, a) == c.rhs,
    }
}

/// The program's tables are consistent and its terms name real variables
/// with bounded coefficients.
pub open spec fn ip_wf(ip: IntegerProgram) -> bool {
    &&& ip.lower@.len() == ip.num_vars
    &&& ip.upper@.len() == ip.num_vars
    &&& ip.objective@.len() == ip.num_vars
    &&& forall|c: int, k: int|
        0 <= c < ip.constraints@.len() && 0 <= k < ip.constraints@[c].terms@.len() ==> (
        #[trigger] ip.constraints@[c].terms@[k]).var < ip.num_vars && -65535
            <= ip.constraints@[c].terms@[k].coeff <= 65535
}

/// An assignment is feasible: right length, within every variable's bounds,
/// and satisfying every constraint.
pub open spec fn ip_feasible(ip: IntegerProgram, a: Seq<i64>) -> bool {
    &&& a.len() == ip.num_vars
    &&& forall|v: int| 0 <= v < ip.num_vars ==> ip.lower@[v] <= #[trigger] a[v]
    &&& forall|v: int|
        0 <= v < ip.num_vars ==> match ip.upper@[v] {
            Some(u) => #[trigger] a[v] <= u,
            None => true,
        }
    &&& forall|c: int|
        0 <= c < ip.constraints@.len() ==> constraint_holds(#[trigger] ip.constraints@[c], a)
}

/// Every solved value is within the accepted magnitude.
pub open spec fn solution_bounded(a: Seq<i64>) -> bool {
    forall|v: int| 0 <= v < a.len() ==> -SOLUTION_BOUND <= #[trigger] a[v] <= SOLUTION_BOUND
}

/// Index of the first decision variable of category `i`: one variable per
/// item of every earlier category.
pub open spec fn cat_offset(cats: Seq<ItemSetCategoryWrapper>, i: int) -> int
    decreases i,
{
    if i <= 0 {
        0
    } else {
        cat_offset(cats, i - 1) + cats[i - 1].spec_size()
    }
}

/// Total number of (category, item) decision variables.
pub open spec fn total_item_vars(cats: Seq<ItemSetCategoryWrapper>) -> int {
    cat_offset(cats, cats.len() as int)
}

/// Sum of `k` consecutive assignment entries starting at `lo`.
pub open spec fn items_sum(a: Seq<i64>, lo: int, k: int) -> int
    decreases k,
{
    if k <= 0 {
        0
    } else {
        items_sum(a, lo, k - 1) + a[lo + k - 1]
    }
}

/// Material `m` consumed by the first `k` items of the category whose cost
/// matrix is `mx` and whose variables start at `lo`.
pub open spec fn cat_cost_lin(mx: Seq<u16>, a: Seq<i64>, lo: int, k: int, m: int) -> int
    decreases k,
{
    if k <= 0 {
        0
    } else {
        cat_cost_lin(mx, a, lo, k - 1, m) + mx[(k - 1) * (MATERIAL_COUNT as int) + m] * a[lo + k - 1]
    }
}

/// Material `m` consumed by the first `i` categories under the assignment.
pub open spec fn cost_lin(cats: Seq<ItemSetCategoryWrapper>, a: Seq<i64>, i: int, m: int) -> int
    decreases i,
{
    if i <= 0 {
        0
    } else {
        cost_lin(cats, a, i - 1, m) + cat_cost_lin(
            cats[i - 1].spec_cost_matrix(),
            a,
            cat_offset(cats, i - 1),
            cats[i - 1].spec_size(),
            m,
        )
    }
}

/// Sum of the `k` first slot variables; the slot variable of material `m`
/// sits at `t + 3 * m + 2`.
pub open spec fn slots_sum(a: Seq<i64>, t: int, k: int) -> int
    decreases k,
{
    if k <= 0 {
        0
    } else {
        slots_sum(a, t, k - 1) + a[t + 3 * (k - 1) + 2]
    }
}

/// The program is exactly the batch formulation for this category order:
/// one variable per (category, item) pair bounded by the order cap, three
/// auxiliary variables per material bounded below by zero, a uniform
/// objective over the item variables, and the constraints of the batch
/// problem in a fixed order: per-category caps; total item count at least
/// one and at most the truck capacity; per material, the slot variable
/// bracketing the cost within one stack width and the crate variable packing
/// the cost exactly; and the slot variables summing to the full capacity.
pub open spec fn is_batch_ip(ip: IntegerProgram, cats: Seq<ItemSetCategoryWrapper>) -> bool {
    let t = total_item_vars(cats);
    let l = cats.len() as int;
    &&& ip.num_vars == t + 3 * MATERIAL_COUNT
    &&& forall|v: int| 0 <= v < t ==> (#[trigger] ip.lower@[v]) == 0
    &&& forall|v: int| 0 <= v < t ==> (#[trigger] ip.upper@[v]) == Some(MAX_ORDER_U16 as i64)
    &&& forall|v: int| 0 <= v < t ==> (#[trigger] ip.objective@[v]) == 1
    &&& forall|v: int| t <= v < t + 3 * MATERIAL_COUNT ==> (#[trigger] ip.lower@[v]) == 0
    &&& forall|v: int| t <= v < t + 3 * MATERIAL_COUNT ==> (#[trigger] ip.upper@[v]) == None::<i64>
    &&& forall|v: int| t <= v < t + 3 * MATERIAL_COUNT ==> (#[trigger] ip.objective@[v]) == 0
    &&& ip.constraints@.len() == l + 2 + 3 * MATERIAL_COUNT + 1
    &&& forall|a: Seq<i64>, i: int|
        a.len() == ip.num_vars && 0 <= i < l ==> ((#[trigger] constraint_holds(ip.constraints@[i], a))
            <==> items_sum(a, cat_offset(cats, i), cats[i].spec_size()) <= MAX_ORDER_U16 as int)
    &&& forall|a: Seq<i64>|
        a.len() == ip.num_vars ==> ((#[trigger] constraint_holds(ip.constraints@[l], a)) <==> items_sum(
            a,
            0,
            t,
        ) >= 1)
    &&& forall|a: Seq<i64>|
        a.len() == ip.num_vars ==> ((#[trigger] constraint_holds(ip.constraints@[l + 1], a))
            <==> items_sum(a, 0, t) <= TRUCK_SIZE_U16 as int)
    &&& forall|a: Seq<i64>, m: int|
        a.len() == ip.num_vars && 0 <= m < MATERIAL_COUNT ==> ((#[trigger] constraint_holds(ip.constraints@[l + 2 + 3 * m], a)) <==> 100 * a[t + 3 * m + 2] >= cost_lin(cats, a, l, m))
    &&& forall|a: Seq<i64>, m: int|
        a.len() == ip.num_vars && 0 <= m < MATERIAL_COUNT ==> ((#[trigger] constraint_holds(ip.constraints@[l + 2 + 3 * m + 1], a)) <==> 100 * a[t + 3 * m + 2] <= cost_lin(cats, a, l, m) + 99)
    &&& forall|a: Seq<i64>, m: int|
        a.len() == ip.num_vars && 0 <= m < MATERIAL_COUNT ==> ((#[trigger] constraint_holds(ip.constraints@[l + 2 + 3 * m + 2], a)) <==> crate_of(m) * a[t + 3 * m + 1] == cost_lin(cats, a, l, m))
    &&& forall|a: Seq<i64>|
        a.len() == ip.num_vars ==> ((#[trigger] constraint_holds(ip.constraints@[l + 2 + 3 * MATERIAL_COUNT], a)) <==> slots_sum(a, t, MATERIAL_COUNT as int) == TRUCK_SIZE_U16 as int)
}

/// Appending one term appends its value.
pub proof fn lemma_lin_push(terms: Seq<LinTerm>, tm: LinTerm, a: Seq<i64>)
    ensures
        lin_value(terms.push(tm), a) == lin_value(terms, a) + tm.coeff * a[tm.var as int],
{
    let s = terms.push(tm);
    assert(s.drop_last() =~= terms);
    assert(s.last() == tm);
}

/// Truncating one term removes its value.
pub proof fn lemma_lin_take_succ(terms: Seq<LinTerm>, a: Seq<i64>, k: int)
    requires
        0 <= k < terms.len(),
    ensures
        lin_value(terms.subrange(0, k + 1), a) == lin_value(terms.subrange(0, k), a)
            + terms[k].coeff * a[terms[k].var as int],
{
    let s = terms.subrange(0, k + 1);
    assert(s.drop_last() =~= terms.subrange(0, k));
    assert(s.last() == terms[k]);
}

/// The offset of each category, then the total, as one table.
#[verifier::loop_isolation(false)]
fn offset_table(cats: &Vec<ItemSetCategoryWrapper>) -> (offs: Vec<usize>)
    requires
        cats@.len() <= CATEGORY_COUNT,
    ensures
        offs@.len() == cats@.len() + 1,
        forall|i: int| 0 <= i <= cats@.len() ==> (#[trigger] offs@[i]) == cat_offset(cats@, i),
        forall|i: int| 0 <= i <= cats@.len() ==> (#[trigger] offs@[i]) <= i * 255,
{
    let mut offs: Vec<usize> = Vec::new();
    offs.push(0);
    let mut i: usize = 0;
    while i < cats.len()
        invariant
            i <= cats@.len(),
            offs@.len() == i + 1,
            forall|k: int| 0 <= k <= i ==> (#[trigger] offs@[k]) == cat_offset(cats@, k),
            forall|k: int| 0 <= k <= i ==> (#[trigger] offs@[k]) <= k * 255,
        decreases cats@.len() - i,
    {
        let sz = cats[i].size();
        let off = offs[i];
        offs.push(off + sz as usize);
        i = i + 1;
    }
    offs
}

/// Coefficient-one terms over `n` consecutive variables starting at `lo`.
#[verifier::loop_isolation(false)]
fn unit_terms_vec(lo: usize, n: usize) -> (r: Vec<LinTerm>)
    requires
        lo + n <= 100000,
    ensures
        r@.len() == n,
        forall|k: int| 0 <= k < n ==> (#[trigger] r@[k]).var == lo + k && r@[k].coeff == 1,
{
    let mut r: Vec<LinTerm> = Vec::new();
    let mut k: usize = 0;
    while k < n
        invariant
            k <= n,
            r@.len() == k,
            forall|t: int| 0 <= t < k ==> (#[trigger] r@[t]).var == lo + t && r@[t].coeff == 1,
        decreases n - k,
    {
        r.push(LinTerm { var: lo + k, coeff: 1 });
        k = k + 1;
    }
    r
}

/// Coefficient-one terms over a block of variables sum that block.
proof fn lemma_unit_lin(terms: Seq<LinTerm>, a: Seq<i64>, lo: int)
    requires
        forall|k: int| 0 <= k < terms.len() ==> (#[trigger] terms[k]).var == lo + k && terms[k].coeff
            == 1,
    ensures
        lin_value(terms, a) == items_sum(a, lo, terms.len() as int),
    decreases terms.len(),
{
    if terms.len() > 0 {
        lemma_unit_lin(terms.drop_last(), a, lo);
    }
}

/// The negated item-cost terms of material `m`: for every (category, item)
/// variable, minus the amount of material `m` one unit of that item costs.
#[verifier::loop_isolation(false)]
fn cost_terms_vec(cats: &Vec<ItemSetCategoryWrapper>, offs: &Vec<usize>, m: usize) -> (r: Vec<
    LinTerm,
>)
    requires
        cats@.len() <= CATEGORY_COUNT,
        m < MATERIAL_COUNT,
        offs@.len() == cats@.len() + 1,
        forall|i: int| 0 <= i <= cats@.len() ==> (#[trigger] offs@[i]) == cat_offset(cats@, i),
        forall|i: int| 0 <= i <= cats@.len() ==> (#[trigger] offs@[i]) <= i * 255,
    ensures
        r@.len() == total_item_vars(cats@),
        forall|k: int|
            0 <= k < r@.len() ==> (#[trigger] r@[k]).var < total_item_vars(cats@) && -65535
                <= r@[k].coeff <= 0,
        forall|a: Seq<i64>| #[trigger] lin_value(r@, a) == -cost_lin(cats@, a, cats@.len() as int, m as int),
{
    let mut r: Vec<LinTerm> = Vec::new();
    let mut i: usize = 0;
    proof {
        lemma_cat_offset_mono(cats@, 0, cats@.len() as int);
    }
    while i < cats.len()
        invariant
            i <= cats@.len(),
            r@.len() == cat_offset(cats@, i as int),
            forall|k: int|
                0 <= k < r@.len() ==> (#[trigger] r@[k]).var < total_item_vars(cats@) && -65535
                    <= r@[k].coeff <= 0,
            forall|a: Seq<i64>| #[trigger] lin_value(r@, a) == -cost_lin(cats@, a, i as int, m as int),
        decreases cats@.len() - i,
    {
        let sz = cats[i].size();
        let mx = cats[i].cost_matrix();
        let off = offs[i];
        let ghost mxs = cats@[i as int].spec_cost_matrix();
        let ghost lo = cat_offset(cats@, i as int);
        let ghost r0 = r@;
        let mut j: usize = 0;
        while j < sz as usize
            invariant
                j <= sz as usize,
                sz as int == cats@[i as int].spec_size(),
                i < cats@.len(),
                mx@ == mxs,
                mx@.len() == sz as usize * MATERIAL_COUNT,
                off == lo,
                off <= i * 255,
                r@.len() == lo + j,
                forall|k: int|
                    0 <= k < r@.len() ==> (#[trigger] r@[k]).var < total_item_vars(cats@) && -65535
                        <= r@[k].coeff <= 0,
                forall|a: Seq<i64>| #[trigger]
                    lin_value(r@, a) == -cost_lin(cats@, a, i as int, m as int) - cat_cost_lin(
                        mxs,
                        a,
                        lo,
                        j as int,
                        m as int,
                    ),
            decreases sz as usize - j,
        {
            proof {
                assert(j * MATERIAL_COUNT + m < sz as usize * MATERIAL_COUNT) by (nonlinear_arith)
                    requires
                        j < sz as usize,
                        m < MATERIAL_COUNT,
                ;
                lemma_cat_offset_mono(cats@, i as int + 1, cats@.len() as int);
            }
            let coeff: i64 = -(mx[j * MATERIAL_COUNT + m] as i64);
            let tm = LinTerm { var: off + j, coeff };
            let ghost r1 = r@;
            r.push(tm);
            proof {
                assert forall|a: Seq<i64>| #[trigger]
                    lin_value(r@, a) == -cost_lin(cats@, a, i as int, m as int) - cat_cost_lin(
                        mxs,
                        a,
                        lo,
                        j as int + 1,
                        m as int,
                    ) by {
                    lemma_lin_push(r1, tm, a);
                    let cf = mxs[(j as int) * (MATERIAL_COUNT as int) + (m as int)] as int;
                    let av = a[lo + j as int];
                    assert((-cf) * av == -(cf * av)) by (nonlinear_arith);
                    assert(tm.coeff as int == -cf);
                }
            }
            j = j + 1;
        }
        proof {
            assert forall|a: Seq<i64>| #[trigger]
                lin_value(r@, a) == -cost_lin(cats@, a, i as int + 1, m as int) by {
                assert(lin_value(r@, a) == -cost_lin(cats@, a, i as int, m as int) - cat_cost_lin(
                    mxs,
                    a,
                    lo,
                    cats@[i as int].spec_size(),
                    m as int,
                ));
            }
        }
        i = i + 1;
    }
    r
}

/// Category offsets only grow.
proof fn lemma_cat_offset_mono(cats: Seq<ItemSetCategoryWrapper>, i: int, j: int)
    requires
        0 <= i <= j <= cats.len(),
    ensures
        cat_offset(cats, i) <= cat_offset(cats, j),
    decreases j - i,
{
    if i < j {
        lemma_cat_offset_mono(cats, i + 1, j);
    }
}

/// Build the integer program of the batch problem for a category order.
/// The objective weights are uniform: one per item variable.
#[verifier::loop_isolation(false)]
#[verifier::rlimit(60)]
pub fn formulate_batch_ip(cats: &Vec<ItemSetCategoryWrapper>) -> (r: IntegerProgram)
    requires
        cats@.len() <= CATEGORY_COUNT,
    ensures
        ip_wf(r),
        is_batch_ip(r, cats@),
{
    let ghost cseq = cats@;
    let ghost l = cats@.len() as int;
    let offs = offset_table(cats);
    let total = offs[cats.len()];
    let ghost t = total_item_vars(cseq);
    let num_vars = total + 3 * MATERIAL_COUNT;

    // Variable bounds and the uniform objective.
    let mut lower: Vec<i64> = Vec::new();
    let mut upper: Vec<Option<i64>> = Vec::new();
    let mut objective: Vec<i64> = Vec::new();
    let mut v: usize = 0;
    while v < total
        invariant
            v <= total,
            lower@.len() == v && upper@.len() == v && objective@.len() == v,
            forall|k: int| 0 <= k < v ==> (#[trigger] lower@[k]) == 0,
            forall|k: int| 0 <= k < v ==> (#[trigger] upper@[k]) == Some(MAX_ORDER_U16 as i64),
            forall|k: int| 0 <= k < v ==> (#[trigger] objective@[k]) == 1,
        decreases total - v,
    {
        lower.push(0);
        upper.push(Some(MAX_ORDER_U16 as i64));
        objective.push(1);
        v = v + 1;
    }
    let mut v2: usize = 0;
    while v2 < 3 * MATERIAL_COUNT
        invariant
            v2 <= 3 * MATERIAL_COUNT,
            lower@.len() == total + v2 && upper@.len() == total + v2 && objective@.len() == total
                + v2,
            forall|k: int| 0 <= k < total ==> (#[trigger] lower@[k]) == 0,
            forall|k: int| 0 <= k < total ==> (#[trigger] upper@[k]) == Some(MAX_ORDER_U16 as i64),
            forall|k: int| 0 <= k < total ==> (#[trigger] objective@[k]) == 1,
            forall|k: int| total <= k < total + v2 ==> (#[trigger] lower@[k]) == 0,
            forall|k: int| total <= k < total + v2 ==> (#[trigger] upper@[k]) == None::<i64>,
            forall|k: int| total <= k < total + v2 ==> (#[trigger] objective@[k]) == 0,
        decreases 3 * MATERIAL_COUNT - v2,
    {
        lower.push(0);
        upper.push(None);
        objective.push(0);
        v2 = v2 + 1;
    }

    // Constraints, in the fixed order of `is_batch_ip`.
    let mut constraints: Vec<LinConstraint> = Vec::new();

    // Per-category order caps.
    let mut i: usize = 0;
    while i < cats.len()
        invariant
            i <= cats@.len(),
            constraints@.len() == i,
            forall|c: int, k: int|
                0 <= c < constraints@.len() && 0 <= k < constraints@[c].terms@.len() ==> (
                #[trigger] constraints@[c].terms@[k]).var < num_vars && -65535
                    <= constraints@[c].terms@[k].coeff <= 65535,
            forall|a: Seq<i64>, c: int|
                0 <= c < i ==> ((#[trigger] constraint_holds(constraints@[c], a)) <==> items_sum(
                    a,
                    cat_offset(cseq, c),
                    cseq[c].spec_size(),
                ) <= MAX_ORDER_U16 as int),
        decreases cats@.len() - i,
    {
        let sz = cats[i].size();
        let off = offs[i];
        proof {
            lemma_cat_offset_mono(cseq, i as int + 1, l);
        }
        let terms = unit_terms_vec(off, sz as usize);
        let ghost tseq = terms@;
        let con = LinConstraint { terms, op: ConstraintOp::Le, rhs: MAX_ORDER_U16 as i64 };
        let ghost c0 = constraints@;
        constraints.push(con);
        proof {
            assert forall|a: Seq<i64>| #[trigger]
                constraint_holds(constraints@[i as int], a) <==> items_sum(
                    a,
                    cat_offset(cseq, i as int),
                    cseq[i as int].spec_size(),
                ) <= MAX_ORDER_U16 as int by {
                lemma_unit_lin(tseq, a, off as int);
            }
        }
        i = i + 1;
    }

    // Total item count: at least one, at most the truck capacity.
    let t2 = unit_terms_vec(0, total);
    let ghost t2s = t2@;
    constraints.push(LinConstraint { terms: t2, op: ConstraintOp::Ge, rhs: 1 });
    proof {
        assert forall|a: Seq<i64>| #[trigger] constraint_holds(constraints@[l], a) <==> items_sum(
            a,
            0,
            t,
        ) >= 1 by {
            lemma_unit_lin(t2s, a, 0);
        }
    }
    let t3 = unit_terms_vec(0, total);
    let ghost t3s = t3@;
    constraints.push(LinConstraint { terms: t3, op: ConstraintOp::Le, rhs: TRUCK_SIZE_U16 as i64 });
    proof {
        assert forall|a: Seq<i64>| #[trigger] constraint_holds(constraints@[l + 1], a)
            <==> items_sum(a, 0, t) <= TRUCK_SIZE_U16 as int by {
            lemma_unit_lin(t3s, a, 0);
        }
    }

    // Per material: slot bracketing and exact crate packing.
    let mut m: usize = 0;
    while m < MATERIAL_COUNT
        invariant
            m <= MATERIAL_COUNT,
            constraints@.len() == l + 2 + 3 * m,
            forall|c: int, k: int|
                0 <= c < constraints@.len() && 0 <= k < constraints@[c].terms@.len() ==> (
                #[trigger] constraints@[c].terms@[k]).var < num_vars && -65535
                    <= constraints@[c].terms@[k].coeff <= 65535,
            forall|a: Seq<i64>, c: int|
                0 <= c < l ==> ((#[trigger] constraint_holds(constraints@[c], a)) <==> items_sum(
                    a,
                    cat_offset(cseq, c),
                    cseq[c].spec_size(),
                ) <= MAX_ORDER_U16 as int),
            forall|a: Seq<i64>|
                (#[trigger] constraint_holds(constraints@[l], a)) <==> items_sum(a, 0, t) >= 1,
            forall|a: Seq<i64>|
                (#[trigger] constraint_holds(constraints@[l + 1], a)) <==> items_sum(a, 0, t)
                    <= TRUCK_SIZE_U16 as int,
            forall|a: Seq<i64>, mm: int|
                0 <= mm < m ==> ((#[trigger] constraint_holds(constraints@[l + 2 + 3 * mm], a))
                    <==> 100 * a[t + 3 * mm + 2] >= cost_lin(cseq, a, l, mm)),
            forall|a: Seq<i64>, mm: int|
                0 <= mm < m ==> ((#[trigger] constraint_holds(constraints@[l + 2 + 3 * mm + 1], a))
                    <==> 100 * a[t + 3 * mm + 2] <= cost_lin(cseq, a, l, mm) + 99),
            forall|a: Seq<i64>, mm: int|
                0 <= mm < m ==> ((#[trigger] constraint_holds(constraints@[l + 2 + 3 * mm + 2], a))
                    <==> crate_of(mm) * a[t + 3 * mm + 1] == cost_lin(cseq, a, l, mm)),
        decreases MATERIAL_COUNT - m,
    {
        let slot_var = total + 3 * m + 2;
        let crate_var = total + 3 * m + 1;
        let cv = crate::cost_metric::crate_value_at(m);

        let mut ta = cost_terms_vec(cats, &offs, m);
        let ghost ta0 = ta@;
        let slot_term = LinTerm { var: slot_var, coeff: 100 };
        ta.push(slot_term);
        let ghost tas = ta@;
        constraints.push(LinConstraint { terms: ta, op: ConstraintOp::Ge, rhs: 0 });
        proof {
            assert forall|a: Seq<i64>| #[trigger]
                constraint_holds(constraints@[l + 2 + 3 * (m as int)], a) <==> 100 * a[t + 3 * (
            m as int) + 2] >= cost_lin(cseq, a, l, m as int) by {
                lemma_lin_push(ta0, slot_term, a);
            }
        }

        let mut tb = cost_terms_vec(cats, &offs, m);
        let ghost tb0 = tb@;
        tb.push(slot_term);
        constraints.push(LinConstraint { terms: tb, op: ConstraintOp::Le, rhs: 99 });
        proof {
            assert forall|a: Seq<i64>| #[trigger]
                constraint_holds(constraints@[l + 2 + 3 * (m as int) + 1], a) <==> 100 * a[t + 3 * (
            m as int) + 2] <= cost_lin(cseq, a, l, m as int) + 99 by {
                lemma_lin_push(tb0, slot_term, a);
            }
        }

        let mut tc = cost_terms_vec(cats, &offs, m);
        let ghost tc0 = tc@;
        let crate_term = LinTerm { var: crate_var, coeff: cv as i64 };
        tc.push(crate_term);
        constraints.push(LinConstraint { terms: tc, op: ConstraintOp::Eq, rhs: 0 });
        proof {
            assert forall|a: Seq<i64>| #[trigger]
                constraint_holds(constraints@[l + 2 + 3 * (m as int) + 2], a) <==> crate_of(
                m as int,
            ) * a[t + 3 * (m as int) + 1] == cost_lin(cseq, a, l, m as int) by {
                lemma_lin_push(tc0, crate_term, a);
            }
        }
        m = m + 1;
    }

    // All slot variables together fill the truck exactly.
    let mut t5: Vec<LinTerm> = Vec::new();
    let mut m2: usize = 0;
    while m2 < MATERIAL_COUNT
        invariant
            m2 <= MATERIAL_COUNT,
            t5@.len() == m2,
            forall|k: int|
                0 <= k < m2 ==> (#[trigger] t5@[k]).var == total + 3 * k + 2 && t5@[k].coeff == 1,
            forall|a: Seq<i64>| #[trigger] lin_value(t5@, a) == slots_sum(a, t, m2 as int),
        decreases MATERIAL_COUNT - m2,
    {
        let tm = LinTerm { var: total + 3 * m2 + 2, coeff: 1 };
        let ghost t50 = t5@;
        t5.push(tm);
        proof {
            assert forall|a: Seq<i64>| #[trigger] lin_value(t5@, a) == slots_sum(a, t, m2 as int + 1) by {
                lemma_lin_push(t50, tm, a);
                assert(total as int == t);
                assert(tm.var as int == t + 3 * (m2 as int) + 2);
                assert(lin_value(t5@, a) == lin_value(t50, a) + 1 * a[t + 3 * (m2 as int) + 2]);
                assert(slots_sum(a, t, m2 as int + 1) == slots_sum(a, t, m2 as int) + a[t + 3 * (
                m2 as int) + 2]);
            }
        }
        m2 = m2 + 1;
    }
    let ghost t5s = t5@;
    constraints.push(LinConstraint { terms: t5, op: ConstraintOp::Eq, rhs: TRUCK_SIZE_U16 as i64 });
    proof {
        assert forall|a: Seq<i64>| #[trigger]
            constraint_holds(constraints@[l + 2 + 3 * MATERIAL_COUNT], a) <==> slots_sum(
                a,
                t,
                MATERIAL_COUNT as int,
            ) == TRUCK_SIZE_U16 as int by {
        }
    }

    let r = IntegerProgram { num_vars, lower, upper, objective, constraints };
    proof {
        assert(ip_wf(r));
        assert(is_batch_ip(r, cseq));
    }
    r
}

/// Evaluate a sum of linear terms in a wide accumulator.
#[verifier::loop_isolation(false)]
fn lin_eval(terms: &Vec<LinTerm>, a: &Vec<i64>) -> (r: i128)
    requires
        forall|k: int|
            0 <= k < terms@.len() ==> (#[trigger] terms@[k]).var < a@.len() && -65535
                <= terms@[k].coeff <= 65535,
        forall|v: int| 0 <= v < a@.len() ==> -SOLUTION_BOUND <= #[trigger] a@[v] <= SOLUTION_BOUND,
    ensures
        r == lin_value(terms@, a@),
{
    let mut acc: i128 = 0;
    let mut k: usize = 0;
    proof {
        assert(terms@.subrange(0, 0) =~= Seq::<LinTerm>::empty());
    }
    while k < terms.len()
        invariant
            k <= terms@.len(),
            acc == lin_value(terms@.subrange(0, k as int), a@),
            -(k as int) * 65535000000000 <= acc <= (k as int) * 65535000000000,
        decreases terms@.len() - k,
    {
        let tm = &terms[k];
        proof {
            lemma_lin_take_succ(terms@, a@, k as int);
            assert(-65535000000000 <= (terms@[k as int].coeff as int) * a@[terms@[k as int].var as int]
                <= 65535000000000) by (nonlinear_arith)
                requires
                    -65535 <= terms@[k as int].coeff <= 65535,
                    -SOLUTION_BOUND <= a@[terms@[k as int].var as int] <= SOLUTION_BOUND,
            ;
        }
        acc = acc + (tm.coeff as i128) * (a[tm.var] as i128);
        k = k + 1;
    }
    proof {
        assert(terms@.subrange(0, terms@.len() as int) =~= terms@);
    }
    acc
}

/// Check a proposed assignment against the program: the right number of
/// values, all within the accepted magnitude, within every variable's
/// bounds, and satisfying every constraint.
#[verifier::loop_isolation(false)]
pub fn check_solution(ip: &IntegerProgram, a: &Vec<i64>) -> (r: bool)
    requires
        ip_wf(*ip),
    ensures
        r == (solution_bounded(a@) && ip_feasible(*ip, a@)),
{
    if a.len() != ip.num_vars {
        return false;
    }
    let mut v: usize = 0;
    while v < a.len()
        invariant
            v <= a@.len(),
            a@.len() == ip.num_vars,
            forall|k: int| 0 <= k < v ==> -SOLUTION_BOUND <= #[trigger] a@[k] <= SOLUTION_BOUND,
            forall|k: int| 0 <= k < v ==> ip.lower@[k] <= #[trigger] a@[k],
            forall|k: int|
                0 <= k < v ==> match ip.upper@[k] {
                    Some(u) => #[trigger] a@[k] <= u,
                    None => true,
                },
        decreases a@.len() - v,
    {
        let x = a[v];
        if x < -SOLUTION_BOUND || x > SOLUTION_BOUND {
            return false;
        }
        if x < ip.lower[v] {
            return false;
        }
        match ip.upper[v] {
            Some(u) => {
                if x > u {
                    return false;
                }
            },
            None => {},
        }
        v = v + 1;
    }
    let mut c: usize = 0;
    while c < ip.constraints.len()
        invariant
            c <= ip.constraints@.len(),
            a@.len() == ip.num_vars,
            solution_bounded(a@),
            forall|k: int| 0 <= k < ip.num_vars ==> ip.lower@[k] <= #[trigger] a@[k],
            forall|k: int|
                0 <= k < ip.num_vars ==> match ip.upper@[k] {
                    Some(u) => #[trigger] a@[k] <= u,
                    None => true,
                },
            forall|k: int|
                0 <= k < c ==> constraint_holds(#[trigger] ip.constraints@[k], a@),
        decreases ip.constraints@.len() - c,
    {
        let con = &ip.constraints[c];
        let val = lin_eval(&con.terms, a);
        let ok = match con.op {
            ConstraintOp::Le => val <= con.rhs as i128,
            ConstraintOp::Ge => val >= con.rhs as i128,
            ConstraintOp::Eq => val == con.rhs as i128,
        };
        if !ok {
            assert(!constraint_holds(ip.constraints@[c as int], a@));
            return false;
        }
        c = c + 1;
    }
    true
}

/// Why no batch came out of the solver's answer.
#[derive(Debug, PartialEq, Eq, Structural, Clone, Copy)]
pub enum SolveError {
    /// The solver reported that no feasible assignment exists.
    NoFeasibleBatch,
    /// The solver returned an assignment that does not satisfy the program.
    InvalidSolution,
}

/// Turn a solver outcome into a batch: no answer is reported as infeasible;
/// an answer is accepted only if it actually satisfies the program, and its
/// item variables are then regrouped into one order vector per category.
#[verifier::loop_isolation(false)]
pub fn interpret_solution(
    ip: &IntegerProgram,
    cats: &Vec<ItemSetCategoryWrapper>,
    outcome: Option<Vec<i64>>,
) -> (r: Result<Vec<Vec<u16>>, SolveError>)
    requires
        ip_wf(*ip),
        is_batch_ip(*ip, cats@),
        cats@.len() <= CATEGORY_COUNT,
    ensures
        outcome is None ==> r == Err::<Vec<Vec<u16>>, SolveError>(SolveError::NoFeasibleBatch),
        (outcome matches Some(a) && !(solution_bounded(a@) && ip_feasible(*ip, a@))) ==> r
            == Err::<Vec<Vec<u16>>, SolveError>(SolveError::InvalidSolution),
        (outcome matches Some(a) && solution_bounded(a@) && ip_feasible(*ip, a@)) ==> (r matches Ok(b)
            && b@.len() == cats@.len() && (forall|i: int|
            0 <= i < cats@.len() ==> (#[trigger] b@[i])@.len() == cats@[i].spec_size()) && (forall|
            i: int,
            j: int,
        |
            0 <= i < cats@.len() && 0 <= j < cats@[i].spec_size() ==> (#[trigger] b@[i]@[j]) as int
                == outcome.unwrap()@[cat_offset(cats@, i) + j])),
{
    let a = match outcome {
        None => {
            return Err(SolveError::NoFeasibleBatch);
        },
        Some(a) => a,
    };
    if !check_solution(ip, &a) {
        return Err(SolveError::InvalidSolution);
    }
    let offs = offset_table(cats);
    let mut b: Vec<Vec<u16>> = Vec::new();
    let mut i: usize = 0;
    while i < cats.len()
        invariant
            i <= cats@.len(),
            b@.len() == i,
            a@.len() == ip.num_vars,
            solution_bounded(a@),
            ip_feasible(*ip, a@),
            offs@.len() == cats@.len() + 1,
            forall|k: int| 0 <= k <= cats@.len() ==> (#[trigger] offs@[k]) == cat_offset(cats@, k),
            forall|k: int| 0 <= k <= cats@.len() ==> (#[trigger] offs@[k]) <= k * 255,
            forall|k: int| 0 <= k < i ==> (#[trigger] b@[k])@.len() == cats@[k].spec_size(),
            forall|k: int, j: int|
                0 <= k < i && 0 <= j < cats@[k].spec_size() ==> (#[trigger] b@[k]@[j]) as int == a@[
                    cat_offset(cats@, k) + j],
        decreases cats@.len() - i,
    {
        let sz = cats[i].size();
        let off = offs[i];
        proof {
            lemma_cat_offset_mono(cats@, i as int + 1, cats@.len() as int);
        }
        let mut row: Vec<u16> = Vec::new();
        let mut j: usize = 0;
        while j < sz as usize
            invariant
                j <= sz as usize,
                sz as int == cats@[i as int].spec_size(),
                i < cats@.len(),
                off == cat_offset(cats@, i as int),
                off + sz as usize <= total_item_vars(cats@),
                a@.len() == ip.num_vars,
                ip_feasible(*ip, a@),
                row@.len() == j,
                forall|k: int|
                    0 <= k < j ==> (#[trigger] row@[k]) as int == a@[cat_offset(cats@, i as int) + k],
            decreases sz as usize - j,
        {
            proof {
                assert(ip.lower@[off + j] == 0);
                assert(ip.upper@[off + j] == Some(MAX_ORDER_U16 as i64));
                assert(0 <= a@[off + j as int] <= MAX_ORDER_U16 as i64);
            }
            row.push(a[off + j] as u16);
            j = j + 1;
        }
        b.push(row);
        i = i + 1;
    }
    Ok(b)
}

/// The cost vector an assignment induces: material by material, what the
/// selected item counts consume.
pub open spec fn ip_cost_vector(cats: Seq<ItemSetCategoryWrapper>, a: Seq<i64>) -> Seq<int> {
    Seq::new(MATERIAL_COUNT as nat, |m: int| cost_lin(cats, a, cats.len() as int, m))
}

/// Item costs of one category are never negative under non-negative counts.
proof fn lemma_cat_cost_lin_nonneg(mx: Seq<u16>, a: Seq<i64>, lo: int, k: int, m: int)
    requires
        forall|v: int| lo <= v < lo + k ==> #[trigger] a[v] >= 0,
    ensures
        cat_cost_lin(mx, a, lo, k, m) >= 0,
    decreases k,
{
    if k > 0 {
        lemma_cat_cost_lin_nonneg(mx, a, lo, k - 1, m);
        assert((mx[(k - 1) * (MATERIAL_COUNT as int) + m] as int) * a[lo + k - 1] >= 0)
            by (nonlinear_arith)
            requires
                mx[(k - 1) * (MATERIAL_COUNT as int) + m] as int >= 0,
                a[lo + k - 1] >= 0,
        ;
    }
}

/// The whole cost is never negative under non-negative counts.
proof fn lemma_cost_lin_nonneg(cats: Seq<ItemSetCategoryWrapper>, a: Seq<i64>, i: int, m: int)
    requires
        forall|v: int| 0 <= v < total_item_vars(cats) ==> #[trigger] a[v] >= 0,
        0 <= i <= cats.len(),
    ensures
        cost_lin(cats, a, i, m) >= 0,
    decreases i,
{
    if i > 0 {
        lemma_cost_lin_nonneg(cats, a, i - 1, m);
        lemma_cat_offset_mono(cats, 0, i - 1);
        lemma_cat_offset_mono(cats, i, cats.len() as int);
        assert(cat_offset(cats, i - 1) + cats[i - 1].spec_size() == cat_offset(cats, i));
        lemma_cat_cost_lin_nonneg(
            cats[i - 1].spec_cost_matrix(),
            a,
            cat_offset(cats, i - 1),
            cats[i - 1].spec_size(),
            m,
        );
    }
}

/// The slot prefix sums of the induced cost vector equal the slot-variable
/// sums, once each slot variable is known to be the exact ceiling.
proof fn lemma_slots_agree(
    cats: Seq<ItemSetCategoryWrapper>,
    a: Seq<i64>,
    t: int,
    k: int,
)
    requires
        0 <= k <= MATERIAL_COUNT,
        forall|m: int|
            0 <= m < MATERIAL_COUNT ==> a[t + 3 * m + 2] == crate::cost_metric::div_ceil_by(
                #[trigger] ip_cost_vector(cats, a)[m],
                100,
            ),
    ensures
        crate::cost_metric::slot_sum_prefix(ip_cost_vector(cats, a), k) == slots_sum(a, t, k),
    decreases k,
{
    if k > 0 {
        lemma_slots_agree(cats, a, t, k - 1);
        assert(crate::material::stack_of(k - 1) == 100);
    }
}

/// Law: every feasible assignment of the batch program induces a cost
/// vector that is perfectly crateable at exactly the truck capacity, with
/// every category inside the order cap and a total item count between one
/// and the capacity. The integer program and the search's fused metric
/// describe the same batches.
pub proof fn lemma_batch_ip_feasibility(
    ip: IntegerProgram,
    cats: Seq<ItemSetCategoryWrapper>,
    a: Seq<i64>,
)
    requires
        is_batch_ip(ip, cats),
        ip_feasible(ip, a),
    ensures
        forall|i: int|
            0 <= i < cats.len() ==> 0 <= #[trigger] items_sum(a, cat_offset(cats, i), cats[i].spec_size())
                <= MAX_ORDER_U16 as int,
        1 <= items_sum(a, 0, total_item_vars(cats)) <= TRUCK_SIZE_U16 as int,
        crate::cost_metric::spec_check_metric(
            crate::cost_metric::CostMetric::PerfectlyCrateable(TRUCK_SIZE_U16),
            ip_cost_vector(cats, a),
        ),
{
    let t = total_item_vars(cats);
    let l = cats.len() as int;
    let cv = ip_cost_vector(cats, a);

    // All item variables are non-negative.
    assert forall|v: int| 0 <= v < t implies #[trigger] a[v] >= 0 by {
        assert(ip.lower@[v] == 0);
        assert(ip.lower@[v] <= a[v]);
    }

    // Per-category caps and the global count, from the first constraints.
    assert forall|i: int|
        0 <= i < cats.len() implies 0 <= #[trigger] items_sum(
        a,
        cat_offset(cats, i),
        cats[i].spec_size(),
    ) <= MAX_ORDER_U16 as int by {
        assert(constraint_holds(ip.constraints@[i], a));
        lemma_cat_offset_mono(cats, 0, i);
        lemma_cat_offset_mono(cats, i + 1, l);
        assert(cat_offset(cats, i) + cats[i].spec_size() == cat_offset(cats, i + 1));
        lemma_items_sum_nonneg(a, cat_offset(cats, i), cats[i].spec_size(), t);
    }
    assert(constraint_holds(ip.constraints@[l], a));
    assert(constraint_holds(ip.constraints@[l + 1], a));

    // Each slot variable is exactly the ceiling of its material's cost.
    assert forall|m: int|
        0 <= m < MATERIAL_COUNT implies a[t + 3 * m + 2] == crate::cost_metric::div_ceil_by(
        #[trigger] cv[m],
        100,
    ) by {
        assert(constraint_holds(ip.constraints@[l + 2 + 3 * m], a));
        assert(constraint_holds(ip.constraints@[l + 2 + 3 * m + 1], a));
        let c = cost_lin(cats, a, l, m);
        let s = a[t + 3 * m + 2];
        assert(100 * s >= c);
        assert(100 * s <= c + 99);
        lemma_cost_lin_nonneg(cats, a, l, m);
        let q = crate::cost_metric::div_ceil_by(c, 100);
        vstd::arithmetic::div_mod::lemma_fundamental_div_mod(c, 100);
        vstd::arithmetic::div_mod::lemma_mod_bound(c, 100);
        vstd::arithmetic::div_mod::lemma_div_pos_is_pos(c, 100);
        if c % 100 == 0 {
            assert(100 * q == c);
        } else {
            assert(100 * q == c + (100 - c % 100));
        }
        assert(100 * q - 99 <= c <= 100 * q);
        assert(s == q) by {
            assert(100 * (s - q) <= 99 && 100 * (q - s) <= 99) by (nonlinear_arith)
                requires
                    100 * s >= c,
                    100 * s <= c + 99,
                    100 * q - 99 <= c <= 100 * q,
            ;
        }
    }

    // Crate packing is exact for every material.
    assert forall|m: int| 0 <= m < MATERIAL_COUNT implies #[trigger] cv[m] % crate_of(m) == 0 by {
        assert(constraint_holds(ip.constraints@[l + 2 + 3 * m + 2], a));
        let c = cost_lin(cats, a, l, m);
        let k = a[t + 3 * m + 1] as int;
        assert(crate_of(m) * k == c);
        assert(crate_of(m) >= 1);
        vstd::arithmetic::div_mod::lemma_mod_multiples_basic(k, crate_of(m));
    }

    // The slot variables sum to the full capacity, so the cost vector's
    // slot count is exactly the truck size.
    assert(constraint_holds(ip.constraints@[l + 2 + 3 * MATERIAL_COUNT], a));
    lemma_slots_agree(cats, a, t, MATERIAL_COUNT as int);
    assert(crate::cost_metric::spec_slot_count(cv) == slots_sum(a, t, MATERIAL_COUNT as int));
    assert(crate::cost_metric::spec_crateable(cv));
}

/// Item sums over in-range blocks are non-negative for a feasible
/// assignment's item variables.
proof fn lemma_items_sum_nonneg(a: Seq<i64>, lo: int, k: int, t: int)
    requires
        forall|v: int| 0 <= v < t ==> #[trigger] a[v] >= 0,
        0 <= lo,
        lo + k <= t,
    ensures
        items_sum(a, lo, k) >= 0,
    decreases k,
{
    if k > 0 {
        lemma_items_sum_nonneg(a, lo, k - 1, t);
    }
}

/// Sums agree on assignments that agree on the summed range.
proof fn lemma_items_sum_frame(a: Seq<i64>, b: Seq<i64>, lo: int, k: int)
    requires
        forall|j: int| lo <= j < lo + k ==> a[j] == b[j],
    ensures
        items_sum(a, lo, k) == items_sum(b, lo, k),
    decreases k,
{
    if k > 0 {
        lemma_items_sum_frame(a, b, lo, k - 1);
    }
}

/// Category costs agree on assignments that agree on the category's block.
proof fn lemma_cat_cost_lin_frame(mx: Seq<u16>, a: Seq<i64>, b: Seq<i64>, lo: int, k: int, m: int)
    requires
        forall|j: int| lo <= j < lo + k ==> a[j] == b[j],
    ensures
        cat_cost_lin(mx, a, lo, k, m) == cat_cost_lin(mx, b, lo, k, m),
    decreases k,
{
    if k > 0 {
        lemma_cat_cost_lin_frame(mx, a, b, lo, k - 1, m);
    }
}

/// Costs agree on assignments that agree on all item variables.
proof fn lemma_cost_lin_frame(cats: Seq<ItemSetCategoryWrapper>, a: Seq<i64>, b: Seq<i64>, i: int, m: int)
    requires
        forall|j: int| 0 <= j < total_item_vars(cats) ==> a[j] == b[j],
        0 <= i <= cats.len(),
    ensures
        cost_lin(cats, a, i, m) == cost_lin(cats, b, i, m),
    decreases i,
{
    if i > 0 {
        lemma_cost_lin_frame(cats, a, b, i - 1, m);
        lemma_cat_offset_mono(cats, 0, i - 1);
        lemma_cat_offset_mono(cats, i, cats.len() as int);
        assert(cat_offset(cats, i - 1) + cats[i - 1].spec_size() == cat_offset(cats, i));
        lemma_cat_cost_lin_frame(
            cats[i - 1].spec_cost_matrix(),
            a,
            b,
            cat_offset(cats, i - 1),
            cats[i - 1].spec_size(),
            m,
        );
    }
}

/// No category of either item set has more than 25 items.
proof fn lemma_wrapper_size_bound(c: ItemSetCategoryWrapper)
    ensures
        0 <= c.spec_size() <= 25,
{
}

/// Offsets are bounded by 25 variables per category.
proof fn lemma_cat_offset_bound(cats: Seq<ItemSetCategoryWrapper>, i: int)
    requires
        0 <= i <= cats.len(),
    ensures
        cat_offset(cats, i) <= i * 25,
    decreases i,
{
    if i > 0 {
        lemma_cat_offset_bound(cats, i - 1);
        lemma_wrapper_size_bound(cats[i - 1]);
    }
}

/// A category's cost is bounded when every count is within the order cap.
proof fn lemma_cat_cost_lin_upper(mx: Seq<u16>, a: Seq<i64>, lo: int, k: int, m: int)
    requires
        0 <= k,
        forall|j: int| lo <= j < lo + k ==> 0 <= #[trigger] a[j] <= MAX_ORDER_U16 as i64,
    ensures
        0 <= cat_cost_lin(mx, a, lo, k, m) <= k * 262140,
    decreases k,
{
    if k > 0 {
        lemma_cat_cost_lin_upper(mx, a, lo, k - 1, m);
        assert(0 <= (mx[(k - 1) * (MATERIAL_COUNT as int) + m] as int) * a[lo + k - 1] <= 262140)
            by (nonlinear_arith)
            requires
                0 <= mx[(k - 1) * (MATERIAL_COUNT as int) + m] as int <= 65535,
                0 <= a[lo + k - 1] <= 4,
        ;
    }
}

/// The whole cost is bounded when every count is within the order cap.
proof fn lemma_cost_lin_upper(cats: Seq<ItemSetCategoryWrapper>, a: Seq<i64>, i: int, m: int)
    requires
        forall|j: int| 0 <= j < total_item_vars(cats) ==> 0 <= #[trigger] a[j] <= MAX_ORDER_U16 as i64,
        0 <= i <= cats.len(),
    ensures
        0 <= cost_lin(cats, a, i, m) <= cat_offset(cats, i) * 262140,
    decreases i,
{
    if i > 0 {
        lemma_cost_lin_upper(cats, a, i - 1, m);
        lemma_cat_offset_mono(cats, 0, i - 1);
        lemma_cat_offset_mono(cats, i, cats.len() as int);
        lemma_wrapper_size_bound(cats[i - 1]);
        assert(cat_offset(cats, i - 1) + cats[i - 1].spec_size() == cat_offset(cats, i));
        lemma_cat_cost_lin_upper(
            cats[i - 1].spec_cost_matrix(),
            a,
            cat_offset(cats, i - 1),
            cats[i - 1].spec_size(),
            m,
        );
        assert((cat_offset(cats, i - 1) + cats[i - 1].spec_size()) * 262140 == cat_offset(
            cats,
            i - 1,
        ) * 262140 + cats[i - 1].spec_size() * 262140) by (nonlinear_arith);
    }
}

/// The ceiling of a non-negative cost lies within one stack of it.
proof fn lemma_div_ceil_bracket(c: int)
    requires
        c >= 0,
    ensures
        crate::cost_metric::div_ceil_by(c, 100) >= 0,
        100 * crate::cost_metric::div_ceil_by(c, 100) - 99 <= c <= 100 * crate::cost_metric::div_ceil_by(c, 100),
{
    vstd::arithmetic::div_mod::lemma_fundamental_div_mod(c, 100);
    vstd::arithmetic::div_mod::lemma_mod_bound(c, 100);
    vstd::arithmetic::div_mod::lemma_div_pos_is_pos(c, 100);
}

/// Law, converse direction: a batch whose item counts respect the order
/// caps, whose total count is between one and the truck capacity, and whose
/// cost vector is perfectly crateable at exactly the truck capacity can
/// always be extended with stack, crate and slot values into a feasible
/// assignment of the batch program. Together with the forward law, the
/// program's feasible assignments are exactly those batches.
pub proof fn lemma_batch_ip_encoding_complete(
    ip: IntegerProgram,
    cats: Seq<ItemSetCategoryWrapper>,
    x: Seq<i64>,
)
    requires
        is_batch_ip(ip, cats),
        cats.len() <= CATEGORY_COUNT,
        x.len() == total_item_vars(cats),
        forall|v: int| 0 <= v < x.len() ==> 0 <= #[trigger] x[v] <= MAX_ORDER_U16 as i64,
        forall|i: int|
            0 <= i < cats.len() ==> #[trigger] items_sum(x, cat_offset(cats, i), cats[i].spec_size())
                <= MAX_ORDER_U16 as int,
        1 <= items_sum(x, 0, total_item_vars(cats)) <= TRUCK_SIZE_U16 as int,
        crate::cost_metric::spec_check_metric(
            crate::cost_metric::CostMetric::PerfectlyCrateable(TRUCK_SIZE_U16),
            ip_cost_vector(cats, x),
        ),
    ensures
        exists|a: Seq<i64>|
            #[trigger] ip_feasible(ip, a) && a.subrange(0, total_item_vars(cats) as int) == x,
{
    let t = total_item_vars(cats);
    let l = cats.len() as int;
    let cvx = ip_cost_vector(cats, x);

    // Costs are small enough for machine words.
    assert forall|m: int| 0 <= m < MATERIAL_COUNT implies 0 <= #[trigger] cvx[m] <= 45874500 by {
        lemma_cost_lin_upper(cats, x, l, m);
        lemma_cat_offset_bound(cats, l);
        assert(cat_offset(cats, l) * 262140 <= 175 * 262140) by (nonlinear_arith)
            requires
                0 <= cat_offset(cats, l) <= 175,
        ;
    }

    // The auxiliary block: stack zero, exact crate count, ceiling slots.
    let aux = Seq::new(
        (3 * MATERIAL_COUNT) as nat,
        |k: int|
            {
                let m = k / 3;
                if k % 3 == 2 {
                    crate::cost_metric::div_ceil_by(cvx[m], 100) as i64
                } else if k % 3 == 1 {
                    (cvx[m] / crate_of(m)) as i64
                } else {
                    0i64
                }
            },
    );
    let a = x + aux;
    assert(a.len() == ip.num_vars);
    assert(a.subrange(0, t as int) =~= x);
    assert forall|j: int| 0 <= j < t implies a[j] == x[j] by {}

    // Frame: the costs of `a` are the costs of `x`.
    assert forall|m: int| 0 <= m < MATERIAL_COUNT implies #[trigger] ip_cost_vector(cats, a)[m]
        == cvx[m] by {
        lemma_cost_lin_frame(cats, a, x, l, m);
    }

    // Each auxiliary value, by name.
    assert forall|m: int| 0 <= m < MATERIAL_COUNT implies a[t + 3 * m] == 0 && a[t + 3 * m + 1]
        == cvx[m] / crate_of(m) && #[trigger] a[t + 3 * m + 2] == crate::cost_metric::div_ceil_by(
        cvx[m],
        100,
    ) by {
        assert(aux[3 * m] == 0);
        assert(aux[3 * m + 1] == (cvx[m] / crate_of(m)) as i64);
        assert(aux[3 * m + 2] == crate::cost_metric::div_ceil_by(cvx[m], 100) as i64);
        lemma_div_ceil_bracket(cvx[m]);
        assert(crate::cost_metric::div_ceil_by(cvx[m], 100) <= cvx[m]);
        assert(crate_of(m) >= 1);
        vstd::arithmetic::div_mod::lemma_div_pos_is_pos(cvx[m], crate_of(m));
        vstd::arithmetic::div_mod::lemma_div_basics_5(cvx[m], crate_of(m));
    }

    // Bounds hold for every variable.
    assert forall|v: int| 0 <= v < ip.num_vars implies ip.lower@[v] <= #[trigger] a[v] by {
        if v >= t {
            let m = (v - t) / 3;
            assert(t + 3 * m <= v <= t + 3 * m + 2 && 0 <= m < MATERIAL_COUNT) by (nonlinear_arith)
                requires
                    t <= v < t + 3 * MATERIAL_COUNT,
                    m == (v - t) / 3,
            ;
        }
    }
    assert forall|v: int|
        0 <= v < ip.num_vars implies match ip.upper@[v] {
        Some(u) => #[trigger] a[v] <= u,
        None => true,
    } by {}

    // Every constraint holds.
    assert forall|c: int|
        0 <= c < ip.constraints@.len() implies constraint_holds(#[trigger] ip.constraints@[c], a) by {
        if c < l {
            lemma_cat_offset_mono(cats, 0, c);
            lemma_cat_offset_mono(cats, c + 1, l);
            assert(cat_offset(cats, c) + cats[c].spec_size() == cat_offset(cats, c + 1));
            lemma_items_sum_frame(a, x, cat_offset(cats, c), cats[c].spec_size());
            assert(items_sum(a, cat_offset(cats, c), cats[c].spec_size()) <= MAX_ORDER_U16 as int);
        } else if c == l || c == l + 1 {
            lemma_items_sum_frame(a, x, 0, t);
            assert(1 <= items_sum(a, 0, t) <= TRUCK_SIZE_U16 as int);
        } else if c < l + 2 + 3 * MATERIAL_COUNT {
            let m = (c - l - 2) / 3;
            let role = (c - l - 2) % 3;
            assert(0 <= m < MATERIAL_COUNT && c == l + 2 + 3 * m + role && 0 <= role < 3)
                by (nonlinear_arith)
                requires
                    l + 2 <= c < l + 2 + 3 * MATERIAL_COUNT,
                    m == (c - l - 2) / 3,
                    role == (c - l - 2) % 3,
            ;
            lemma_div_ceil_bracket(cvx[m]);
            assert(ip_cost_vector(cats, a)[m] == cost_lin(cats, a, l, m));
            assert(cost_lin(cats, a, l, m) == cvx[m]);
            assert(a[t + 3 * m + 2] == crate::cost_metric::div_ceil_by(cvx[m], 100));
            if role == 0 {
                assert(100 * a[t + 3 * m + 2] >= cost_lin(cats, a, l, m));
            } else if role == 1 {
                assert(100 * a[t + 3 * m + 2] <= cost_lin(cats, a, l, m) + 99);
            } else {
                // Exact crate packing: divisibility makes the quotient exact.
                assert(cvx[m] % crate_of(m) == 0);
                vstd::arithmetic::div_mod::lemma_fundamental_div_mod(cvx[m], crate_of(m));
                assert(crate_of(m) * a[t + 3 * m + 1] == cost_lin(cats, a, l, m));
            }
        } else {
            // The slot variables sum to the cost vector's slot count.
            assert forall|m: int|
                0 <= m < MATERIAL_COUNT implies a[t + 3 * m + 2]
                    == crate::cost_metric::div_ceil_by(
                    #[trigger] ip_cost_vector(cats, a)[m],
                    100,
                ) by {}
            lemma_slots_agree(cats, a, t, MATERIAL_COUNT as int);
            assert(crate::cost_metric::spec_slot_count(ip_cost_vector(cats, a))
                == crate::cost_metric::spec_slot_count(cvx)) by {
                assert(ip_cost_vector(cats, a) =~= cvx);
            }
            assert(slots_sum(a, t, MATERIAL_COUNT as int) == TRUCK_SIZE_U16 as int);
        }
    }
    assert(ip_feasible(ip, a));
}

} // verus!
