//! Run configuration: the command-line options and the optional restriction
//! configuration, with its validity rules.

use vstd::prelude::*;

use crate::item_set::{ItemSetCategoryWrapper, ItemSetOption};
use crate::queue::{lemma_queue_sum_take_le, lemma_queue_sum_take_succ, queue_sum};
use crate::MAX_ORDER_U16;

verus! {

/// The command-line options a run is started with.
pub struct Cli {
    pub output: bool,
    pub path: Option<String>,
    pub output_batch_long: bool,
    pub json_option_path: Option<String>,
    pub item_set: ItemSetOption,
}

/// One restriction: a whole category, a set of per-item order ranges, or one
/// specific order vector, each naming the category it applies to.
pub enum OptionChoice {
    Category(usize),
    ItemOrders((usize, Vec<(usize, Vec<u16>)>)),
    Queue((usize, Vec<u16>)),
}

impl OptionChoice {
    /// The category this restriction applies to.
    pub open spec fn spec_category(self) -> int {
        match self {
            OptionChoice::Category(c) => c as int,
            OptionChoice::ItemOrders((c, _)) => c as int,
            OptionChoice::Queue((c, _)) => c as int,
        }
    }

    pub open spec fn is_category(self) -> bool {
        self matches OptionChoice::Category(_)
    }

    pub open spec fn is_item_orders(self) -> bool {
        self matches OptionChoice::ItemOrders(_)
    }

    pub open spec fn is_queue(self) -> bool {
        self matches OptionChoice::Queue(_)
    }

    /// Two restrictions are of the same variant.
    pub open spec fn same_kind(self, other: OptionChoice) -> bool {
        ||| self.is_category() && other.is_category()
        ||| self.is_item_orders() && other.is_item_orders()
        ||| self.is_queue() && other.is_queue()
    }

    /// A restriction is valid for a category order when its category index
    /// is in range and its contents respect that category's size and the
    /// per-item order cap.
    pub open spec fn spec_valid(self, cats: Seq<ItemSetCategoryWrapper>) -> bool {
        match self {
            OptionChoice::Category(c) => (c as int) < cats.len(),
            OptionChoice::ItemOrders((c, items)) => {
                &&& (c as int) < cats.len()
                &&& forall|i: int|
                    0 <= i < items@.len() ==> ((#[trigger] items@[i]).0 as int) < cats[c as int].spec_size()
                &&& forall|i: int, r: int|
                    0 <= i < items@.len() && 0 <= r < items@[i].1@.len() ==> (#[trigger] items@[i].1@[r])
                        <= MAX_ORDER_U16
            },
            OptionChoice::Queue((c, q)) => {
                &&& (c as int) < cats.len()
                &&& q@.len() == cats[c as int].spec_size()
                &&& queue_sum(q@) <= MAX_ORDER_U16 as int
                &&& forall|i: int| 0 <= i < q@.len() ==> (#[trigger] q@[i]) <= MAX_ORDER_U16
            },
        }
    }

    /// The category this restriction applies to.
    pub fn category(&self) -> (r: usize)
        ensures
            r as int == self.spec_category(),
    {
        match self {
            OptionChoice::Category(c) => *c,
            OptionChoice::ItemOrders((c, _)) => *c,
            OptionChoice::Queue((c, _)) => *c,
        }
    }

    /// Check this restriction against a category order. A violation does
    /// not abort anything: it simply makes the restriction invalid.
    #[verifier::loop_isolation(false)]
    pub fn check_valid(&self, cats: &Vec<ItemSetCategoryWrapper>) -> (r: bool)
        ensures
            r == self.spec_valid(cats@),
    {
        match self {
            OptionChoice::Category(c) => *c < cats.len(),
            OptionChoice::ItemOrders((c, items)) => {
                if *c >= cats.len() {
                    return false;
                }
                let size = cats[*c].size();
                let mut i: usize = 0;
                while i < items.len()
                    invariant
                        i <= items@.len(),
                        forall|k: int|
                            0 <= k < i ==> ((#[trigger] items@[k]).0 as int) < cats@[*c as int].spec_size(),
                        forall|k: int, r2: int|
                            0 <= k < i && 0 <= r2 < items@[k].1@.len() ==> (#[trigger] items@[k].1@[r2])
                                <= MAX_ORDER_U16,
                    decreases items@.len() - i,
                {
                    let item = items[i].0;
                    if item >= size as usize {
                        return false;
                    }
                    let range = &items[i].1;
                    let mut t: usize = 0;
                    while t < range.len()
                        invariant
                            t <= range@.len(),
                            range@ == items@[i as int].1@,
                            i < items@.len(),
                            forall|r2: int| 0 <= r2 < t ==> (#[trigger] range@[r2]) <= MAX_ORDER_U16,
                        decreases range@.len() - t,
                    {
                        if range[t] > MAX_ORDER_U16 {
                            return false;
                        }
                        t = t + 1;
                    }
                    i = i + 1;
                }
                true
            },
            OptionChoice::Queue((c, q)) => {
                if *c >= cats.len() {
                    return false;
                }
                let size = cats[*c].size();
                if q.len() != size as usize {
                    return false;
                }
                let mut acc: u16 = 0;
                let mut i: usize = 0;
                proof {
                    assert(q@.subrange(0, 0) =~= Seq::<u16>::empty());
                }
                while i < q.len()
                    invariant
                        i <= q@.len(),
                        acc == queue_sum(q@.subrange(0, i as int)),
                        acc <= MAX_ORDER_U16,
                        forall|k: int| 0 <= k < i ==> (#[trigger] q@[k]) <= MAX_ORDER_U16,
                    decreases q@.len() - i,
                {
                    let x = q[i];
                    if x > MAX_ORDER_U16 {
                        return false;
                    }
                    proof {
                        lemma_queue_sum_take_succ(q@, i as int);
                        lemma_queue_sum_take_le(q@, i as int + 1);
                    }
                    if acc + x > MAX_ORDER_U16 {
                        return false;
                    }
                    acc = acc + x;
                    i = i + 1;
                }
                proof {
                    assert(q@.subrange(0, q@.len() as int) =~= q@);
                }
                true
            },
        }
    }
}

/// Two blacklist restrictions clash when they are of the same variant, or
/// one of them blacks out a whole category, and they name the same category.
pub open spec fn blacklist_conflict(a: OptionChoice, b: OptionChoice) -> bool {
    (a.same_kind(b) || a.is_category() || b.is_category()) && a.spec_category() == b.spec_category()
}

/// The optional restriction configuration: a narrowed order range,
/// categories forced into every batch, and restrictions that exclude or
/// force specific orders.
pub struct JsonOptions {
    pub order_range: Option<Vec<u16>>,
    pub chosen_categories: Option<Vec<usize>>,
    pub blacklist: Option<Vec<OptionChoice>>,
    pub whitelist: Option<Vec<OptionChoice>>,
}

impl JsonOptions {
    /// The whole configuration is valid: order-range values are capped and
    /// unique; chosen categories are in range and unique; every blacklist
    /// entry is valid, no two clash, and a blacked-out category appears in
    /// no other entry; every whitelist entry is valid, none blacks out a
    /// whole category, and no two name the same category.
    pub open spec fn spec_valid(self, cats: Seq<ItemSetCategoryWrapper>) -> bool {
        &&& match self.order_range {
            Some(v) => {
                &&& forall|i: int| 0 <= i < v@.len() ==> (#[trigger] v@[i]) <= MAX_ORDER_U16
                &&& forall|i: int, j: int| 0 <= i < j < v@.len() ==> v@[i] != v@[j]
            },
            None => true,
        }
        &&& match self.chosen_categories {
            Some(v) => {
                &&& forall|i: int| 0 <= i < v@.len() ==> (#[trigger] v@[i] as int) < cats.len()
                &&& forall|i: int, j: int| 0 <= i < j < v@.len() ==> v@[i] != v@[j]
            },
            None => true,
        }
        &&& match self.blacklist {
            Some(v) => {
                &&& forall|i: int| 0 <= i < v@.len() ==> (#[trigger] v@[i]).spec_valid(cats)
                &&& forall|i: int, j: int|
                    0 <= i < j < v@.len() ==> !blacklist_conflict(v@[i], v@[j])
            },
            None => true,
        }
        &&& match self.whitelist {
            Some(v) => {
                &&& forall|i: int| 0 <= i < v@.len() ==> (#[trigger] v@[i]).spec_valid(cats)
                &&& forall|i: int| 0 <= i < v@.len() ==> !(#[trigger] v@[i]).is_category()
                &&& forall|i: int, j: int|
                    0 <= i < j < v@.len() ==> v@[i].spec_category() != v@[j].spec_category()
            },
            None => true,
        }
    }

    /// Check the whole configuration against a category order. Any
    /// violation makes the whole configuration invalid; the caller decides
    /// whether to abort the run.
    #[verifier::loop_isolation(false)]
    pub fn check_valid(&self, cats: &Vec<ItemSetCategoryWrapper>) -> (r: bool)
        ensures
            r == self.spec_valid(cats@),
    {
        if let Some(v) = &self.order_range {
            let mut i: usize = 0;
            while i < v.len()
                invariant
                    i <= v@.len(),
                    forall|k: int| 0 <= k < i ==> (#[trigger] v@[k]) <= MAX_ORDER_U16,
                    forall|k: int, j: int| 0 <= k < j < i ==> v@[k] != v@[j],
                decreases v@.len() - i,
            {
                if v[i] > MAX_ORDER_U16 {
                    return false;
                }
                let mut j: usize = 0;
                while j < i
                    invariant
                        j <= i < v@.len(),
                        forall|k: int| 0 <= k < j ==> v@[k] != v@[i as int],
                    decreases i - j,
                {
                    if v[j] == v[i] {
                        return false;
                    }
                    j = j + 1;
                }
                i = i + 1;
            }
        }

        if let Some(v) = &self.chosen_categories {
            let mut i: usize = 0;
            while i < v.len()
                invariant
                    i <= v@.len(),
                    forall|k: int| 0 <= k < i ==> (#[trigger] v@[k] as int) < cats@.len(),
                    forall|k: int, j: int| 0 <= k < j < i ==> v@[k] != v@[j],
                decreases v@.len() - i,
            {
                if v[i] >= cats.len() {
                    return false;
                }
                let mut j: usize = 0;
                while j < i
                    invariant
                        j <= i < v@.len(),
                        forall|k: int| 0 <= k < j ==> v@[k] != v@[i as int],
                    decreases i - j,
                {
                    if v[j] == v[i] {
                        return false;
                    }
                    j = j + 1;
                }
                i = i + 1;
            }
        }

        if let Some(v) = &self.blacklist {
            let mut i: usize = 0;
            while i < v.len()
                invariant
                    i <= v@.len(),
                    forall|k: int| 0 <= k < i ==> (#[trigger] v@[k]).spec_valid(cats@),
                    forall|k: int, j: int| 0 <= k < j < i ==> !blacklist_conflict(v@[k], v@[j]),
                decreases v@.len() - i,
            {
                if !v[i].check_valid(cats) {
                    return false;
                }
                let ci = v[i].category();
                let kind_cat_i = matches!(v[i], OptionChoice::Category(_));
                let kind_items_i = matches!(v[i], OptionChoice::ItemOrders(_));
                let mut j: usize = 0;
                while j < i
                    invariant
                        j <= i < v@.len(),
                        ci as int == v@[i as int].spec_category(),
                        kind_cat_i == v@[i as int].is_category(),
                        kind_items_i == v@[i as int].is_item_orders(),
                        forall|k: int| 0 <= k < j ==> !blacklist_conflict(v@[k], v@[i as int]),
                    decreases i - j,
                {
                    let cj = v[j].category();
                    let kind_cat_j = matches!(v[j], OptionChoice::Category(_));
                    let kind_items_j = matches!(v[j], OptionChoice::ItemOrders(_));
                    let same_kind = (kind_cat_i && kind_cat_j) || (kind_items_i && kind_items_j)
                        || (!kind_cat_i && !kind_items_i && !kind_cat_j && !kind_items_j);
                    if (same_kind || kind_cat_i || kind_cat_j) && ci == cj {
                        assert(blacklist_conflict(v@[j as int], v@[i as int]));
                        return false;
                    }
                    proof {
                        assert(!blacklist_conflict(v@[j as int], v@[i as int]));
                    }
                    j = j + 1;
                }
                i = i + 1;
            }
        }

        if let Some(v) = &self.whitelist {
            let mut i: usize = 0;
            while i < v.len()
                invariant
                    i <= v@.len(),
                    forall|k: int| 0 <= k < i ==> (#[trigger] v@[k]).spec_valid(cats@),
                    forall|k: int| 0 <= k < i ==> !(#[trigger] v@[k]).is_category(),
                    forall|k: int, j: int|
                        0 <= k < j < i ==> v@[k].spec_category() != v@[j].spec_category(),
                decreases v@.len() - i,
            {
                if !v[i].check_valid(cats) {
                    return false;
                }
                if matches!(v[i], OptionChoice::Category(_)) {
                    return false;
                }
                let ci = v[i].category();
                let mut j: usize = 0;
                while j < i
                    invariant
                        j <= i < v@.len(),
                        ci as int == v@[i as int].spec_category(),
                        forall|k: int| 0 <= k < j ==> v@[k].spec_category() != v@[i as int].spec_category(),
                    decreases i - j,
                {
                    if v[j].category() == ci {
                        return false;
                    }
                    j = j + 1;
                }
                i = i + 1;
            }
        }

        true
    }
}

} // verus!
