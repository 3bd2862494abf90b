//! Item-set configurations: the selector between the two category tables,
//! and the wrapper that gives every category of either table one interface.

use vstd::prelude::*;

use crate::material_grouped_warden_category::MaterialGroupedWardenCategories;
use crate::queue::{candidate_list_complete, candidate_list_wf, generate_valid_queues, QueueCandidate};
use crate::warden_category::WardenCategory;
use crate::{CATEGORY_COUNT, MATERIAL_COUNT, MAX_ORDER_U16};

verus! {

/// Which item-set configuration a run works on.
#[derive(Debug, PartialEq, Eq, Structural, Hash, Clone, Copy)]
pub enum ItemSetOption {
    Warden,
    MaterialGroupedWarden,
}

/// One category of whichever item set is active.
#[derive(Debug, PartialEq, Eq, Structural, Hash, Clone, Copy)]
pub enum ItemSetCategoryWrapper {
    Warden(WardenCategory),
    MaterialGroupedWarden(MaterialGroupedWardenCategories),
}

impl ItemSetCategoryWrapper {
    /// Number of distinct items in this category.
    pub open spec fn spec_size(self) -> int {
        match self {
            ItemSetCategoryWrapper::Warden(c) => c.spec_size(),
            ItemSetCategoryWrapper::MaterialGroupedWarden(c) => c.spec_size(),
        }
    }

    /// The category's row-major cost matrix.
    pub open spec fn spec_cost_matrix(self) -> Seq<u16> {
        match self {
            ItemSetCategoryWrapper::Warden(c) => c.spec_cost_matrix(),
            ItemSetCategoryWrapper::MaterialGroupedWarden(c) => c.spec_cost_matrix(),
        }
    }

    /// The name of the item set this category belongs to.
    pub open spec fn spec_label(self) -> Seq<char> {
        match self {
            ItemSetCategoryWrapper::Warden(_) => "Warden"@,
            ItemSetCategoryWrapper::MaterialGroupedWarden(_) => "MaterialGroupedWarden"@,
        }
    }

    /// Two wrapped categories belong to the same item set.
    pub open spec fn same_item_set(self, other: ItemSetCategoryWrapper) -> bool {
        match (self, other) {
            (ItemSetCategoryWrapper::Warden(_), ItemSetCategoryWrapper::Warden(_)) => true,
            (
                ItemSetCategoryWrapper::MaterialGroupedWarden(_),
                ItemSetCategoryWrapper::MaterialGroupedWarden(_),
            ) => true,
            _ => false,
        }
    }

    pub fn size(&self) -> (r: u8)
        ensures
            r as int == self.spec_size(),
    {
        match self {
            ItemSetCategoryWrapper::Warden(c) => c.size(),
            ItemSetCategoryWrapper::MaterialGroupedWarden(c) => c.size(),
        }
    }

    pub fn cost_matrix(&self) -> (r: Vec<u16>)
        ensures
            r@ == self.spec_cost_matrix(),
            r@.len() == self.spec_size() * MATERIAL_COUNT,
    {
        match self {
            ItemSetCategoryWrapper::Warden(c) => c.cost_matrix(),
            ItemSetCategoryWrapper::MaterialGroupedWarden(c) => c.cost_matrix(),
        }
    }

    /// Display names of the category's items, grouped per item row.
    pub fn item_order(&self) -> (r: Vec<Vec<String>>)
        ensures
            r@.len() == self.spec_size(),
    {
        match self {
            ItemSetCategoryWrapper::Warden(c) => c.item_order(),
            ItemSetCategoryWrapper::MaterialGroupedWarden(c) => c.item_order(),
        }
    }

    /// Name of the item set this category reads its data from.
    pub fn to_string(&self) -> (r: String)
        ensures
            r@ == self.spec_label(),
    {
        match self {
            ItemSetCategoryWrapper::Warden(_) => "Warden".to_owned(),
            ItemSetCategoryWrapper::MaterialGroupedWarden(_) => "MaterialGroupedWarden".to_owned(),
        }
    }

    /// All admissible order vectors of this category, each with its cost
    /// vector and item count, keeping exactly those whose cost vector is
    /// affordable and whose item count fits the truck.
    pub fn generate_valid_queue_vec(&self, order_range: &Vec<u16>) -> (r: Vec<QueueCandidate>)
        ensures
            candidate_list_wf(self.spec_size(), self.spec_cost_matrix(), order_range@, r@),
            candidate_list_complete(self.spec_size(), self.spec_cost_matrix(), order_range@, r@),
    {
        let size = self.size();
        let m = self.cost_matrix();
        generate_valid_queues(size as usize, &m, order_range)
    }

    /// Position of the first category of the same item set in the given
    /// category order.
    pub fn category_num(&self, order: &Vec<ItemSetCategoryWrapper>) -> (r: usize)
        requires
            exists|i: int| 0 <= i < order@.len() && (#[trigger] order@[i]).same_item_set(*self),
        ensures
            r < order@.len(),
            order@[r as int].same_item_set(*self),
            forall|i: int| 0 <= i < r ==> !(#[trigger] order@[i]).same_item_set(*self),
    {
        let mut i: usize = 0;
        while i < order.len()
            invariant
                i <= order@.len(),
                exists|k: int| 0 <= k < order@.len() && (#[trigger] order@[k]).same_item_set(*self),
                forall|k: int| 0 <= k < i ==> !(#[trigger] order@[k]).same_item_set(*self),
            decreases order@.len() - i,
        {
            let same = match (&order[i], self) {
                (ItemSetCategoryWrapper::Warden(_), ItemSetCategoryWrapper::Warden(_)) => true,
                (
                    ItemSetCategoryWrapper::MaterialGroupedWarden(_),
                    ItemSetCategoryWrapper::MaterialGroupedWarden(_),
                ) => true,
                _ => false,
            };
            assert(same == order@[i as int].same_item_set(*self));
            if same {
                return i;
            }
            i = i + 1;
        }
        proof {
            assert(false);
        }
        0
    }
}

impl ItemSetOption {
    /// The fixed order in which this item set's categories are searched.
    pub open spec fn spec_category_order(self) -> Seq<ItemSetCategoryWrapper> {
        match self {
            ItemSetOption::Warden => seq![
                ItemSetCategoryWrapper::Warden(WardenCategory::SmallArms),
                ItemSetCategoryWrapper::Warden(WardenCategory::HeavyArms),
                ItemSetCategoryWrapper::Warden(WardenCategory::HeavyAmmunition),
                ItemSetCategoryWrapper::Warden(WardenCategory::Utility),
                ItemSetCategoryWrapper::Warden(WardenCategory::Medical),
                ItemSetCategoryWrapper::Warden(WardenCategory::Resources),
                ItemSetCategoryWrapper::Warden(WardenCategory::Uniforms),
            ],
            ItemSetOption::MaterialGroupedWarden => seq![
                ItemSetCategoryWrapper::MaterialGroupedWarden(MaterialGroupedWardenCategories::SmallArms),
                ItemSetCategoryWrapper::MaterialGroupedWarden(MaterialGroupedWardenCategories::HeavyArms),
                ItemSetCategoryWrapper::MaterialGroupedWarden(
                    MaterialGroupedWardenCategories::HeavyAmmunition,
                ),
                ItemSetCategoryWrapper::MaterialGroupedWarden(MaterialGroupedWardenCategories::Utility),
                ItemSetCategoryWrapper::MaterialGroupedWarden(MaterialGroupedWardenCategories::Medical),
                ItemSetCategoryWrapper::MaterialGroupedWarden(MaterialGroupedWardenCategories::Resources),
                ItemSetCategoryWrapper::MaterialGroupedWarden(MaterialGroupedWardenCategories::Uniforms),
            ],
        }
    }

    pub fn item_set_category_order(&self) -> (r: Vec<ItemSetCategoryWrapper>)
        ensures
            r@ == self.spec_category_order(),
            r@.len() == CATEGORY_COUNT,
    {
        let r = match self {
            ItemSetOption::Warden => vec![
                ItemSetCategoryWrapper::Warden(WardenCategory::SmallArms),
                ItemSetCategoryWrapper::Warden(WardenCategory::HeavyArms),
                ItemSetCategoryWrapper::Warden(WardenCategory::HeavyAmmunition),
                ItemSetCategoryWrapper::Warden(WardenCategory::Utility),
                ItemSetCategoryWrapper::Warden(WardenCategory::Medical),
                ItemSetCategoryWrapper::Warden(WardenCategory::Resources),
                ItemSetCategoryWrapper::Warden(WardenCategory::Uniforms),
            ],
            ItemSetOption::MaterialGroupedWarden => vec![
                ItemSetCategoryWrapper::MaterialGroupedWarden(MaterialGroupedWardenCategories::SmallArms),
                ItemSetCategoryWrapper::MaterialGroupedWarden(MaterialGroupedWardenCategories::HeavyArms),
                ItemSetCategoryWrapper::MaterialGroupedWarden(
                    MaterialGroupedWardenCategories::HeavyAmmunition,
                ),
                ItemSetCategoryWrapper::MaterialGroupedWarden(MaterialGroupedWardenCategories::Utility),
                ItemSetCategoryWrapper::MaterialGroupedWarden(MaterialGroupedWardenCategories::Medical),
                ItemSetCategoryWrapper::MaterialGroupedWarden(MaterialGroupedWardenCategories::Resources),
                ItemSetCategoryWrapper::MaterialGroupedWarden(MaterialGroupedWardenCategories::Uniforms),
            ],
        };
        proof {
            assert(r@ =~= self.spec_category_order());
        }
        r
    }

    /// The largest category size of this item set.
    pub fn largest_category_size(&self) -> (r: u8)
        ensures
            forall|i: int|
                0 <= i < self.spec_category_order().len() ==> (
                #[trigger] self.spec_category_order()[i]).spec_size() <= r as int,
            exists|i: int|
                0 <= i < self.spec_category_order().len() && (
                #[trigger] self.spec_category_order()[i]).spec_size() == r as int,
    {
        let order = self.item_set_category_order();
        let mut best: u8 = order[0].size();
        let ghost ord = self.spec_category_order();
        proof {
            assert(ord[0].spec_size() == best as int);
        }
        let mut i: usize = 1;
        while i < order.len()
            invariant
                1 <= i <= order@.len(),
                order@ == ord,
                forall|k: int| 0 <= k < i ==> (#[trigger] ord[k]).spec_size() <= best as int,
                exists|k: int| 0 <= k < i && (#[trigger] ord[k]).spec_size() == best as int,
            decreases order@.len() - i,
        {
            let s = order[i].size();
            if s > best {
                best = s;
            }
            i = i + 1;
        }
        best
    }
}

/// The default order range: every count from zero up to the per-item cap.
pub fn default_order_range() -> (r: Vec<u16>)
    ensures
        r@.len() == MAX_ORDER_U16 + 1,
        forall|i: int| 0 <= i < r@.len() ==> r@[i] == i,
{
    let r = vec![0u16, 1, 2, 3, 4];
    assert(forall|i: int| 0 <= i < r@.len() ==> r@[i] == i);
    r
}

} // verus!
