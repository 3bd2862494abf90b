//! Combinatorial search over supply orders: per-category enumeration of
//! admissible order vectors, cost-metric predicates, depth-first batch and
//! prime-group assembly under a truck-capacity limit, and an integer-program
//! formulation of the same optimisation problem.

use vstd::prelude::*;

pub mod cost_metric;
pub mod helper;
pub mod ip;
pub mod item_set;
pub mod material;
pub mod material_grouped_warden_category;
pub mod optimality_metric;
pub mod options;
pub mod prime;
pub mod queue;
pub mod search;
pub mod warden_category;

verus! {

/// Number of categories in each item-set configuration.
pub const CATEGORY_COUNT: usize = 7;

/// Number of distinct materials a cost vector ranges over.
pub const MATERIAL_COUNT: usize = 4;

/// Total slot capacity of one truck.
pub const TRUCK_SIZE_U16: u16 = 15;

/// Cap on the per-item order count and on a category's total order count.
pub const MAX_ORDER_U16: u16 = 4;

} // verus!
