use warden_batches::cost_metric::CostMetric;
use warden_batches::helper::batch_cost;
use warden_batches::item_set::{default_order_range, ItemSetCategoryWrapper, ItemSetOption};
use warden_batches::material_grouped_warden_category::MaterialGroupedWardenCategories;
use warden_batches::prime::{find_all_prime_groups_with_metric, find_prime_n_groups_with_metric};
use warden_batches::queue::QueueCandidate;
use warden_batches::search::{
    find_all_batches_with_metric, find_n_batches_with_metric, generate_category_queues,
};
use warden_batches::warden_category::WardenCategory;

fn resources_cat() -> ItemSetCategoryWrapper {
    ItemSetCategoryWrapper::MaterialGroupedWarden(MaterialGroupedWardenCategories::Resources)
}

fn resources_queues() -> Vec<QueueCandidate> {
    resources_cat().generate_valid_queue_vec(&default_order_range())
}

#[test]
fn single_category_batches_are_the_candidates() {
    // With a target length of one category and `Affordable` as the metric,
    // the batch search returns exactly the category's own queue candidates.
    let cands = resources_queues();
    let base = vec![resources_queues()];
    let out = find_n_batches_with_metric(&base, 1, &CostMetric::Affordable);
    assert_eq!(out.len(), cands.len());
    for (k, r) in out.iter().enumerate() {
        assert_eq!(r.batch.len(), 1);
        assert_eq!(r.batch[0], cands[k].queue);
        assert_eq!(r.cost, cands[k].cost);
        assert_eq!(r.item_count, cands[k].item_count);
    }
}

#[test]
fn two_category_batches_prune_by_affordability() {
    // Two single-item categories, each costing 250 basic materials per
    // unit: a pair (x, y) is affordable exactly when x + y <= 6.
    let base = vec![resources_queues(), resources_queues()];
    let out = find_n_batches_with_metric(&base, 2, &CostMetric::Affordable);
    assert_eq!(out.len(), 22);
    for r in out.iter() {
        let total = r.batch[0][0] + r.batch[1][0];
        assert!(total <= 6);
        assert_eq!(r.cost[0], 250 * total);
        assert_eq!(r.item_count, total);
        assert!(r.item_count <= 15);
    }
}

#[test]
fn two_category_batches_with_exact_slot_count() {
    // Exactly fifteen slots needs 1500 basic materials: x + y == 6.
    let base = vec![resources_queues(), resources_queues()];
    let out = find_n_batches_with_metric(&base, 2, &CostMetric::NValid(15));
    let mut pairs: Vec<(u16, u16)> = out.iter().map(|r| (r.batch[0][0], r.batch[1][0])).collect();
    pairs.sort();
    assert_eq!(pairs, vec![(2, 4), (3, 3), (4, 2)]);
}

#[test]
fn batches_longer_than_the_category_order_are_empty() {
    let base = vec![resources_queues()];
    let out = find_n_batches_with_metric(&base, 3, &CostMetric::Affordable);
    assert_eq!(out.len(), 0);
}

#[test]
fn empty_configuration_yields_no_batches() {
    let base: Vec<Vec<QueueCandidate>> = Vec::new();
    let out = find_n_batches_with_metric(&base, 1, &CostMetric::Affordable);
    assert_eq!(out.len(), 0);
    let out2 = find_all_batches_with_metric(&base, &CostMetric::Affordable);
    assert_eq!(out2.len(), 0);
}

#[test]
fn full_warden_search_respects_capacity() {
    // The whole material-grouped item set with a restricted order range,
    // under the stackable metric: every emitted batch fits the truck.
    let order = ItemSetOption::MaterialGroupedWarden.item_set_category_order();
    let base = generate_category_queues(&order, &vec![0, 4]);
    let out = find_all_batches_with_metric(&base, &CostMetric::PerfectlyStackable(15));
    for r in out.iter() {
        assert!(r.item_count <= 15);
        assert_eq!(r.batch.len(), 7);
        let agg = batch_cost(&r.batch, &order);
        for j in 0..4 {
            assert_eq!(agg[j], u32::from(r.cost[j]));
        }
    }
}

#[test]
fn prime_groups_emit_on_first_qualifying_prefix() {
    // With `Affordable` every explored branch qualifies at once, so the
    // prime-group search emits exactly the non-trivial candidates of the
    // first category, as one-category groups.
    let base = vec![resources_queues(), resources_queues()];
    let out = find_prime_n_groups_with_metric(&base, 2, &CostMetric::Affordable);
    assert_eq!(out.len(), 4);
    for r in out.iter() {
        assert_eq!(r.batch.len(), 1);
        assert!(r.batch[0][0] >= 1);
        assert_eq!(r.group_count, 1);
    }
}

#[test]
fn prime_groups_search_deeper_until_metric_holds() {
    // Under an exact slot count of fifteen, a single pick never qualifies,
    // so qualifying pairs (x, y) with x + y == 6 are emitted as two-group
    // batches.
    let base = vec![resources_queues(), resources_queues()];
    let out = find_prime_n_groups_with_metric(&base, 2, &CostMetric::NValid(15));
    let mut pairs: Vec<(u16, u16)> = out.iter().map(|r| (r.batch[0][0], r.batch[1][0])).collect();
    pairs.sort();
    assert_eq!(pairs, vec![(2, 4), (3, 3), (4, 2)]);
    for r in out.iter() {
        assert_eq!(r.group_count, 2);
        assert!(r.item_count <= 15);
    }
}

#[test]
fn prime_group_bound_stops_branches() {
    // With a group bound of one, a branch stops as soon as one category
    // contributes, so an unreachable metric emits nothing.
    let base = vec![resources_queues(), resources_queues()];
    let out = find_prime_n_groups_with_metric(&base, 1, &CostMetric::NValid(15));
    assert_eq!(out.len(), 0);
    let all = find_all_prime_groups_with_metric(&base, &CostMetric::NValid(15));
    assert_eq!(all.len(), 3);
}

#[test]
fn batch_cost_recomputes_aggregate_cost() {
    let cats = vec![
        ItemSetCategoryWrapper::Warden(WardenCategory::Resources),
        resources_cat(),
    ];
    // Two maintenance supplies from each set: 4 x 250 basic materials.
    let batch = vec![vec![2], vec![2]];
    let cost = batch_cost(&batch, &cats);
    assert_eq!(cost, vec![1000, 0, 0, 0]);
}

#[test]
fn prime_groups_cover_affordable_batches() {
    // Every full batch the batch search emits under `Affordable` whose
    // first category is non-trivial has a prefix among the prime-group
    // results with the same metric and the full group bound.
    let base = vec![resources_queues(), resources_queues()];
    let batches = find_n_batches_with_metric(&base, 2, &CostMetric::Affordable);
    let primes = find_all_prime_groups_with_metric(&base, &CostMetric::Affordable);
    for b in batches.iter().filter(|b| b.batch[0][0] != 0) {
        let covered = primes.iter().any(|p| {
            p.batch.len() <= b.batch.len()
                && p.batch.iter().zip(b.batch.iter()).all(|(x, y)| x == y)
        });
        assert!(covered);
    }
    // A batch whose first category is all-zero has no prime prefix: the
    // search discards branches that start trivially.
    for p in primes.iter() {
        assert!(p.batch[0][0] != 0);
    }
}
