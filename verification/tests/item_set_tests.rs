use warden_batches::item_set::{default_order_range, ItemSetCategoryWrapper, ItemSetOption};
use warden_batches::MATERIAL_COUNT;

fn item_order_length_test(option: ItemSetOption) {
    for category in option.item_set_category_order().iter() {
        assert_eq!(usize::from(category.size()), category.item_order().len());
    }
}

#[test]
fn warden_item_set_item_order_length_test() {
    item_order_length_test(ItemSetOption::Warden);
}

#[test]
fn material_grouped_warden_item_set_item_order_length_test() {
    item_order_length_test(ItemSetOption::MaterialGroupedWarden);
}

fn cost_matrix_dimension_test(option: ItemSetOption) {
    for category in option.item_set_category_order().iter() {
        let cost_matrix = category.cost_matrix();
        assert_eq!(usize::from(category.size()) * MATERIAL_COUNT, cost_matrix.len());
    }
}

#[test]
fn warden_item_set_cost_matrix_dimension_test() {
    cost_matrix_dimension_test(ItemSetOption::Warden);
}

#[test]
fn material_grouped_warden_item_set_cost_matrix_dimension_test() {
    cost_matrix_dimension_test(ItemSetOption::MaterialGroupedWarden);
}

#[test]
fn category_order_has_all_categories() {
    assert_eq!(ItemSetOption::Warden.item_set_category_order().len(), 7);
    assert_eq!(ItemSetOption::MaterialGroupedWarden.item_set_category_order().len(), 7);
}

#[test]
fn largest_category_sizes() {
    assert_eq!(ItemSetOption::Warden.largest_category_size(), 25);
    assert_eq!(ItemSetOption::MaterialGroupedWarden.largest_category_size(), 18);
}

#[test]
fn category_labels() {
    let w = ItemSetOption::Warden.item_set_category_order();
    let m = ItemSetOption::MaterialGroupedWarden.item_set_category_order();
    assert_eq!(w[0].to_string(), "Warden");
    assert_eq!(m[0].to_string(), "MaterialGroupedWarden");
}

#[test]
fn category_num_finds_first_of_item_set() {
    let order = ItemSetOption::Warden.item_set_category_order();
    for c in order.iter() {
        assert_eq!(c.category_num(&order), 0);
    }
}

#[test]
fn default_order_range_is_zero_to_cap() {
    let r = default_order_range();
    assert_eq!(r, vec![0, 1, 2, 3, 4]);
}

#[test]
fn generated_candidates_have_declared_shape() {
    // Every order vector the generator returns has the category's size,
    // its stored cost recomputes from the cost matrix, its item count is
    // the order sum, and it passed the affordability and capacity filter.
    let range = default_order_range();
    for option in [ItemSetOption::Warden, ItemSetOption::MaterialGroupedWarden] {
        for category in option.item_set_category_order().iter() {
            let m = category.cost_matrix();
            for cand in category.generate_valid_queue_vec(&range).iter() {
                assert_eq!(cand.queue.len(), usize::from(category.size()));
                let mut count: u16 = 0;
                let mut cost = [0u32; MATERIAL_COUNT];
                for (i, q) in cand.queue.iter().enumerate() {
                    count += q;
                    for j in 0..MATERIAL_COUNT {
                        cost[j] += u32::from(*q) * u32::from(m[i * MATERIAL_COUNT + j]);
                    }
                }
                assert_eq!(cand.item_count, count);
                assert!(count <= 15);
                let mut slots: u32 = 0;
                for j in 0..MATERIAL_COUNT {
                    assert_eq!(u32::from(cand.cost[j]), cost[j]);
                    slots += cost[j].div_ceil(100);
                }
                assert!(slots <= 15);
            }
        }
    }
}

#[test]
fn generator_enumerates_single_item_category() {
    // The material-grouped Resources category has one item costing
    // 250 basic materials per unit.
    let cat = ItemSetCategoryWrapper::MaterialGroupedWarden(
        warden_batches::material_grouped_warden_category::MaterialGroupedWardenCategories::Resources,
    );
    let cands = cat.generate_valid_queue_vec(&default_order_range());
    assert_eq!(cands.len(), 5);
    for (k, cand) in cands.iter().enumerate() {
        let k16 = k as u16;
        assert_eq!(cand.queue, vec![k16]);
        assert_eq!(cand.cost, vec![250 * k16, 0, 0, 0]);
        assert_eq!(cand.item_count, k16);
    }
}

#[test]
fn generator_keeps_enumeration_order() {
    // A two-item category enumerates breadth-first: all vectors starting
    // with 0 first, in increasing second order, and so on.
    let cat = ItemSetCategoryWrapper::MaterialGroupedWarden(
        warden_batches::material_grouped_warden_category::MaterialGroupedWardenCategories::Medical,
    );
    let cands = cat.generate_valid_queue_vec(&default_order_range());
    assert_eq!(cands.len(), 15);
    assert_eq!(cands[0].queue, vec![0, 0]);
    assert_eq!(cands[1].queue, vec![0, 1]);
    assert_eq!(cands[4].queue, vec![0, 4]);
    assert_eq!(cands[5].queue, vec![1, 0]);
    assert_eq!(cands[14].queue, vec![4, 0]);
}

#[test]
fn generator_takes_order_range_as_given() {
    // A non-contiguous order range restricts the admissible counts; the
    // generator must not assume the range is contiguous.
    let cat = ItemSetCategoryWrapper::MaterialGroupedWarden(
        warden_batches::material_grouped_warden_category::MaterialGroupedWardenCategories::Resources,
    );
    let cands = cat.generate_valid_queue_vec(&vec![0, 3]);
    assert_eq!(cands.len(), 2);
    assert_eq!(cands[0].queue, vec![0]);
    assert_eq!(cands[1].queue, vec![3]);
}

#[test]
fn generator_with_impossible_range_is_empty() {
    // With only the count three allowed, no two-item vector fits under the
    // per-category cap of four.
    let cat = ItemSetCategoryWrapper::MaterialGroupedWarden(
        warden_batches::material_grouped_warden_category::MaterialGroupedWardenCategories::Medical,
    );
    let cands = cat.generate_valid_queue_vec(&vec![3]);
    assert_eq!(cands.len(), 0);
}
