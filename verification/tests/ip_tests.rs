use warden_batches::ip::{check_solution, formulate_batch_ip, interpret_solution, SolveError};
use warden_batches::item_set::ItemSetCategoryWrapper;
use warden_batches::material_grouped_warden_category::MaterialGroupedWardenCategories;
use warden_batches::warden_category::WardenCategory;

fn two_resources() -> Vec<ItemSetCategoryWrapper> {
    vec![
        ItemSetCategoryWrapper::Warden(WardenCategory::Resources),
        ItemSetCategoryWrapper::MaterialGroupedWarden(MaterialGroupedWardenCategories::Resources),
    ]
}

// Variable layout for two single-item categories: item variables 0 and 1,
// then stack, crate and slot variables for each of the four materials.
fn assignment(x0: i64, x1: i64, crate0: i64, slot0: i64) -> Vec<i64> {
    let mut a = vec![0i64; 14];
    a[0] = x0;
    a[1] = x1;
    a[3] = crate0;
    a[4] = slot0;
    a
}

#[test]
fn formulation_shape() {
    let cats = two_resources();
    let ip = formulate_batch_ip(&cats);
    assert_eq!(ip.num_vars, 14);
    assert_eq!(ip.lower.len(), 14);
    assert_eq!(ip.upper.len(), 14);
    assert_eq!(ip.objective.len(), 14);
    // Per-category caps, two count bounds, three constraints per material,
    // and the full-capacity slot constraint.
    assert_eq!(ip.constraints.len(), 2 + 2 + 12 + 1);
    assert_eq!(ip.objective[0], 1);
    assert_eq!(ip.objective[1], 1);
    assert_eq!(ip.objective[2], 0);
    assert_eq!(ip.lower[0], 0);
    assert_eq!(ip.upper[0], Some(4));
    assert_eq!(ip.upper[2], None);
}

#[test]
fn feasible_assignment_is_accepted() {
    // Both categories cost 250 basic materials per unit. Six units cost
    // 1500: fifteen crates of one hundred, fifteen slots, exactly one
    // truck.
    let cats = two_resources();
    let ip = formulate_batch_ip(&cats);
    let a = assignment(2, 4, 15, 15);
    assert!(check_solution(&ip, &a));
    let b = interpret_solution(&ip, &cats, Some(a)).unwrap();
    assert_eq!(b, vec![vec![2], vec![4]]);
}

#[test]
fn capacity_must_be_filled_exactly() {
    // Four units cost 1000: ten slots, short of the full truck.
    let cats = two_resources();
    let ip = formulate_batch_ip(&cats);
    let a = assignment(2, 2, 10, 10);
    assert!(!check_solution(&ip, &a));
}

#[test]
fn slot_variable_must_bracket_the_cost() {
    let cats = two_resources();
    let ip = formulate_batch_ip(&cats);
    assert!(!check_solution(&ip, &assignment(2, 4, 15, 14)));
    assert!(!check_solution(&ip, &assignment(2, 4, 15, 16)));
}

#[test]
fn crate_packing_must_be_exact() {
    // Five units cost 1250, which no whole number of hundred-crates packs.
    let cats = two_resources();
    let ip = formulate_batch_ip(&cats);
    for crate0 in 0..=20 {
        assert!(!check_solution(&ip, &assignment(2, 3, crate0, 13)));
    }
}

#[test]
fn order_cap_binds_each_category() {
    let cats = two_resources();
    let ip = formulate_batch_ip(&cats);
    assert!(!check_solution(&ip, &assignment(5, 1, 15, 15)));
}

#[test]
fn solver_failure_is_no_feasible_batch() {
    let cats = two_resources();
    let ip = formulate_batch_ip(&cats);
    assert_eq!(interpret_solution(&ip, &cats, None), Err(SolveError::NoFeasibleBatch));
}

#[test]
fn bad_solver_answers_are_rejected() {
    let cats = two_resources();
    let ip = formulate_batch_ip(&cats);
    assert_eq!(
        interpret_solution(&ip, &cats, Some(assignment(2, 2, 10, 10))),
        Err(SolveError::InvalidSolution)
    );
    assert_eq!(
        interpret_solution(&ip, &cats, Some(vec![1, 2, 3])),
        Err(SolveError::InvalidSolution)
    );
}

#[test]
fn unique_feasible_assignment_is_returned_exactly() {
    // Force the order range down to one item by blacking the second
    // category's variable at zero: with x1 == 0, only x0 == 4 has an even
    // chance, but 4 units cost 1000 and fill ten slots, never fifteen, so
    // nothing is feasible; with both free, (2, 4), (3, 3) and (4, 2) are
    // the only item choices, and each determines its auxiliary variables
    // uniquely.
    let cats = two_resources();
    let ip = formulate_batch_ip(&cats);
    for x0 in 0..=4i64 {
        for x1 in 0..=4i64 {
            let total = x0 + x1;
            let feasible = total == 6;
            // The auxiliary values are forced by the items.
            let cost = 250 * total;
            let crate0 = cost / 100;
            let slot0 = (cost + 99) / 100;
            let ok = check_solution(&ip, &assignment(x0, x1, crate0, slot0));
            assert_eq!(ok, feasible && cost % 100 == 0);
        }
    }
}
