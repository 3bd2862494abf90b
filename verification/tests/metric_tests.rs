use warden_batches::cost_metric::{no_slots, CostMetric};
use warden_batches::material::{material_order, Material};
use warden_batches::optimality_metric::{OptimalityMetric, PerfectMetric};

#[test]
fn material_table_values() {
    let order = material_order();
    assert_eq!(
        order,
        vec![
            Material::BasicMaterial,
            Material::ExplosiveMaterial,
            Material::HeavyExplosiveMaterial,
            Material::RefinedMaterial,
        ]
    );
    for m in order.iter() {
        assert_eq!(m.stack_value(), 100);
    }
    assert_eq!(Material::BasicMaterial.crate_value(), 100);
    assert_eq!(Material::ExplosiveMaterial.crate_value(), 40);
    assert_eq!(Material::HeavyExplosiveMaterial.crate_value(), 30);
    assert_eq!(Material::RefinedMaterial.crate_value(), 20);
}

#[test]
fn no_slots_rounds_each_material_up() {
    assert_eq!(no_slots(&vec![0, 0, 0, 0]), 0);
    assert_eq!(no_slots(&vec![250, 0, 0, 25]), 4);
    assert_eq!(no_slots(&vec![100, 100, 100, 100]), 4);
    assert_eq!(no_slots(&vec![101, 0, 0, 0]), 2);
    assert_eq!(no_slots(&vec![1500, 0, 0, 0]), 15);
}

#[test]
fn affordable_is_slot_count_within_truck() {
    assert!(CostMetric::Affordable.check_metric(&vec![1500, 0, 0, 0]));
    assert!(!CostMetric::Affordable.check_metric(&vec![1501, 0, 0, 0]));
    assert!(CostMetric::Affordable.check_metric(&vec![500, 500, 400, 100]));
    assert!(!CostMetric::Affordable.check_metric(&vec![500, 500, 500, 100]));
}

#[test]
fn n_valid_is_exact_slot_count() {
    assert!(CostMetric::NValid(0).check_metric(&vec![0, 0, 0, 0]));
    assert!(CostMetric::NValid(4).check_metric(&vec![250, 0, 0, 25]));
    assert!(!CostMetric::NValid(3).check_metric(&vec![250, 0, 0, 25]));
}

#[test]
fn stackable_and_crateable_divisibility() {
    assert!(CostMetric::Stackable.check_metric(&vec![200, 100, 300, 0]));
    assert!(!CostMetric::Stackable.check_metric(&vec![200, 101, 300, 0]));
    // Crate values are 100, 40, 30, 20 in material order.
    assert!(CostMetric::Crateable.check_metric(&vec![200, 80, 90, 40]));
    assert!(!CostMetric::Crateable.check_metric(&vec![200, 80, 91, 40]));
}

#[test]
fn perfectly_stackable_agrees_with_parts() {
    // The fused check must agree with evaluating stackability and the
    // slot-count test independently, on a battery of vectors.
    let vectors: Vec<Vec<u16>> = vec![
        vec![0, 0, 0, 0],
        vec![200, 100, 300, 100],
        vec![200, 101, 300, 100],
        vec![1, 0, 0, 0],
        vec![1500, 100, 0, 0],
    ];
    for cv in vectors.iter() {
        for n in 0..=16u16 {
            let fused = CostMetric::PerfectlyStackable(n).check_metric(cv);
            let parts = CostMetric::Stackable.check_metric(cv)
                && CostMetric::NValid(n).check_metric(cv);
            assert_eq!(fused, parts);
        }
    }
    // All-zero is trivially stackable and occupies zero slots.
    assert!(CostMetric::PerfectlyStackable(0).check_metric(&vec![0, 0, 0, 0]));
    // An exact multiple of every stack value at its slot count.
    assert!(CostMetric::PerfectlyStackable(7).check_metric(&vec![200, 100, 300, 100]));
    // One material off by one unit must fail.
    assert!(!CostMetric::PerfectlyStackable(8).check_metric(&vec![200, 101, 300, 100]));
}

#[test]
fn perfectly_crateable_slots_use_stack_values() {
    // 80 explosive materials fill two crates of forty but only one stack
    // slot: the slot count must come from the stack value, not the crate
    // value.
    let cv = vec![200, 80, 0, 0];
    assert!(CostMetric::Crateable.check_metric(&cv));
    assert_eq!(no_slots(&cv), 3);
    assert!(CostMetric::PerfectlyCrateable(3).check_metric(&cv));
    assert!(!CostMetric::PerfectlyCrateable(4).check_metric(&cv));
    // 20 refined materials: one crate of twenty, one stack slot.
    let cv2 = vec![100, 0, 0, 20];
    assert!(CostMetric::PerfectlyCrateable(2).check_metric(&cv2));
    assert!(!CostMetric::PerfectlyCrateable(1).check_metric(&cv2));
}

#[test]
fn optimality_metric_matches_cost_metric() {
    let cv = vec![250, 40, 0, 25];
    assert_eq!(
        OptimalityMetric::Affordable.check_metric(&cv),
        CostMetric::Affordable.check_metric(&cv)
    );
    assert_eq!(
        OptimalityMetric::NValid(5).check_metric(&cv),
        CostMetric::NValid(5).check_metric(&cv)
    );
    assert_eq!(
        OptimalityMetric::Stackable.check_metric(&cv),
        CostMetric::Stackable.check_metric(&cv)
    );
    assert_eq!(
        OptimalityMetric::Crateable.check_metric(&cv),
        CostMetric::Crateable.check_metric(&cv)
    );
}

#[test]
fn perfect_metric_composes_plain_checks() {
    let cv = vec![200, 80, 0, 0];
    assert_eq!(
        PerfectMetric::PerfectlyCrateable(3).check_metric(&cv),
        CostMetric::PerfectlyCrateable(3).check_metric(&cv)
    );
    let cv2 = vec![200, 100, 0, 0];
    assert_eq!(
        PerfectMetric::PerfectlyStackable(3).check_metric(&cv2),
        CostMetric::PerfectlyStackable(3).check_metric(&cv2)
    );
}
