use warden_batches::item_set::{ItemSetCategoryWrapper, ItemSetOption};
use warden_batches::options::{JsonOptions, OptionChoice};

fn order() -> Vec<ItemSetCategoryWrapper> {
    ItemSetOption::MaterialGroupedWarden.item_set_category_order()
}

fn empty_options() -> JsonOptions {
    JsonOptions { order_range: None, chosen_categories: None, blacklist: None, whitelist: None }
}

#[test]
fn empty_configuration_is_valid() {
    assert!(empty_options().check_valid(&order()));
}

#[test]
fn order_range_values_are_capped_and_unique() {
    let mut o = empty_options();
    o.order_range = Some(vec![0, 2, 4]);
    assert!(o.check_valid(&order()));
    o.order_range = Some(vec![0, 5]);
    assert!(!o.check_valid(&order()));
    o.order_range = Some(vec![1, 1]);
    assert!(!o.check_valid(&order()));
}

#[test]
fn chosen_categories_are_in_range_and_unique() {
    let mut o = empty_options();
    o.chosen_categories = Some(vec![0, 6]);
    assert!(o.check_valid(&order()));
    o.chosen_categories = Some(vec![7]);
    assert!(!o.check_valid(&order()));
    o.chosen_categories = Some(vec![2, 2]);
    assert!(!o.check_valid(&order()));
}

#[test]
fn option_choice_category_bounds() {
    assert!(OptionChoice::Category(6).check_valid(&order()));
    assert!(!OptionChoice::Category(7).check_valid(&order()));
    assert_eq!(OptionChoice::Category(3).category(), 3);
}

#[test]
fn option_choice_item_orders_bounds() {
    // The material-grouped Medical category has two items.
    let ok = OptionChoice::ItemOrders((4, vec![(0, vec![0, 1]), (1, vec![2])]));
    assert!(ok.check_valid(&order()));
    let bad_item = OptionChoice::ItemOrders((4, vec![(2, vec![0])]));
    assert!(!bad_item.check_valid(&order()));
    let bad_order = OptionChoice::ItemOrders((4, vec![(0, vec![5])]));
    assert!(!bad_order.check_valid(&order()));
    let bad_category = OptionChoice::ItemOrders((9, vec![]));
    assert!(!bad_category.check_valid(&order()));
}

#[test]
fn option_choice_queue_shape_and_sum() {
    let ok = OptionChoice::Queue((4, vec![2, 2]));
    assert!(ok.check_valid(&order()));
    let wrong_len = OptionChoice::Queue((4, vec![2]));
    assert!(!wrong_len.check_valid(&order()));
    let too_many = OptionChoice::Queue((4, vec![3, 2]));
    assert!(!too_many.check_valid(&order()));
    let entry_too_big = OptionChoice::Queue((4, vec![5, 0]));
    assert!(!entry_too_big.check_valid(&order()));
    let bad_category = OptionChoice::Queue((7, vec![1]));
    assert!(!bad_category.check_valid(&order()));
}

#[test]
fn blacklist_kinds_must_not_clash() {
    let mut o = empty_options();
    o.blacklist = Some(vec![OptionChoice::Category(0), OptionChoice::Category(0)]);
    assert!(!o.check_valid(&order()));
    // A blacked-out category may not appear in any other entry.
    o.blacklist = Some(vec![OptionChoice::Category(4), OptionChoice::Queue((4, vec![0, 0]))]);
    assert!(!o.check_valid(&order()));
    // Item orders and a queue may share a category in the blacklist.
    o.blacklist = Some(vec![
        OptionChoice::ItemOrders((4, vec![(0, vec![1])])),
        OptionChoice::Queue((4, vec![0, 0])),
    ]);
    assert!(o.check_valid(&order()));
    o.blacklist = Some(vec![OptionChoice::Category(1), OptionChoice::Queue((4, vec![0, 0]))]);
    assert!(o.check_valid(&order()));
}

#[test]
fn whitelist_rejects_whole_categories_and_duplicates() {
    let mut o = empty_options();
    o.whitelist = Some(vec![OptionChoice::Category(0)]);
    assert!(!o.check_valid(&order()));
    o.whitelist = Some(vec![
        OptionChoice::Queue((4, vec![1, 0])),
        OptionChoice::ItemOrders((4, vec![(0, vec![1])])),
    ]);
    assert!(!o.check_valid(&order()));
    o.whitelist = Some(vec![
        OptionChoice::Queue((4, vec![1, 0])),
        OptionChoice::ItemOrders((5, vec![(0, vec![1])])),
    ]);
    assert!(o.check_valid(&order()));
}

#[test]
fn invalid_entry_invalidates_the_whole_configuration() {
    let mut o = empty_options();
    o.blacklist = Some(vec![OptionChoice::Queue((4, vec![9, 9]))]);
    assert!(!o.check_valid(&order()));
    o.blacklist = None;
    o.whitelist = Some(vec![OptionChoice::ItemOrders((0, vec![(99, vec![0])]))]);
    assert!(!o.check_valid(&order()));
}
