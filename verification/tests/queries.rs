//! The derived queries: aggregate quantity, missing stock, expiry sweeps,
//! lookups, and case-insensitive name search.

use inv_manager::Inventory;
use inv_manager::InventoryError;
use inv_manager::ItemInstance;
use inv_manager::ItemType;
use inv_manager::UseState;
use inv_manager::conv;
use inv_manager::filter_expired;
use inv_manager::matches_name;

fn named_type(name: &str, minimum_quantity: u64) -> ItemType {
    ItemType::new(name.to_string(), minimum_quantity, None, false)
}

fn stock(item_type: u32, quantity: u64) -> ItemInstance {
    ItemInstance::new(item_type, quantity, None, None, None, None, None, None)
}

#[test]
fn quantity_sums_only_active_instances() {
    let mut inv = Inventory::default();
    let t = inv.add_item_type(named_type("salt", 0));
    let other = inv.add_item_type(named_type("pepper", 0));
    inv.add_item_instance(stock(t, 1500), 1).unwrap();
    let b = inv.add_item_instance(stock(t, 2500), 2).unwrap();
    inv.add_item_instance(stock(other, 9000), 3).unwrap();
    assert_eq!(inv.quantity_for_type(t), 4000);
    // trashing one instance lowers the sum by exactly its quantity
    inv.trash(b, 50).unwrap();
    assert_eq!(inv.quantity_for_type(t), 1500);
    assert_eq!(inv.quantity_for_type(other), 9000);
}

#[test]
fn quantity_for_unknown_type_is_zero() {
    let inv = Inventory::default();
    assert_eq!(inv.quantity_for_type(3), 0);
}

#[test]
fn missing_types_are_those_below_their_floor() {
    let mut inv = Inventory::default();
    let low = inv.add_item_type(named_type("salt", 2000));
    let enough = inv.add_item_type(named_type("pepper", 1000));
    let zero_floor = inv.add_item_type(named_type("saffron", 0));
    inv.add_item_instance(stock(low, 1999), 1).unwrap();
    inv.add_item_instance(stock(enough, 1000), 2).unwrap();
    let missing = inv.missing_types();
    assert_eq!(missing.len(), 1);
    assert_eq!(missing[0].id, low);
    let _ = (enough, zero_floor);
}

#[test]
fn type_with_zero_floor_is_never_missing() {
    let mut inv = Inventory::default();
    inv.add_item_type(named_type("salt", 0));
    assert_eq!(inv.missing_types().len(), 0);
}

#[test]
fn trashing_can_make_a_type_missing() {
    let mut inv = Inventory::default();
    let t = inv.add_item_type(named_type("salt", 1000));
    let id = inv.add_item_instance(stock(t, 1000), 1).unwrap();
    assert_eq!(inv.missing_types().len(), 0);
    inv.trash(id, 5).unwrap();
    assert_eq!(inv.missing_types().len(), 1);
}

#[test]
fn expired_instances_compare_deadline_to_now() {
    let mut inv = Inventory::default();
    let t = inv.add_item_type(named_type("salt", 0));
    let a = inv.add_item_instance(stock(t, 100), 1).unwrap();
    let b = inv.add_item_instance(stock(t, 100), 2).unwrap();
    let c = inv.add_item_instance(stock(t, 100), 3).unwrap();
    inv.update_item_instance(a, None, None, None, None, None, None, Some(Some(500)), None)
        .unwrap();
    inv.update_item_instance(b, None, None, None, None, None, None, Some(Some(501)), None)
        .unwrap();
    // c keeps no deadline and is never reported
    let expired = inv.expired_instances(500);
    assert_eq!(expired.len(), 1);
    assert_eq!(expired[0].id, a);
    let _ = c;
}

#[test]
fn expired_instances_include_trashed_ones() {
    let mut inv = Inventory::default();
    let t = inv.add_item_type(named_type("salt", 0));
    let a = inv.add_item_instance(stock(t, 100), 1).unwrap();
    inv.update_item_instance(a, None, None, None, None, None, None, Some(Some(10)), None)
        .unwrap();
    inv.trash(a, 20).unwrap();
    assert_eq!(inv.expired_instances(50).len(), 1);
}

#[test]
fn filter_expired_works_on_any_list() {
    let with_deadline = ItemInstance::new(1, 100, None, None, None, None, None, Some(7));
    let without = ItemInstance::new(1, 100, None, None, None, None, None, None);
    let expired = filter_expired(&vec![with_deadline, without], 7);
    assert_eq!(expired.len(), 1);
    assert_eq!(expired[0].expires_at, Some(7));
}

#[test]
fn get_item_type_finds_by_exact_id() {
    let mut inv = Inventory::default();
    let t = inv.add_item_type(named_type("salt", 3));
    assert_eq!(inv.get_item_type(t).unwrap().name, "salt");
    assert!(inv.get_item_type(99).is_none());
}

#[test]
fn get_item_instance_skips_trashed() {
    let mut inv = Inventory::default();
    let t = inv.add_item_type(named_type("salt", 0));
    let id = inv.add_item_instance(stock(t, 100), 1).unwrap();
    assert!(inv.get_item_instance(id).is_some());
    inv.trash(id, 5).unwrap();
    assert!(inv.get_item_instance(id).is_none());
    assert!(inv.get_item_instance(42).is_none());
}

#[test]
fn instances_for_type_lists_in_collection_order() {
    let mut inv = Inventory::default();
    let t = inv.add_item_type(named_type("salt", 0));
    let a = inv.add_item_instance(stock(t, 100), 1).unwrap();
    let b = inv.add_item_instance(stock(t, 200), 2).unwrap();
    let listed = inv.get_instances_for_type(t).unwrap();
    assert_eq!(listed.len(), 2);
    assert_eq!(listed[0].id, a);
    assert_eq!(listed[1].id, b);
    let r = inv.get_instances_for_type(9);
    assert!(matches!(r, Err(InventoryError::UnknownItemType)));
}

#[test]
fn name_search_is_case_insensitive_substring() {
    let mut inv = Inventory::default();
    inv.add_item_type(named_type("Sea SALT", 0));
    inv.add_item_type(named_type("pepper", 0));
    inv.add_item_type(named_type("salted butter", 0));
    let found = inv.get_types_for_name(&"salt".to_string());
    assert_eq!(found.len(), 2);
    assert_eq!(found[0].name, "Sea SALT");
    assert_eq!(found[1].name, "salted butter");
    let found_upper = inv.get_types_for_name(&"SALT".to_string());
    assert_eq!(found_upper.len(), 2);
}

#[test]
fn empty_name_query_matches_every_type() {
    let mut inv = Inventory::default();
    inv.add_item_type(named_type("salt", 0));
    inv.add_item_type(named_type("pepper", 0));
    assert_eq!(inv.get_types_for_name(&String::new()).len(), 2);
}

#[test]
fn matches_name_lowers_both_sides() {
    assert!(matches_name("MILK", "milk"));
    assert!(matches_name("milk", "MILK"));
    assert!(matches_name("Skimmed Milk", "med mi"));
    assert!(!matches_name("milk", "silk"));
}

#[test]
fn instances_for_type_name_joins_through_the_type() {
    let mut inv = Inventory::default();
    let milk = inv.add_item_type(named_type("Whole Milk", 0));
    let bread = inv.add_item_type(named_type("bread", 0));
    let a = inv.add_item_instance(stock(milk, 100), 1).unwrap();
    inv.add_item_instance(stock(bread, 100), 2).unwrap();
    let b = inv.add_item_instance(stock(milk, 200), 3).unwrap();
    inv.trash(b, 5).unwrap();
    let found = inv.instances_for_type_name(&"milk".to_string());
    assert_eq!(found.len(), 1);
    assert_eq!(found[0].id, a);
}

#[test]
fn active_instances_excludes_trashed() {
    let mut inv = Inventory::default();
    let t = inv.add_item_type(named_type("salt", 0));
    let a = inv.add_item_instance(stock(t, 100), 1).unwrap();
    let b = inv.add_item_instance(stock(t, 200), 2).unwrap();
    inv.trash(a, 5).unwrap();
    let active = inv.active_instances();
    assert_eq!(active.len(), 1);
    assert_eq!(active[0].id, b);
}

#[test]
fn check_wf_accepts_grown_stores_and_rejects_duplicates() {
    let mut inv = Inventory::default();
    let t = inv.add_item_type(named_type("salt", 0));
    inv.add_item_instance(stock(t, 100), 1).unwrap();
    assert!(inv.check_wf());
    let mut broken = Inventory::default();
    broken.item_types.push(named_type("a", 0));
    broken.item_types.push(named_type("b", 0));
    // both hand-made types still carry id 0
    assert!(!broken.check_wf());
    let mut dangling = Inventory::default();
    dangling.item_instances.push(stock(3, 100));
    assert!(!dangling.check_wf());
}

#[test]
fn conv_shows_content_or_nothing() {
    assert_eq!(conv(&Some("fine".to_string())), "fine");
    assert_eq!(conv(&None), "");
}

#[test]
fn use_state_defaults_to_new() {
    assert_eq!(UseState::default(), UseState::New);
}
