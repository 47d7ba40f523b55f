//! The type and instance lifecycle: id allocation, creation, patching,
//! trashing, deletion, and consumption with spill-over.

use inv_manager::Inventory;
use inv_manager::InventoryError;
use inv_manager::ItemInstance;
use inv_manager::ItemType;

fn plain_type(name: &str, minimum_quantity: u64) -> ItemType {
    ItemType::new(name.to_string(), minimum_quantity, None, false)
}

fn plain_instance(item_type: u32, quantity: u64) -> ItemInstance {
    ItemInstance::new(item_type, quantity, None, None, None, None, None, None)
}

#[test]
fn type_ids_strictly_increase() {
    let mut inv = Inventory::default();
    let a = inv.add_item_type(plain_type("salt", 0));
    let b = inv.add_item_type(plain_type("pepper", 0));
    let c = inv.add_item_type(plain_type("flour", 0));
    assert_eq!(a, 1);
    assert_eq!(b, 2);
    assert_eq!(c, 3);
}

#[test]
fn instance_ids_strictly_increase() {
    let mut inv = Inventory::default();
    let t = inv.add_item_type(plain_type("salt", 0));
    let a = inv.add_item_instance(plain_instance(t, 1000), 10).unwrap();
    let b = inv.add_item_instance(plain_instance(t, 1000), 11).unwrap();
    assert_eq!(a, 1);
    assert_eq!(b, 2);
}

#[test]
fn ids_follow_max_plus_one_after_deletion() {
    let mut inv = Inventory::default();
    let a = inv.add_item_type(plain_type("salt", 0));
    let b = inv.add_item_type(plain_type("pepper", 0));
    inv.delete_item_type(b);
    // the allocator hands out one more than the largest id still in use
    let c = inv.add_item_type(plain_type("flour", 0));
    assert_eq!(a, 1);
    assert_eq!(b, 2);
    assert_eq!(c, 2);
}

#[test]
fn create_instance_unknown_type_changes_nothing() {
    let mut inv = Inventory::default();
    inv.add_item_type(plain_type("salt", 0));
    let r = inv.add_item_instance(plain_instance(99, 1000), 10);
    assert!(matches!(r, Err(InventoryError::UnknownItemType)));
    assert_eq!(inv.item_instances.len(), 0);
}

#[test]
fn create_instance_sets_added_at() {
    let mut inv = Inventory::default();
    let t = inv.add_item_type(plain_type("salt", 0));
    inv.add_item_instance(plain_instance(t, 1000), 42).unwrap();
    assert_eq!(inv.item_instances[0].added_at, 42);
    assert_eq!(inv.item_instances[0].opened_at, None);
    assert_eq!(inv.item_instances[0].removed_at, None);
}

#[test]
fn opened_by_default_type_opens_instance_and_derives_deadline() {
    let mut inv = Inventory::default();
    let t = inv.add_item_type(ItemType::new("yoghurt".to_string(), 0, Some(600), true));
    // a submitted deadline is overridden on this creation path
    let inst = ItemInstance::new(t, 1000, None, None, None, None, None, Some(5));
    inv.add_item_instance(inst, 100).unwrap();
    assert_eq!(inv.item_instances[0].opened_at, Some(100));
    assert_eq!(inv.item_instances[0].expires_at, Some(700));
}

#[test]
fn opened_by_default_without_ttl_keeps_submitted_deadline() {
    let mut inv = Inventory::default();
    let t = inv.add_item_type(ItemType::new("bread".to_string(), 0, None, true));
    let inst = ItemInstance::new(t, 1000, None, None, None, None, None, Some(5));
    inv.add_item_instance(inst, 100).unwrap();
    assert_eq!(inv.item_instances[0].opened_at, Some(100));
    assert_eq!(inv.item_instances[0].expires_at, Some(5));
}

#[test]
fn update_type_patches_only_supplied_fields() {
    let mut inv = Inventory::default();
    let t = inv.add_item_type(ItemType::new("salt".to_string(), 7, Some(60), true));
    let r = inv.update_item_type(t, Some("sea salt".to_string()), None, None, None);
    assert!(r.is_ok());
    assert_eq!(inv.item_types[0].name, "sea salt");
    assert_eq!(inv.item_types[0].minimum_quantity, 7);
    assert_eq!(inv.item_types[0].ttl, Some(60));
    assert!(inv.item_types[0].opened_by_default);
    // clearing the shelf life goes through the double option
    let r2 = inv.update_item_type(t, None, Some(9), Some(None), Some(false));
    assert!(r2.is_ok());
    assert_eq!(inv.item_types[0].name, "sea salt");
    assert_eq!(inv.item_types[0].minimum_quantity, 9);
    assert_eq!(inv.item_types[0].ttl, None);
    assert!(!inv.item_types[0].opened_by_default);
}

#[test]
fn update_type_unknown_id_reports_not_found() {
    let mut inv = Inventory::default();
    let r = inv.update_item_type(5, Some("x".to_string()), None, None, None);
    assert!(matches!(r, Err(InventoryError::UnknownItemType)));
}

#[test]
fn update_instance_patches_only_supplied_fields() {
    let mut inv = Inventory::default();
    let t = inv.add_item_type(plain_type("salt", 0));
    let id = inv.add_item_instance(plain_instance(t, 1000), 10).unwrap();
    let r = inv.update_item_instance(
        id,
        Some(250),
        Some("fine".to_string()),
        None,
        None,
        Some("pantry".to_string()),
        Some(199),
        Some(Some(500)),
        None,
    );
    assert!(r.is_ok());
    let inst = &inv.item_instances[0];
    assert_eq!(inst.quantity, 250);
    assert_eq!(inst.model.as_deref(), Some("fine"));
    assert_eq!(inst.serial, None);
    assert_eq!(inst.location.as_deref(), Some("pantry"));
    assert_eq!(inst.value, Some(199));
    assert_eq!(inst.expires_at, Some(500));
    assert_eq!(inst.opened_at, None);
    assert_eq!(inst.added_at, 10);
}

#[test]
fn update_instance_unknown_id_reports_not_found() {
    let mut inv = Inventory::default();
    let r = inv.update_item_instance(3, Some(1), None, None, None, None, None, None, None);
    assert!(matches!(r, Err(InventoryError::UnknownItemInstance)));
}

#[test]
fn trash_sets_only_removed_at_and_keeps_record() {
    let mut inv = Inventory::default();
    let t = inv.add_item_type(plain_type("salt", 0));
    let id = inv.add_item_instance(plain_instance(t, 750), 10).unwrap();
    let r = inv.trash(id, 77);
    assert!(r.is_ok());
    // still present in the raw collection, quantity untouched
    assert_eq!(inv.item_instances.len(), 1);
    assert_eq!(inv.item_instances[0].quantity, 750);
    assert_eq!(inv.item_instances[0].removed_at, Some(77));
    // but no longer listed among the active instances of its type
    let active = inv.get_instances_for_type(t).unwrap();
    assert_eq!(active.len(), 0);
    assert_eq!(inv.quantity_for_type(t), 0);
}

#[test]
fn trash_unknown_id_reports_not_found() {
    let mut inv = Inventory::default();
    let r = inv.trash(12, 0);
    assert!(matches!(r, Err(InventoryError::UnknownItemInstance)));
}

#[test]
fn delete_instance_removes_record_for_good() {
    let mut inv = Inventory::default();
    let t = inv.add_item_type(plain_type("salt", 0));
    let a = inv.add_item_instance(plain_instance(t, 100), 10).unwrap();
    let b = inv.add_item_instance(plain_instance(t, 200), 11).unwrap();
    let r = inv.delete_item_instance(a);
    assert!(r.is_ok());
    assert_eq!(inv.item_instances.len(), 1);
    assert_eq!(inv.item_instances[0].id, b);
    let r2 = inv.delete_item_instance(a);
    assert!(matches!(r2, Err(InventoryError::UnknownItemInstance)));
}

#[test]
fn delete_type_cascades_to_instances() {
    let mut inv = Inventory::default();
    let t1 = inv.add_item_type(plain_type("salt", 0));
    let t2 = inv.add_item_type(plain_type("pepper", 0));
    inv.add_item_instance(plain_instance(t1, 100), 1).unwrap();
    inv.add_item_instance(plain_instance(t2, 200), 2).unwrap();
    inv.add_item_instance(plain_instance(t1, 300), 3).unwrap();
    inv.delete_item_type(t1);
    assert_eq!(inv.item_types.len(), 1);
    assert_eq!(inv.item_instances.len(), 1);
    assert_eq!(inv.item_instances[0].item_type, t2);
    // the type-scoped query now reports the id as unknown
    let r = inv.get_instances_for_type(t1);
    assert!(matches!(r, Err(InventoryError::UnknownItemType)));
}

#[test]
fn delete_type_unknown_id_is_a_no_op() {
    let mut inv = Inventory::default();
    inv.add_item_type(plain_type("salt", 0));
    inv.delete_item_type(9);
    assert_eq!(inv.item_types.len(), 1);
}

#[test]
fn use_instance_spills_over_and_opens() {
    let mut inv = Inventory::default();
    let t = inv.add_item_type(plain_type("milk", 0));
    // quantities 1.0 and 2.0 in thousandths, neither opened
    inv.add_item_instance(plain_instance(t, 1000), 1).unwrap();
    inv.add_item_instance(plain_instance(t, 2000), 2).unwrap();
    // draw 2.5: the first is drained and trashed, the second keeps 0.5
    let r = inv.use_instance(t, 2500, 50);
    assert!(r.is_ok());
    let first = &inv.item_instances[0];
    assert_eq!(first.quantity, 0);
    assert_eq!(first.opened_at, Some(50));
    assert_eq!(first.removed_at, Some(50));
    let second = &inv.item_instances[1];
    assert_eq!(second.quantity, 500);
    assert_eq!(second.opened_at, Some(50));
    assert_eq!(second.removed_at, None);
}

#[test]
fn use_instance_prefers_an_opened_instance() {
    let mut inv = Inventory::default();
    let t = inv.add_item_type(plain_type("milk", 0));
    inv.add_item_instance(plain_instance(t, 1000), 1).unwrap();
    let b = inv.add_item_instance(plain_instance(t, 1000), 2).unwrap();
    inv.update_item_instance(b, None, None, None, None, None, None, None, Some(Some(5)))
        .unwrap();
    inv.use_instance(t, 300, 50).unwrap();
    // the already-opened second instance was drawn from, not the first
    assert_eq!(inv.item_instances[0].quantity, 1000);
    assert_eq!(inv.item_instances[1].quantity, 700);
}

#[test]
fn use_instance_exact_draw_leaves_empty_active_instance() {
    let mut inv = Inventory::default();
    let t = inv.add_item_type(plain_type("milk", 0));
    inv.add_item_instance(plain_instance(t, 1000), 1).unwrap();
    inv.use_instance(t, 1000, 50).unwrap();
    // drained to exactly zero, but only an overdraw trashes
    assert_eq!(inv.item_instances[0].quantity, 0);
    assert_eq!(inv.item_instances[0].removed_at, None);
}

#[test]
fn use_instance_overdraw_past_all_stock_trashes_everything() {
    let mut inv = Inventory::default();
    let t = inv.add_item_type(plain_type("milk", 0));
    inv.add_item_instance(plain_instance(t, 1000), 1).unwrap();
    inv.add_item_instance(plain_instance(t, 500), 2).unwrap();
    // the leftover that no instance can cover is not an error
    let r = inv.use_instance(t, 9000, 50);
    assert!(r.is_ok());
    assert_eq!(inv.item_instances[0].quantity, 0);
    assert_eq!(inv.item_instances[0].removed_at, Some(50));
    assert_eq!(inv.item_instances[1].quantity, 0);
    assert_eq!(inv.item_instances[1].removed_at, Some(50));
}

#[test]
fn use_instance_without_active_stock_reports_no_match() {
    let mut inv = Inventory::default();
    let t = inv.add_item_type(plain_type("milk", 0));
    let r = inv.use_instance(t, 100, 50);
    assert!(matches!(r, Err(InventoryError::NoMatchingInstance)));
    let id = inv.add_item_instance(plain_instance(t, 1000), 1).unwrap();
    inv.trash(id, 2).unwrap();
    let r2 = inv.use_instance(t, 100, 50);
    assert!(matches!(r2, Err(InventoryError::NoMatchingInstance)));
    assert_eq!(inv.item_instances[0].quantity, 1000);
}

#[test]
fn opening_sets_deadline_from_shelf_life() {
    let mut inv = Inventory::default();
    // shelf life of 10 minutes, in seconds
    let t = inv.add_item_type(ItemType::new("juice".to_string(), 0, Some(600), false));
    inv.add_item_instance(plain_instance(t, 1000), 1).unwrap();
    inv.use_instance(t, 100, 5000).unwrap();
    assert_eq!(inv.item_instances[0].opened_at, Some(5000));
    assert_eq!(inv.item_instances[0].expires_at, Some(5600));
}

#[test]
fn opening_keeps_an_earlier_deadline_on_record() {
    let mut inv = Inventory::default();
    let t = inv.add_item_type(ItemType::new("juice".to_string(), 0, Some(600), false));
    let inst = ItemInstance::new(t, 1000, None, None, None, None, None, Some(5100));
    inv.add_item_instance(inst, 1).unwrap();
    inv.use_instance(t, 100, 5000).unwrap();
    // 5100 is earlier than 5000 + 600, so it stands
    assert_eq!(inv.item_instances[0].expires_at, Some(5100));
}

#[test]
fn opening_overwrites_a_later_deadline_on_record() {
    let mut inv = Inventory::default();
    let t = inv.add_item_type(ItemType::new("juice".to_string(), 0, Some(600), false));
    let inst = ItemInstance::new(t, 1000, None, None, None, None, None, Some(9999));
    inv.add_item_instance(inst, 1).unwrap();
    inv.use_instance(t, 100, 5000).unwrap();
    assert_eq!(inv.item_instances[0].expires_at, Some(5600));
}

#[test]
fn using_an_opened_instance_keeps_its_deadline() {
    let mut inv = Inventory::default();
    let t = inv.add_item_type(ItemType::new("juice".to_string(), 0, Some(600), false));
    inv.add_item_instance(plain_instance(t, 1000), 1).unwrap();
    inv.use_instance(t, 100, 5000).unwrap();
    inv.use_instance(t, 100, 8000).unwrap();
    // the second draw finds the instance already opened and changes no tick
    assert_eq!(inv.item_instances[0].opened_at, Some(5000));
    assert_eq!(inv.item_instances[0].expires_at, Some(5600));
    assert_eq!(inv.item_instances[0].quantity, 800);
}
