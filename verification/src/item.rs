//! The two record kinds the inventory tracks: item types (categories of
//! goods) and item instances (physical units of a type), together with the
//! error kinds the engine reports.

use vstd::prelude::*;

verus! {

/// The outcome an inventory operation reports when it cannot do its work.
/// Every operation returns its outcome; none panics on a missing id.
#[derive(Clone, Copy, Debug, PartialEq, Eq)]
pub enum InventoryError {
    /// A type id did not reference an existing item type.
    UnknownItemType,
    /// An instance id did not reference an existing item instance.
    UnknownItemInstance,
    /// No active instance of the requested type was available to consume from.
    NoMatchingInstance,
}

/// A category of goods, with a restock target and an optional shelf life.
#[derive(Debug)]
pub struct ItemType {
    /// Unique positive id, assigned by the inventory and never reused while
    /// the type exists.
    pub id: u32,
    /// Free-form name; searched by case-insensitive substring match.
    pub name: String,
    /// Target stock floor, as a scaled quantity (same scale as instance
    /// quantities).
    pub minimum_quantity: u64,
    /// Shelf life after opening, in ticks; `None` when instances of this type
    /// never expire on their own.
    pub ttl: Option<u64>,
    /// Whether a new instance of this type is considered opened at creation
    /// (e.g. perishables that are in use immediately).
    pub opened_by_default: bool,
}

impl ItemType {
    /// A fresh item type, before the inventory assigns it an id.
    pub fn new(name: String, minimum_quantity: u64, ttl: Option<u64>, opened_by_default: bool) -> (t: ItemType)
        ensures
            t.id == 0,
            t.name == name,
            t.minimum_quantity == minimum_quantity,
            t.ttl == ttl,
            t.opened_by_default == opened_by_default,
    {
        ItemType { id: 0, name, minimum_quantity, ttl, opened_by_default }
    }
}

impl Clone for ItemType {
    fn clone(&self) -> (t: ItemType)
        ensures
            t == *self,
    {
        ItemType {
            id: self.id,
            name: self.name.clone(),
            minimum_quantity: self.minimum_quantity,
            ttl: self.ttl,
            opened_by_default: self.opened_by_default,
        }
    }
}

/// One physical unit or batch belonging to exactly one item type.
#[derive(Debug)]
pub struct ItemInstance {
    /// Unique positive id, assigned by the inventory.
    pub id: u32,
    /// Id of the owning item type; checked against the live type collection
    /// when the instance is created.
    pub item_type: u32,
    /// Scaled quantity on hand; the unit is type-specific and opaque to the
    /// engine. Never goes below zero: consuming clamps it at zero.
    pub quantity: u64,
    /// Optional model name.
    pub model: Option<String>,
    /// Optional serial number.
    pub serial: Option<String>,
    /// Optional extra free-text data.
    pub extra: Option<String>,
    /// Optional storage location.
    pub location: Option<String>,
    /// Optional monetary value, as a scaled amount.
    pub value: Option<u64>,
    /// Tick at which the instance was first consumed from, if ever.
    pub opened_at: Option<u64>,
    /// Tick at which the instance expires; derived from `opened_at` plus the
    /// type's shelf life when not set explicitly, and never pushed later than
    /// a deadline already on record.
    pub expires_at: Option<u64>,
    /// Tick at which the instance entered the inventory; set once.
    pub added_at: u64,
    /// Tick at which the instance was trashed; presence marks a soft delete.
    /// A trashed instance is excluded from active views but kept in storage.
    pub removed_at: Option<u64>,
}

impl ItemInstance {
    /// A fresh instance of the given type, before the inventory assigns it an
    /// id and an arrival tick.
    pub fn new(
        item_type: u32,
        quantity: u64,
        model: Option<String>,
        serial: Option<String>,
        extra: Option<String>,
        location: Option<String>,
        value: Option<u64>,
        expires_at: Option<u64>,
    ) -> (inst: ItemInstance)
        ensures
            inst.id == 0,
            inst.item_type == item_type,
            inst.quantity == quantity,
            inst.model == model,
            inst.serial == serial,
            inst.extra == extra,
            inst.location == location,
            inst.value == value,
            inst.opened_at is None,
            inst.expires_at == expires_at,
            inst.added_at == 0,
            inst.removed_at is None,
    {
        ItemInstance {
            id: 0,
            item_type,
            quantity,
            model,
            serial,
            extra,
            location,
            value,
            opened_at: None,
            expires_at,
            added_at: 0,
            removed_at: None,
        }
    }
}

impl Clone for ItemInstance {
    fn clone(&self) -> (inst: ItemInstance)
        ensures
            inst == *self,
    {
        ItemInstance {
            id: self.id,
            item_type: self.item_type,
            quantity: self.quantity,
            model: clone_opt_string(&self.model),
            serial: clone_opt_string(&self.serial),
            extra: clone_opt_string(&self.extra),
            location: clone_opt_string(&self.location),
            value: self.value,
            opened_at: self.opened_at,
            expires_at: self.expires_at,
            added_at: self.added_at,
            removed_at: self.removed_at,
        }
    }
}

/// A copy of an optional string.
fn clone_opt_string(s: &Option<String>) -> (r: Option<String>)
    ensures
        r == *s,
{
    match s {
        Some(v) => Some(v.clone()),
        None => None,
    }
}

/// Whether an instance has begun being consumed.
#[derive(Clone, Debug, PartialEq, Eq, Structural)]
pub enum UseState {
    New,
    Used,
}

impl Default for UseState {
    fn default() -> (r: Self)
        ensures
            r == UseState::New,
    {
        UseState::New
    }
}

/// The text an optional value shows in a listing: its content, or nothing.
pub fn conv(s: &Option<String>) -> (r: String)
    ensures
        s is Some ==> r == s->0,
        s is None ==> r@ == Seq::<char>::empty(),
{
    match s {
        Some(v) => v.clone(),
        None => String::new(),
    }
}

} // verus!
