//! A personal inventory engine: item types (categories with a restock target
//! and an optional shelf life) and item instances (physical units of a type),
//! with id allocation, lifecycle operations, and derived stock queries.
//!
//! Quantities and monetary values are scaled integers (the caller picks the
//! scale, e.g. thousandths of a unit), timestamps are integer ticks since an
//! epoch, and durations are tick counts, so that every rule of the engine is
//! expressed over plain numbers.

pub mod item;
pub mod laws;
mod seq_facts;
pub mod store;
pub mod text;

pub use item::InventoryError;
pub use item::ItemInstance;
pub use item::ItemType;
pub use item::UseState;
pub use item::conv;
pub use store::Inventory;
pub use store::filter_expired;
pub use text::matches_name;
