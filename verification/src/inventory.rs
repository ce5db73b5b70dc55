//! Inventory reporting. Low-stock detection is not implemented yet: the
//! report is owed to be empty, and that is what is stated.

use vstd::prelude::*;

verus! {

/// One inventory line. Prices are held in cents.
pub struct InventoryItem {
    pub id: u64,
    pub sku: String,
    pub name: String,
    pub current_stock: i32,
    pub min_stock: i32,
    pub max_stock: i32,
    pub cost_price_cents: u64,
    pub selling_price_cents: u64,
}

/// The inventory service.
pub struct InventoryService {
}

impl InventoryService {
    pub fn new() -> (s: Self) {
        InventoryService {  }
    }

    /// The items whose stock fell under their minimum: none, until
    /// low-stock detection is wired to the store.
    pub fn get_low_stock_items(&self) -> (r: Vec<InventoryItem>)
        ensures
            r@.len() == 0,
    {
        Vec::new()
    }
}

} // verus!
