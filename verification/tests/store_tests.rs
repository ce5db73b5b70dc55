use clutch_partners::store::{Database, StoreError};

#[test]
fn add_product_assigns_ids_and_stamps_both_timestamps() {
    let mut db = Database::new();
    let p = db.add_product("SKU-1", "Brake Pad", 1999, 10, "brakes", "123456").unwrap();
    assert_eq!(p.id, 1);
    assert_eq!(p.sku, "SKU-1");
    assert_eq!(p.name, "Brake Pad");
    assert_eq!(p.price_cents, 1999);
    assert_eq!(p.stock, 10);
    assert_eq!(p.category, "brakes");
    assert_eq!(p.barcode, "123456");
    assert_eq!(p.created_at, p.updated_at);
    let p2 = db.add_product("SKU-2", "Oil Filter", 499, 3, "filters", "654321").unwrap();
    assert_eq!(p2.id, 2);
}

#[test]
fn duplicate_sku_is_refused() {
    let mut db = Database::new();
    db.add_product("SKU-1", "Brake Pad", 1999, 10, "brakes", "123456").unwrap();
    let r = db.add_product("SKU-1", "Other", 100, 1, "misc", "0");
    assert_eq!(r.err(), Some(StoreError::DuplicateSku));
    assert_eq!(db.get_products().len(), 1);
}

#[test]
fn get_products_lists_newest_first() {
    let mut db = Database::new();
    db.add_product("SKU-1", "First", 100, 1, "c", "1").unwrap();
    db.add_product("SKU-2", "Second", 200, 2, "c", "2").unwrap();
    let products = db.get_products();
    assert_eq!(products.len(), 2);
    assert_eq!(products[0].sku, "SKU-2");
    assert_eq!(products[1].sku, "SKU-1");
}

#[test]
fn process_sale_computes_total_and_decrements_stock() {
    let mut db = Database::new();
    let p = db.add_product("SKU-1", "Brake Pad", 1999, 10, "brakes", "123456").unwrap();
    let sale = db.process_sale(p.id, 3, "Alex").unwrap();
    assert_eq!(sale.id, 1);
    assert_eq!(sale.product_id, p.id);
    assert_eq!(sale.quantity, 3);
    assert_eq!(sale.price_cents, 1999);
    assert_eq!(sale.total_cents, 5997);
    assert_eq!(sale.customer_name, "Alex");
    let products = db.get_products();
    assert_eq!(products[0].stock, 7);
}

#[test]
fn process_sale_refuses_insufficient_stock() {
    let mut db = Database::new();
    let p = db.add_product("SKU-1", "Brake Pad", 1999, 1, "brakes", "123456").unwrap();
    let r = db.process_sale(p.id, 2, "Alex");
    assert_eq!(r.err(), Some(StoreError::InsufficientStock));
    assert_eq!(db.get_products()[0].stock, 1);
}

#[test]
fn process_sale_refuses_unknown_product() {
    let mut db = Database::new();
    let r = db.process_sale(42, 1, "Alex");
    assert_eq!(r.err(), Some(StoreError::ProductNotFound));
}
