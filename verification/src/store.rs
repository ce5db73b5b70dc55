//! In-memory relational model of the local product and sales tables: unique
//! SKUs, fresh autoincrement identifiers, immutable sale records referencing
//! an existing product, and a non-negative stock counter decremented when a
//! sale is recorded. Persisting the rows is a concern of the embedding
//! process; the table logic itself is verified here.

use vstd::prelude::*;
use crate::text::str_eq;

verus! {

/// One row of the products table. Prices are held in cents.
pub struct Product {
    pub id: u64,
    pub sku: String,
    pub name: String,
    pub price_cents: u64,
    pub stock: u32,
    pub category: String,
    pub barcode: String,
    pub created_at: String,
    pub updated_at: String,
}

/// Mathematical model of one product row.
pub struct ProductModel {
    pub id: u64,
    pub sku: Seq<char>,
    pub name: Seq<char>,
    pub price_cents: u64,
    pub stock: u32,
    pub category: Seq<char>,
    pub barcode: Seq<char>,
    pub created_at: Seq<char>,
    pub updated_at: Seq<char>,
}

impl View for Product {
    type V = ProductModel;

    open spec fn view(&self) -> ProductModel {
        ProductModel {
            id: self.id,
            sku: self.sku@,
            name: self.name@,
            price_cents: self.price_cents,
            stock: self.stock,
            category: self.category@,
            barcode: self.barcode@,
            created_at: self.created_at@,
            updated_at: self.updated_at@,
        }
    }
}

impl Clone for Product {
    fn clone(&self) -> (r: Self)
        ensures
            r == *self,
    {
        Product {
            id: self.id,
            sku: self.sku.clone(),
            name: self.name.clone(),
            price_cents: self.price_cents,
            stock: self.stock,
            category: self.category.clone(),
            barcode: self.barcode.clone(),
            created_at: self.created_at.clone(),
            updated_at: self.updated_at.clone(),
        }
    }
}

/// One row of the sales table, immutable once created.
pub struct Sale {
    pub id: u64,
    pub product_id: u64,
    pub quantity: u32,
    pub price_cents: u64,
    pub total_cents: u128,
    pub customer_name: String,
    pub timestamp: String,
}

/// Mathematical model of one sale row.
pub struct SaleModel {
    pub id: u64,
    pub product_id: u64,
    pub quantity: u32,
    pub price_cents: u64,
    pub total_cents: int,
    pub customer_name: Seq<char>,
    pub timestamp: Seq<char>,
}

impl View for Sale {
    type V = SaleModel;

    open spec fn view(&self) -> SaleModel {
        SaleModel {
            id: self.id,
            product_id: self.product_id,
            quantity: self.quantity,
            price_cents: self.price_cents,
            total_cents: self.total_cents as int,
            customer_name: self.customer_name@,
            timestamp: self.timestamp@,
        }
    }
}

impl Clone for Sale {
    fn clone(&self) -> (r: Self)
        ensures
            r == *self,
    {
        Sale {
            id: self.id,
            product_id: self.product_id,
            quantity: self.quantity,
            price_cents: self.price_cents,
            total_cents: self.total_cents,
            customer_name: self.customer_name.clone(),
            timestamp: self.timestamp.clone(),
        }
    }
}

/// Mathematical model of the whole store.
pub struct StoreState {
    pub products: Seq<ProductModel>,
    pub sales: Seq<SaleModel>,
    pub next_product_id: u64,
    pub next_sale_id: u64,
}

impl StoreState {
    /// Well-formedness: identifiers fresh and distinct, SKUs unique, and
    /// every sale referencing an existing product.
    pub open spec fn wf(self) -> bool {
        &&& self.next_product_id >= 1
        &&& self.next_sale_id >= 1
        &&& forall|i: int|
            0 <= i < self.products.len() ==> (#[trigger] self.products[i]).id
                < self.next_product_id
        &&& forall|i: int, j: int|
            0 <= i < j < self.products.len() ==> self.products[i].id != self.products[j].id
        &&& forall|i: int, j: int|
            0 <= i < j < self.products.len() ==> self.products[i].sku != self.products[j].sku
        &&& forall|k: int|
            0 <= k < self.sales.len() ==> (#[trigger] self.sales[k]).id < self.next_sale_id
        &&& forall|k: int, l: int|
            0 <= k < l < self.sales.len() ==> self.sales[k].id != self.sales[l].id
        &&& forall|k: int|
            0 <= k < self.sales.len() ==> exists|i: int|
                0 <= i < self.products.len() && (#[trigger] self.sales[k]).product_id
                    == self.products[i].id
    }

    /// Whether some product row carries this SKU.
    pub open spec fn has_sku(self, sku: Seq<char>) -> bool {
        exists|i: int| 0 <= i < self.products.len() && (#[trigger] self.products[i]).sku == sku
    }

    /// Whether some product row carries this identifier.
    pub open spec fn has_product(self, id: u64) -> bool {
        exists|i: int| 0 <= i < self.products.len() && (#[trigger] self.products[i]).id == id
    }

    /// The index of the product row with this identifier; meaningful only
    /// when `has_product(id)` holds (indices are unique under `wf`).
    pub open spec fn product_index(self, id: u64) -> int {
        choose|i: int| 0 <= i < self.products.len() && (#[trigger] self.products[i]).id == id
    }
}

/// Why a store request was refused.
#[derive(Clone, Copy, Debug, PartialEq, Eq, Structural)]
pub enum StoreError {
    /// No product row carries the requested identifier.
    ProductNotFound,
    /// A product row with this SKU already exists.
    DuplicateSku,
    /// The product's stock is smaller than the requested quantity.
    InsufficientStock,
    /// The identifier space is exhausted.
    StoreFull,
}

/// The local store: products and sales tables with autoincrement
/// identifiers.
pub struct Database {
    products: Vec<Product>,
    sales: Vec<Sale>,
    next_product_id: u64,
    next_sale_id: u64,
}

impl View for Database {
    type V = StoreState;

    closed spec fn view(&self) -> StoreState {
        StoreState {
            products: self.products@.map_values(|p: Product| p@),
            sales: self.sales@.map_values(|s: Sale| s@),
            next_product_id: self.next_product_id,
            next_sale_id: self.next_sale_id,
        }
    }
}

impl Database {
    /// An empty store with both tables created.
    pub fn new() -> (db: Self)
        ensures
            db@.wf(),
            db@.products == Seq::<ProductModel>::empty(),
            db@.sales == Seq::<SaleModel>::empty(),
            db@.next_product_id == 1,
            db@.next_sale_id == 1,
    {
        let db = Database { products: Vec::new(), sales: Vec::new(), next_product_id: 1, next_sale_id: 1 };
        proof {
            assert(db@.products =~= Seq::<ProductModel>::empty());
            assert(db@.sales =~= Seq::<SaleModel>::empty());
        }
        db
    }

    /// Index of the product row carrying `product_id`, if any.
    fn find_product(&self, product_id: u64) -> (r: Option<usize>)
        ensures
            match r {
                Some(i) => i < self@.products.len() && self@.products[i as int].id == product_id,
                None => forall|i: int|
                    0 <= i < self@.products.len() ==> (#[trigger] self@.products[i]).id
                        != product_id,
            },
    {
        let mut i: usize = 0;
        while i < self.products.len()
            invariant
                i <= self@.products.len(),
                forall|j: int|
                    0 <= j < i ==> (#[trigger] self@.products[j]).id != product_id,
            decreases self.products@.len() - i,
        {
            proof {
                assert(self@.products[i as int] == self.products@[i as int]@);
            }
            if self.products[i].id == product_id {
                return Some(i);
            }
            i = i + 1;
        }
        None
    }

    /// Whether some product row carries `sku`.
    fn sku_exists(&self, sku: &str) -> (r: bool)
        ensures
            r == self@.has_sku(sku@),
    {
        let mut i: usize = 0;
        while i < self.products.len()
            invariant
                i <= self@.products.len(),
                forall|j: int| 0 <= j < i ==> (#[trigger] self@.products[j]).sku != sku@,
            decreases self.products@.len() - i,
        {
            proof {
                assert(self@.products[i as int] == self.products@[i as int]@);
            }
            if str_eq(self.products[i].sku.as_str(), sku) {
                return true;
            }
            i = i + 1;
        }
        false
    }

    /// Insert a new product row. Accepted exactly when the SKU is not taken
    /// and the identifier space is not exhausted; the new row carries a
    /// fresh identifier and one creation timestamp in both timestamp
    /// columns.
    pub fn add_product(
        &mut self,
        sku: &str,
        name: &str,
        price_cents: u64,
        stock: u32,
        category: &str,
        barcode: &str,
    ) -> (r: Result<Product, StoreError>)
        requires
            old(self)@.wf(),
        ensures
            final(self)@.wf(),
            final(self)@.sales == old(self)@.sales,
            final(self)@.next_sale_id == old(self)@.next_sale_id,
            r is Ok <==> old(self)@.next_product_id < u64::MAX && !old(self)@.has_sku(sku@),
            r is Err ==> final(self)@ == old(self)@,
            r matches Err(e) ==> (e == StoreError::StoreFull <==> old(self)@.next_product_id
                == u64::MAX) && (e == StoreError::DuplicateSku <==> old(self)@.next_product_id
                < u64::MAX && old(self)@.has_sku(sku@)),
            r matches Ok(p) ==> {
                &&& p@.id == old(self)@.next_product_id
                &&& p@.sku == sku@
                &&& p@.name == name@
                &&& p@.price_cents == price_cents
                &&& p@.stock == stock
                &&& p@.category == category@
                &&& p@.barcode == barcode@
                &&& p@.created_at == p@.updated_at
                &&& final(self)@.products == old(self)@.products.push(p@)
                &&& final(self)@.next_product_id == old(self)@.next_product_id + 1
            },
    {
        if self.next_product_id == u64::MAX {
            return Err(StoreError::StoreFull);
        }
        if self.sku_exists(sku) {
            return Err(StoreError::DuplicateSku);
        }
        let now = crate::trusted::now_rfc3339();
        let p = Product {
            id: self.next_product_id,
            sku: sku.to_owned(),
            name: name.to_owned(),
            price_cents,
            stock,
            category: category.to_owned(),
            barcode: barcode.to_owned(),
            created_at: now.clone(),
            updated_at: now,
        };
        let ret = p.clone();
        let ghost prev = self@;
        let ghost pv = p@;
        self.products.push(p);
        self.next_product_id = self.next_product_id + 1;
        proof {
            assert(self@.products =~= prev.products.push(pv));
            assert(self@.sales =~= prev.sales);
            assert(forall|i: int| 0 <= i < prev.products.len() ==> self@.products[i] == prev.products[i]);
            assert(self@.products[prev.products.len() as int] == pv);
        }
        Ok(ret)
    }

    /// Snapshot of the products table, newest row first.
    pub fn get_products(&self) -> (r: Vec<Product>)
        ensures
            r@.map_values(|p: Product| p@) == self@.products.reverse(),
    {
        let len = self.products.len();
        let mut r: Vec<Product> = Vec::new();
        let mut i: usize = 0;
        proof {
            assert(r@.map_values(|p: Product| p@) =~= self@.products.reverse().take(0));
        }
        while i < len
            invariant
                i <= len,
                len == self@.products.len(),
                r@.map_values(|p: Product| p@) == self@.products.reverse().take(i as int),
            decreases len - i,
        {
            let ghost prev = r@;
            proof {
                assert(self@.products[len - 1 - i as int] == self.products@[len - 1 - i as int]@);
            }
            r.push(self.products[len - 1 - i].clone());
            proof {
                assert(r@.map_values(|p: Product| p@) =~= prev.map_values(|p: Product| p@).push(
                    self@.products[len - 1 - i as int],
                ));
                assert(self@.products.reverse().take(i + 1) =~= self@.products.reverse().take(
                    i as int,
                ).push(self@.products.reverse()[i as int]));
                assert(self@.products.reverse()[i as int] == self@.products[len - 1 - i as int]);
            }
            i = i + 1;
        }
        proof {
            assert(self@.products.reverse().take(len as int) =~= self@.products.reverse());
        }
        r
    }

    /// Record a sale of `quantity` units of the product carrying
    /// `product_id`: accepted exactly when the product exists, the
    /// identifier space is not exhausted and the stock suffices; the sale
    /// row carries the product's price, the exact total in cents, and the
    /// product's stock is decremented in the same step.
    pub fn process_sale(&mut self, product_id: u64, quantity: u32, customer_name: &str) -> (r:
        Result<Sale, StoreError>)
        requires
            old(self)@.wf(),
        ensures
            final(self)@.wf(),
            final(self)@.next_product_id == old(self)@.next_product_id,
            r is Ok <==> old(self)@.has_product(product_id) && old(self)@.next_sale_id < u64::MAX
                && old(self)@.products[old(self)@.product_index(product_id)].stock >= quantity,
            r is Err ==> final(self)@ == old(self)@,
            r matches Err(e) ==> (e == StoreError::ProductNotFound <==> !old(self)@.has_product(
                product_id,
            )) && (e == StoreError::StoreFull <==> old(self)@.has_product(product_id) && old(
                self,
            )@.next_sale_id == u64::MAX) && (e == StoreError::InsufficientStock <==> old(
                self,
            )@.has_product(product_id) && old(self)@.next_sale_id < u64::MAX && old(
                self,
            )@.products[old(self)@.product_index(product_id)].stock < quantity) && e
                != StoreError::DuplicateSku,
            r matches Ok(sale) ==> {
                let i = old(self)@.product_index(product_id);
                let p = old(self)@.products[i];
                &&& sale@.id == old(self)@.next_sale_id
                &&& sale@.product_id == product_id
                &&& sale@.quantity == quantity
                &&& sale@.price_cents == p.price_cents
                &&& sale@.total_cents == p.price_cents * quantity
                &&& final(self)@.sales == old(self)@.sales.push(sale@)
                &&& final(self)@.products == old(self)@.products.update(
                    i,
                    (ProductModel { stock: (p.stock - quantity) as u32, ..p }),
                )
                &&& final(self)@.next_sale_id == old(self)@.next_sale_id + 1
            },
    {
        let found = self.find_product(product_id);
        match found {
            None => Err(StoreError::ProductNotFound),
            Some(i) => {
                proof {
                    assert(self@.has_product(product_id));
                    let ci = self@.product_index(product_id);
                    assert(0 <= ci < self@.products.len() && self@.products[ci].id == product_id);
                    if ci != i {
                        assert(self@.products[ci].id != self@.products[i as int].id);
                    }
                }
                if self.next_sale_id == u64::MAX {
                    return Err(StoreError::StoreFull);
                }
                proof {
                    assert(self@.products[i as int] == self.products@[i as int]@);
                }
                if self.products[i].stock < quantity {
                    return Err(StoreError::InsufficientStock);
                }
                let price = self.products[i].price_cents;
                proof {
                    assert((price as u128) * (quantity as u128) <= (u64::MAX as u128) * (
                    u32::MAX as u128)) by (nonlinear_arith)
                        requires
                            price <= u64::MAX,
                            quantity <= u32::MAX,
                    ;
                }
                let total: u128 = (price as u128) * (quantity as u128);
                let now = crate::trusted::now_rfc3339();
                let sale = Sale {
                    id: self.next_sale_id,
                    product_id,
                    quantity,
                    price_cents: price,
                    total_cents: total,
                    customer_name: customer_name.to_owned(),
                    timestamp: now,
                };
                let ret = sale.clone();
                let ghost prev = self@;
                let ghost salev = sale@;
                self.sales.push(sale);
                let new_stock = self.products[i].stock - quantity;
                let updated = Product {
                    id: self.products[i].id,
                    sku: self.products[i].sku.clone(),
                    name: self.products[i].name.clone(),
                    price_cents: self.products[i].price_cents,
                    stock: new_stock,
                    category: self.products[i].category.clone(),
                    barcode: self.products[i].barcode.clone(),
                    created_at: self.products[i].created_at.clone(),
                    updated_at: self.products[i].updated_at.clone(),
                };
                let ghost updatedv = updated@;
                self.products[i] = updated;
                self.next_sale_id = self.next_sale_id + 1;
                proof {
                    assert(self@.sales =~= prev.sales.push(salev));
                    assert(self@.products =~= prev.products.update(i as int, updatedv));
                    assert(updatedv == (ProductModel {
                        stock: (prev.products[i as int].stock - quantity) as u32,
                        ..prev.products[i as int]
                    }));
                    assert(forall|k: int|
                        0 <= k < prev.sales.len() ==> self@.sales[k] == prev.sales[k]);
                    assert(self@.sales[prev.sales.len() as int] == salev);
                    assert(forall|j: int|
                        0 <= j < prev.products.len() && j != i ==> self@.products[j]
                            == prev.products[j]);
                    assert forall|k: int| 0 <= k < self@.sales.len() implies exists|j: int|
                        0 <= j < self@.products.len() && (#[trigger] self@.sales[k]).product_id
                            == self@.products[j].id by {
                        if k < prev.sales.len() {
                            let j0 = choose|j0: int|
                                0 <= j0 < prev.products.len() && prev.sales[k].product_id
                                    == prev.products[j0].id;
                            assert(self@.products[j0].id == prev.products[j0].id);
                        } else {
                            assert(self@.products[i as int].id == product_id);
                        }
                    }
                }
                Ok(ret)
            },
        }
    }
}

} // verus!
