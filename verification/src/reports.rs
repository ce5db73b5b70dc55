//! Sales reporting. Aggregation is not implemented yet: a report echoes its
//! period and carries zeroed totals, and that is what is stated.

use vstd::prelude::*;

verus! {

/// Aggregate sales figures over one period. Amounts are held in cents.
pub struct SalesReport {
    pub period: String,
    pub total_sales_cents: u64,
    pub total_transactions: i32,
    pub top_products: Vec<TopProduct>,
}

/// One line of the best-seller table.
pub struct TopProduct {
    pub product_id: u64,
    pub name: String,
    pub quantity_sold: i32,
    pub revenue_cents: u64,
}

/// The reporting service.
pub struct ReportsService {
}

impl ReportsService {
    pub fn new() -> (s: Self) {
        ReportsService {  }
    }

    /// The report for `period`: the period echoed back, zero totals and no
    /// best-seller lines, until aggregation is wired to the store.
    pub fn generate_sales_report(&self, period: &str) -> (r: SalesReport)
        ensures
            r.period@ == period@,
            r.total_sales_cents == 0,
            r.total_transactions == 0,
            r.top_products@.len() == 0,
    {
        SalesReport {
            period: period.to_owned(),
            total_sales_cents: 0,
            total_transactions: 0,
            top_products: Vec::new(),
        }
    }
}

} // verus!
