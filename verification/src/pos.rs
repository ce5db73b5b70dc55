//! Point-of-sale sessions: a fresh session carries a random identifier, the
//! wall-clock start time, no end time and zeroed totals. Amounts are held in
//! cents.

use vstd::prelude::*;

verus! {

/// One register session.
pub struct POSSession {
    pub id: String,
    pub start_time: String,
    pub end_time: Option<String>,
    pub total_sales_cents: u64,
    pub total_transactions: i32,
}

/// The point-of-sale service.
pub struct POSService {
}

impl POSService {
    pub fn new() -> (s: Self) {
        POSService {  }
    }

    /// Open a fresh session: no end time, zero totals, and a 36-character
    /// random identifier.
    pub fn start_session(&self) -> (r: POSSession)
        ensures
            r.id@.len() == 36,
            r.end_time is None,
            r.total_sales_cents == 0,
            r.total_transactions == 0,
    {
        POSSession {
            id: crate::trusted::fresh_uuid(),
            start_time: crate::trusted::now_rfc3339(),
            end_time: None,
            total_sales_cents: 0,
            total_transactions: 0,
        }
    }
}

} // verus!
