//! Offline-first partner client library.
//!
//! The core is a retry-aware synchronization queue for operations produced
//! while disconnected, together with the in-memory model of the local
//! product/sales store and the pure decision logic of the surrounding
//! services (authentication fallback, update-version comparison, reporting
//! stubs). Network and persistence collaborators live outside this crate and
//! hand plain values in and out.

pub mod auth;
pub mod inventory;
pub mod pos;
pub mod reports;
pub mod store;
pub mod sync;
pub mod text;
pub mod sync_props;
pub mod trusted;
pub mod updater;
