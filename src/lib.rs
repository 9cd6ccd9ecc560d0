//! A small ledger engine: accounts with fixed credit limits, credit and
//! debit transactions admitted against the limit, a bounded newest-first
//! history per account, and consistent point-in-time snapshots.

mod clock;
pub mod record;
pub mod ledger;
pub mod registry;
pub mod store;
pub mod service;
pub mod runs;
