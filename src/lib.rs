//! Throughput accounting for a byte relay: a per-second ledger of bytes moved,
//! a trailing-window rate query, and base-1024 unit selection for display.

pub mod speed;
pub mod ledger;
pub mod report;
