//! Reconciles blockchain reward events — produced blocks, execution-layer
//! tips, beacon withdrawals, outgoing transfers — into one dated, priced,
//! chronologically ordered ledger, and computes its aggregate figures:
//! current balance, total realized fiat earnings, and unliquidated earnings.
//!
//! The library holds the whole reconciliation logic: normalizing raw records
//! into typed ledger entries, the day-keyed price cache and the
//! minimum-interval rate limiter that guard the external price lookup, the
//! stable chronological sort, the year filter, and the aggregation. Fetching
//! records, calling the price API, persisting the cache, and rendering
//! reports are the surrounding program's work; it hands the library plain
//! values and takes plain values back.

pub mod conversion;
pub mod dates;
pub mod parse;
pub mod processing;
pub mod report;
pub mod types;
