//! A batch reconciliation engine: it consumes an ordered stream of
//! transaction records, applies them to per-client accounts under a
//! dispute lifecycle, and produces a deterministic balance snapshot.

pub mod amount;
pub mod errors;
pub mod accounts;
pub mod engine;
pub mod ledger;
pub mod render;
