//! A brokerage ledger: cash and investment accounts, an append-only
//! transaction log, average-cost holdings, and the decisions a broker makes
//! around them, each with a machine-checked contract.
//!
//! Money is counted in whole minor currency units and holdings in whole
//! tradable units, so every formula is exact integer arithmetic.

pub mod bank;
pub mod time;
pub mod brokerage;
pub mod utils;
