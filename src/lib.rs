//! A per-client ledger of deposits, withdrawals and disputes.
//!
//! Amounts are fixed-point: an `i64` counts ten-thousandths of a currency
//! unit, so every amount carries exactly four fractional digits.
pub mod amount;
pub mod transaction;
pub mod client;
pub mod registry;
pub mod laws;
