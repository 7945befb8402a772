//! A verified ledger for client accounts.
//!
//! The crate folds an ordered stream of transactions (deposit, withdrawal,
//! dispute, resolve, chargeback) into per-client account states, enforcing
//! the dispute-resolution lifecycle and the balance invariants
//! `total == available + held` and `held >= 0`.
//!
//! Monetary values are fixed-precision decimals held as a signed count of
//! ten-thousandths (four fractional digits), so all balance arithmetic is
//! exact integer arithmetic; see `amount`.

pub mod accounts;
pub mod amount;
pub mod config;
pub mod decimal;
pub mod generate;
pub mod transactions;
