//! A small ledger: an ordered stream of financial transactions (deposits,
//! withdrawals, disputes, resolves, chargebacks) is folded into per-client
//! account balances, with a snapshot of every account at the end.
//!
//! Monetary amounts are fixed-point integers: one unit is 1/10000 of the
//! currency, so four decimal places are represented exactly.

pub mod engine;
pub mod error;
pub mod models;
