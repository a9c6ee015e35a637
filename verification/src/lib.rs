//! A verified transaction engine: per-account ledgers that apply deposits,
//! withdrawals and the three-step dispute protocol (dispute, then resolve or
//! chargeback), with machine-checked balance invariants.

pub mod account;
pub mod amount;
pub mod cli;
pub mod client_store;
pub mod errors;
pub mod laws;
pub mod transaction;
