//! An in-memory ledger of named accounts, each holding a spendable balance
//! and an outstanding debt. Deposits retire debt before crediting the
//! balance, withdrawals are bounded by the balance, and loans are capped by
//! a fixed per-account debt ceiling.

pub mod actions;
pub mod models;
