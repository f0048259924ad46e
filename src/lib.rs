//! Deterministic state-transition core of a ledger: a content-addressed
//! key/value store, staged per-contract state, native account and bank
//! contracts, and the transaction executor that drives them for one epoch.

pub mod bytes;
pub mod hash;
pub mod trie;
pub mod adapter;
pub mod types;
pub mod account;
pub mod bank;
pub mod store;
pub mod fees;
pub mod context;
pub mod executor;
