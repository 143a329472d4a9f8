//! Canonicalization and identity pipeline for bank-transaction exports.
//!
//! The crate turns raw bank rows into a canonical domain model of financial
//! transactions and the nodes (accounts, sub-accounts, terminals, ATMs and
//! other counterparties) between which money moves: a content-hash identity
//! scheme, a heuristic classifier for counterparty descriptions, a
//! deduplicated date-ordered transaction store, an ownership index and a
//! node-frequency aggregator.

pub mod account;
pub mod amount;
pub mod classify;
pub mod date;
pub mod errors;
pub mod identify;
pub mod laws;
pub mod node;
pub mod owner;
pub mod patterns;
pub mod store;
pub mod summaries;
pub mod strutil;
pub mod transaction;
