//! The owned-coin ledger of a lightweight wallet: which outputs belong to the
//! wallet, which of them a block confirms, and which to spend.
//!
//! - `types`: output references, outputs, coins, transactions, blocks, proofs.
//! - `entries`: sequences of keyed entries and the maps they stand for.
//! - `ledger`: the ledger itself, its rules, and the operations that keep them.
//! - `scan`: scanning blocks and unconfirmed transactions for the wallet's outputs.
//! - `selection`: choosing confirmed coins to spend.
//! - `laws`: properties that relate several operations.

pub mod entries;
pub mod laws;
pub mod ledger;
pub mod scan;
pub mod selection;
pub mod types;
