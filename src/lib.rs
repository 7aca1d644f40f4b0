//! Invocation engine of a smart-contract test chain: a layered stack of change
//! frames over a persisted ledger, and the handler that drives one transaction's
//! call tree, with its nested and reentrant calls, to a committed or rolled-back end.
pub mod address;
pub mod amount;
pub mod changes;
pub mod changeset;
pub mod entries;
pub mod invocation;
pub mod laws;
pub mod types;
pub mod ledger;
