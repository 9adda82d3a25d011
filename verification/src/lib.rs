//! An escrow-and-reward ledger for non-fungible tokens.
//!
//! Third parties deposit (stake) ownership of tokens drawn from
//! admin-approved collections; the ledger tracks custody and elapsed time,
//! and computes and disburses a proportional reward from a collection-scoped
//! pool when a token is later withdrawn and a claim is made. A single
//! privileged owner whitelists collections, funds reward pools, and collects
//! an anti-spam unstake fee.
//!
//! The host ledger runtime that invokes the entry points, persists state
//! transactionally per call, and performs custody transfers is out of scope:
//! every operation here is a pure transition on an explicit [`state::State`]
//! value, returning the outgoing instructions and events it would emit.

pub mod contract;
pub mod error;
pub mod execute;
pub mod laws;
pub mod msg;
pub mod order;
pub mod query;
pub mod reward;
pub mod state;
