//! A replicated, sharded key-value store core: a lease-based leader-election
//! state machine, a quorum-acknowledged replication log, and a router that
//! keeps the keyspace partitioned into ranges.
//!
//! The transport layer (sockets, wire encoding) and the on-disk storage engine
//! are collaborators outside this crate: they hand in decoded messages and
//! plain values, and take outbound envelopes and committed entries back.
//!
//! The safety arguments live beside the code they govern: election safety
//! and log completeness in [`consensus`] (`lemma_election_safety`,
//! `lemma_vote_exclusive`, `lemma_log_completeness`), quorum commit in
//! [`log`] (the contract of `AckedLog::ack` and `lemma_committed_once`),
//! lease monotonicity in the contracts of `Consensus::on_vote_response`, and
//! the keyspace partition in [`server`] (`lemma_unique_owner`,
//! `lemma_contiguous_cover`).

pub mod keys;
pub mod msg;
pub mod consensus;
pub mod log;
pub mod range;
pub mod bootstrap;
pub mod server;
pub mod ident;

use vstd::prelude::*;

verus! {

/// How long a leadership, candidacy, or followership lease lasts,
/// in milliseconds, before it lapses absent renewal.
pub const LEASE_DURATION_MS: u64 = 1000;

} // verus!
