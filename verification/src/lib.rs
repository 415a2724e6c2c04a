//! Orchestration core for migrating funds from a ternary-address legacy
//! ledger to an Ed25519-address successor ledger.
//!
//! The crate verifies address ownership, reconciles ledger data against the
//! claimed addresses, partitions inputs into dust-safe bundles, sequences the
//! build-then-sign protocol, and drives a confirmation loop with
//! reattachment.  All network traffic stays outside the crate; the functions
//! here take plain values and return plain values.

use vstd::prelude::*;

pub mod account;
pub mod addrs;
pub mod args;
pub mod bundler;
pub mod confirm;
pub mod orchestrate;
pub mod reconcile;
pub mod seeds;
pub mod text;
pub mod trytes;
pub mod verify;

verus! {

/// Minimum total balance, in base units, that a submitted bundle must carry.
pub const DUST_THRESHOLD: u64 = 1_000_000;

} // verus!
