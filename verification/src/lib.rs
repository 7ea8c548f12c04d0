//! A single-node, development-mode blockchain simulator.
//!
//! The crate models a small Ethereum-compatible chain: a coordinator that
//! validates signed transactions and commits each one into its own block, a
//! read-only simulation path, a mock key manager with a confidential storage
//! wrapper, and a publish/subscribe notification hub.
//!
//! Transaction execution itself (the EVM-equivalent engine) is an external
//! collaborator: the coordinator validates a submission, hands the prepared
//! transaction out, and commits the outcome the engine reports.
use vstd::prelude::*;

pub mod blockchain;
pub mod bytes;
pub mod confidential;
pub mod crypto;
pub mod keymanager;
pub mod pubsub;
pub mod rlp;
pub mod storage;
pub mod tx;
pub mod util;

verus! {

/// Gas limit of every block of the simulated chain.
pub const BLOCK_GAS_LIMIT: u64 = 16_000_000;

/// Lowest accepted gas price, in Gwei.
pub const MIN_GAS_PRICE_GWEI: u64 = 1;

/// Lowest accepted gas price, in wei: one Gwei.
pub const MIN_GAS_PRICE_WEI: u64 = 1_000_000_000;

} // verus!
