//! A small privacy-preserving blockchain node library: signed value-transfer
//! transactions carrying zero-knowledge proof bundles, proof-of-work mining
//! over a hash-linked chain, balance derivation, snapshot persistence, and
//! the chain-replacement rule used for peer synchronisation.

use vstd::prelude::*;

pub mod hexcode;
pub mod crypto;
pub mod zk_proofs;
pub mod transaction;
pub mod wallet;
pub mod codec;
pub mod block;
pub mod blockchain;
pub mod parse;
pub mod roundtrip;

verus! {

/// Amount credited to the miner by the coinbase transaction of each block.
pub const MINING_REWARD: u64 = 50;

/// Largest number of pending transactions dequeued into one mined block.
pub const BATCH_SIZE: usize = 10;

/// Number of leading `'0'` hex characters required of a mined block's hash.
pub const DIFFICULTY: u32 = 2;

/// The error kinds reported by the fallible operations of the library.
#[derive(Clone, Copy, Debug, PartialEq, Eq, Structural)]
pub enum ChainError {
    /// A transaction whose signature is missing, malformed, or fails to verify.
    InvalidTransaction,
    /// A dequeued transaction whose zero-knowledge proof bundle fails to verify.
    InvalidProof,
    /// An attempt to sign a transaction with a key that does not match `sender`.
    WrongKey,
    /// A candidate chain that is not longer than the local one, or not
    /// structurally valid.
    ChainReplacementRejected,
    /// Proof-of-work tried every nonce without meeting the difficulty.
    /// Practically unreachable; it exists so that mining is a total
    /// function.
    MiningExhausted,
}

} // verus!
