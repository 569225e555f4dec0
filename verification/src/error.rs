//! Errors of the ledger.

use vstd::prelude::*;

use crate::crypto::Digest;
use crate::crypto::NetworkKey;

verus! {

/// Failures of the block log.
#[derive(Clone, Copy, PartialEq, Eq, Structural, Debug)]
pub enum StorageError {
    /// No block is stored at the given epoch and offset.
    MissingBlock(u64, u32),
}

/// Violations of per-transaction invariants.
#[derive(Clone, Copy, PartialEq, Eq, Structural, Debug)]
pub enum TransactionError {
    /// The transaction spends an output the ledger does not hold.
    MissingInput(Digest),
    /// The transaction spends the same output twice.
    DuplicateInput(Digest),
}

/// Violations of per-block invariants.
#[derive(Clone, Copy, PartialEq, Eq, Structural, Debug)]
pub enum BlockError {
    /// The block does not continue the current chain: expected epoch and
    /// offset, then the block's epoch and offset.
    OutOfOrderBlock(u64, u32, u64, u32),
    /// The block names a previous hash other than the current last one:
    /// epoch, the block's previous hash, the expected one.
    InvalidPreviousHash(u64, Digest, Digest),
    /// The block's timestamp does not advance the chain: epoch, the block's
    /// timestamp in milliseconds, the last one.
    OutOfOrderTimestamp(u64, u64, u64),
    /// A block with this hash is already indexed.
    BlockHashCollision(u64, Digest),
    /// An output with this hash is already indexed.
    OutputHashCollision(u64, Digest),
    /// The block's version word is not the current one.
    InvalidBlockVersion(u64, u64),
    /// The block's aggregates violate the monetary balance equation.
    InvalidBlockBalance(u64, Digest),
    /// The block's reward differs from the expected full reward: epoch,
    /// stated reward, expected reward.
    InvalidBlockReward(u64, i64, i64),
    /// The activity map has more bits than the epoch has validators.
    TooBigActivitymap(usize, usize),
    /// A micro block appears beyond the last offset of its epoch.
    EpochIsFull(u64, u32),
    /// A transaction kind that this block kind cannot carry.
    UnexpectedTransactionType(u64, u32),
    /// The epoch counter can no longer be advanced.
    EpochOverflow(u64),
    /// An epoch-start validator has no account key in the escrow.
    MissingValidatorAccount(u64),
}

/// Any error the ledger reports.
#[derive(Clone, Copy, PartialEq, Eq, Structural, Debug)]
pub enum BlockchainError {
    /// The stored chain does not start with the expected genesis block:
    /// the expected genesis hash, then the stored one.
    IncompatibleGenesis(Digest, Digest),
    /// A stake cannot be spent yet: validator, the balance the validator
    /// would keep, and the still-locked balance it must keep.
    StakeIsLocked(NetworkKey, i64, i64),
    /// The block log failed.
    StorageError(StorageError),
    /// A block violated a structural invariant.
    BlockError(BlockError),
    /// A transaction violated a structural invariant.
    TransactionError(TransactionError),
}

} // verus!
