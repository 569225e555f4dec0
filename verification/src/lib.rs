//! Ledger core of a proof-of-stake blockchain.
//!
//! The crate keeps an ordered log of blocks, in-memory indexes of unspent
//! outputs, validator stakes, the global monetary balance and the election
//! state, and supports rollback of tentatively applied micro-blocks.

pub mod awards;
pub mod blockchain;
pub mod block;
pub mod config;
pub mod crypto;
pub mod election;
pub mod error;
pub mod escrow;
pub mod mvm;
pub mod output;
pub mod storage;
pub mod timestamp;
