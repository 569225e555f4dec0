//! Ledger configuration.

use vstd::prelude::*;

verus! {

/// Offset under which a macro block is stored within its epoch; greater than
/// any micro-block offset, so that the macro block of an epoch sorts last.
pub const MACRO_BLOCK_OFFSET: u32 = 4294967295;

/// Parameters of the chain.
#[derive(Clone, Copy, PartialEq, Eq, Structural, Debug)]
pub struct ChainConfig {
    /// Maximal number of slots for election.
    pub max_slot_count: i64,
    /// Minimal stake amount.
    pub min_stake_amount: i64,
    /// How many epochs stake is valid.
    pub stake_epochs: u64,
    /// The number of micro blocks per epoch.
    pub micro_blocks_in_epoch: u32,
    /// Difficulty in bits of the service-award draw.
    pub awards_difficulty: usize,
    /// Block reward for creating a block.
    pub block_reward: i64,
    /// Service-award part of the block reward, paid into the pool each epoch.
    pub service_award_per_epoch: i64,
}

impl ChainConfig {
    /// The bounds every usable configuration satisfies.
    pub open spec fn valid(self) -> bool {
        &&& 0 < self.max_slot_count <= 1000000
        &&& 0 < self.min_stake_amount
        &&& 0 < self.micro_blocks_in_epoch < MACRO_BLOCK_OFFSET
        &&& self.stake_epochs < 0x100000000
        &&& self.awards_difficulty < 64
        &&& 0 <= self.block_reward
        &&& 0 <= self.service_award_per_epoch
    }

    /// Executable twin of [`ChainConfig::valid`].
    pub fn is_valid(&self) -> (r: bool)
        ensures
            r == self.valid(),
    {
        0 < self.max_slot_count && self.max_slot_count <= 1000000 && 0 < self.min_stake_amount
            && 0 < self.micro_blocks_in_epoch && self.micro_blocks_in_epoch < MACRO_BLOCK_OFFSET
            && self.stake_epochs < 0x100000000 && self.awards_difficulty < 64
            && 0 <= self.block_reward && 0 <= self.service_award_per_epoch
    }
}

impl Default for ChainConfig {
    /// The stock configuration.
    fn default() -> (r: Self)
        ensures
            r.max_slot_count == 1000,
            r.min_stake_amount == 1000000000,
            r.stake_epochs == 2,
            r.micro_blocks_in_epoch == 5,
            r.awards_difficulty == 3,
            r.block_reward == 40000000,
            r.service_award_per_epoch == 100000000,
            r.valid(),
    {
        ChainConfig {
            max_slot_count: 1000,
            min_stake_amount: 1000000000,
            stake_epochs: 2,
            micro_blocks_in_epoch: 5,
            awards_difficulty: 3,
            block_reward: 40000000,
            service_award_per_epoch: 100000000,
        }
    }
}

/// Blockchain configuration, as the storage layer names it; the same
/// parameters the core's [`ChainConfig`] carries.
#[derive(Clone, Copy, PartialEq, Eq, Structural, Debug)]
pub struct BlockchainConfig {
    /// Maximal number of slots for election.
    pub max_slot_count: i64,
    /// Minimal stake amount.
    pub min_stake_amount: i64,
    /// How many epochs stake is valid.
    pub stake_epochs: u64,
    /// The number of micro blocks per epoch.
    pub micro_blocks_in_epoch: u32,
    /// Difficulty in bits of the service-award draw.
    pub awards_difficulty: usize,
    /// Block reward for creating a block.
    pub block_reward: i64,
    /// Service-award part of the block reward.
    pub service_award_per_epoch: i64,
}

impl BlockchainConfig {
    /// The same parameters as a chain configuration.
    pub fn to_chain_config(&self) -> (r: ChainConfig)
        ensures
            r.max_slot_count == self.max_slot_count,
            r.min_stake_amount == self.min_stake_amount,
            r.stake_epochs == self.stake_epochs,
            r.micro_blocks_in_epoch == self.micro_blocks_in_epoch,
            r.awards_difficulty == self.awards_difficulty,
            r.block_reward == self.block_reward,
            r.service_award_per_epoch == self.service_award_per_epoch,
    {
        ChainConfig {
            max_slot_count: self.max_slot_count,
            min_stake_amount: self.min_stake_amount,
            stake_epochs: self.stake_epochs,
            micro_blocks_in_epoch: self.micro_blocks_in_epoch,
            awards_difficulty: self.awards_difficulty,
            block_reward: self.block_reward,
            service_award_per_epoch: self.service_award_per_epoch,
        }
    }
}

impl Default for BlockchainConfig {
    /// The stock configuration.
    fn default() -> (r: Self)
        ensures
            r.max_slot_count == 1000,
            r.min_stake_amount == 1000000000,
            r.stake_epochs == 2,
            r.micro_blocks_in_epoch == 5,
            r.awards_difficulty == 3,
            r.block_reward == 40000000,
            r.service_award_per_epoch == 100000000,
    {
        BlockchainConfig {
            max_slot_count: 1000,
            min_stake_amount: 1000000000,
            stake_epochs: 2,
            micro_blocks_in_epoch: 5,
            awards_difficulty: 3,
            block_reward: 40000000,
            service_award_per_epoch: 100000000,
        }
    }
}

/// Storage configuration of the host process.
#[derive(Clone, PartialEq, Eq, Debug)]
pub struct StorageConfig {
    /// Database path.
    pub database_path: String,
}

impl Default for StorageConfig {
    /// The stock database location.
    fn default() -> (r: Self)
        ensures
            r.database_path@ == "database"@,
    {
        broadcast use vstd::string::to_string_from_display_ensures_for_str;

        StorageConfig { database_path: "database".to_string() }
    }
}

} // verus!
