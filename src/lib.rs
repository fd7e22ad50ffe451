//! A small proof-of-work blockchain: records and their content hashes,
//! Merkle roots, the chain engine (validation, unspent outputs, mempool,
//! difficulty and reward), the framed wire protocol, and the decision logic
//! of the node, the miner and the wallet.
use vstd::prelude::*;

pub mod u256;
pub mod hash;
pub mod crypto;
pub mod types;
pub mod merkle;
pub mod utxo;
pub mod error;
pub mod rules;
pub mod chain;
pub mod mempool;
pub mod reservations;
pub mod clock;
pub mod template;
pub mod network;
pub mod node;
pub mod miner;
pub mod wallet;

verus! {

/// Initial block reward in whole coins.
pub const INITIAL_REWARD: u64 = 50;

/// Number of satoshis in one coin.
pub const SATS_PER_COIN: u64 = 100_000_000;

/// Number of blocks between two halvings of the reward.
pub const HALVING_INTERVAL: u64 = 210;

/// Ideal time between two blocks, in seconds.
pub const IDEAL_BLOCK_TIME: u64 = 10;

/// Number of blocks between two difficulty updates.
pub const DIFFICULTY_UPDATE_INTERVAL: u64 = 50;

/// Age in seconds after which a mempool transaction is dropped.
pub const MAX_MEMPOOL_TRANSACTION_AGE: u64 = 600;

/// The initial block reward in satoshis.
pub const INITIAL_REWARD_SATS: u64 = INITIAL_REWARD * SATS_PER_COIN;

/// The time a window of blocks should take, in seconds.
pub const EXPECTED_WINDOW_TIME: u64 = DIFFICULTY_UPDATE_INTERVAL * IDEAL_BLOCK_TIME;

/// Observed window times are taken as at least a quarter of the expected one.
pub const MIN_WINDOW_TIME: u64 = EXPECTED_WINDOW_TIME / 4;

/// Observed window times are taken as at most four times the expected one.
pub const MAX_WINDOW_TIME: u64 = EXPECTED_WINDOW_TIME * 4;

/// Largest number of mempool transactions put into a block template.
pub const BLOCK_TRANSACTION_CAP: usize = 20;

} // verus!
