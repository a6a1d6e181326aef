use vstd::prelude::*;

verus! {

/// The fee rate of a new checkpoint, in satoshis per virtual byte.
pub const DEFAULT_FEE_RATE: u64 = 55;

/// The lowest fee rate that the adjustment reaches.
pub const MIN_FEE_RATE: u64 = 40;

/// The highest fee rate that the adjustment reaches.
pub const MAX_FEE_RATE: u64 = 1000;

/// The factor, in basis points, by which users are charged beyond the miner fee.
pub const USER_FEE_FACTOR: u64 = 27000;

/// The fee of a transfer, in millionths of a satoshi.
pub const TRANSFER_FEE: u64 = 0;

/// The least amount of a deposit, in satoshis.
pub const MIN_DEPOSIT_AMOUNT: u64 = 600;

/// The least amount of a withdrawal, in satoshis.
pub const MIN_WITHDRAWAL_AMOUNT: u64 = 600;

/// The age beyond which a checkpoint may be pruned, in seconds.
pub const MAX_CHECKPOINT_AGE: u64 = 60 * 60 * 24 * 7 * 3;

/// The longest time between two checkpoints, in seconds.
pub const MAX_CHECKPOINT_INTERVAL: u64 = 60 * 60 * 24 * 12;

/// The age beyond which a deposit is no longer honoured, in seconds.
pub const MAX_DEPOSIT_AGE: u64 = 60 * 60 * 24 * 7 * 2;

/// The numerator of the share of the weight that must sign.
pub const SIGSET_THRESHOLD_NUM: u64 = 2;

/// The denominator of the share of the weight that must sign.
pub const SIGSET_THRESHOLD_DEN: u64 = 3;

/// The number of checkpoints that pruning always leaves in the queue.
pub const MIN_CHECKPOINTS: u32 = 10;

/// The number of account units in one satoshi.
pub const UNITS_PER_SAT: u128 = 1_000_000;

/// The prefix of the storage name of a checkpoint queue.
pub const CHECKPOINT_QUEUE_ID_PREFIX: &'static str = "checkpoint";

} // verus!
