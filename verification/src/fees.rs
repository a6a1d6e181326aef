//! What users are charged towards the miner fees of a checkpoint.

use vstd::prelude::*;
use crate::checkpoint::{Checkpoint, CheckpointView};
use crate::error::{ContractError, ContractResult};

verus! {

/// The bytes that an input takes besides its witness.
pub const INPUT_OVERHEAD: u64 = 40;

/// The bytes that an output takes besides its script.
pub const OUTPUT_OVERHEAD: u64 = 9;

/// The unit of the user fee factor: one in ten thousand.
pub const BASIS_POINTS: u64 = 10_000;

/// What a user is charged for `size` virtual bytes at `fee_rate` satoshis a
/// byte: the miner fee times `user_fee_factor`, which is in basis points,
/// rounded down. The product must fit in 64 bits.
pub open spec fn user_fee(size: int, fee_rate: u64, user_fee_factor: u64) -> Result<
    u64,
    ContractError,
> {
    if size * fee_rate * user_fee_factor <= u64::MAX {
        Ok((size * fee_rate * user_fee_factor / 10_000) as u64)
    } else {
        Err(ContractError::Overflow)
    }
}

impl CheckpointView {
    /// What a deposit to the checkpoint is charged: the fee for the input
    /// that spends it.
    pub open spec fn deposit_fees(self, user_fee_factor: u64) -> Result<u64, ContractError> {
        user_fee(self.sigset.est_witness_vsize() + INPUT_OVERHEAD, self.fee_rate, user_fee_factor)
    }

    /// What a withdrawal from the checkpoint to a script of `script_len`
    /// bytes is charged: the fee for its output.
    pub open spec fn withdrawal_fees(self, script_len: u64, user_fee_factor: u64) -> Result<
        u64,
        ContractError,
    > {
        user_fee(OUTPUT_OVERHEAD + script_len, self.fee_rate, user_fee_factor)
    }
}

/// The fee for `size` bytes where the rate and the factor are above zero.
fn charge(size: u64, fee_rate: u64, user_fee_factor: u64) -> (r: ContractResult<u64>)
    requires
        fee_rate > 0,
        user_fee_factor > 0,
    ensures
        r == user_fee(size as int, fee_rate, user_fee_factor),
{
    match size.checked_mul(fee_rate) {
        None => {
            assert(size * fee_rate * user_fee_factor >= size * fee_rate) by (nonlinear_arith)
                requires
                    size * fee_rate >= 0,
                    user_fee_factor >= 1,
            ;
            Err(ContractError::Overflow)
        },
        Some(fee) => match fee.checked_mul(user_fee_factor) {
            None => Err(ContractError::Overflow),
            Some(total) => Ok(total / BASIS_POINTS),
        },
    }
}

/// The fee where the size is beyond 64 bits.
proof fn lemma_beyond(size: int, fee_rate: u64, user_fee_factor: u64)
    requires
        size > u64::MAX,
        fee_rate > 0,
        user_fee_factor > 0,
    ensures
        user_fee(size, fee_rate, user_fee_factor) == Err::<u64, _>(ContractError::Overflow),
{
    assert(size * fee_rate * user_fee_factor >= size) by (nonlinear_arith)
        requires
            size >= 0,
            fee_rate >= 1,
            user_fee_factor >= 1,
    ;
}

/// Nothing is charged at the rate zero or with the factor zero.
proof fn lemma_free(size: int, fee_rate: u64, user_fee_factor: u64)
    requires
        fee_rate == 0 || user_fee_factor == 0,
    ensures
        user_fee(size, fee_rate, user_fee_factor) == Ok::<u64, ContractError>(0),
{
    assert(size * fee_rate * user_fee_factor == 0) by (nonlinear_arith)
        requires
            fee_rate == 0 || user_fee_factor == 0,
    ;
}

/// What a deposit is charged whose input takes `input_vsize` virtual bytes.
pub fn minimum_deposit_fees(input_vsize: u64, fee_rate: u64, user_fee_factor: u64) -> (r:
    ContractResult<u64>)
    ensures
        r == user_fee(input_vsize as int, fee_rate, user_fee_factor),
{
    if fee_rate == 0 || user_fee_factor == 0 {
        proof {
            lemma_free(input_vsize as int, fee_rate, user_fee_factor);
        }
        return Ok(0);
    }
    charge(input_vsize, fee_rate, user_fee_factor)
}

/// What a withdrawal is charged whose script takes `script_len` bytes.
pub fn minimum_withdrawal_fees(script_len: u64, fee_rate: u64, user_fee_factor: u64) -> (r:
    ContractResult<u64>)
    ensures
        r == user_fee(OUTPUT_OVERHEAD + script_len, fee_rate, user_fee_factor),
{
    if fee_rate == 0 || user_fee_factor == 0 {
        proof {
            lemma_free(OUTPUT_OVERHEAD + script_len, fee_rate, user_fee_factor);
        }
        return Ok(0);
    }
    match script_len.checked_add(OUTPUT_OVERHEAD) {
        Some(size) => charge(size, fee_rate, user_fee_factor),
        None => {
            proof {
                lemma_beyond(OUTPUT_OVERHEAD + script_len, fee_rate, user_fee_factor);
            }
            Err(ContractError::Overflow)
        },
    }
}

impl Checkpoint {
    /// What a deposit to the checkpoint is charged in miner fees.
    pub fn deposit_fees(&self, user_fee_factor: u64) -> (r: ContractResult<u64>)
        ensures
            r == self@.deposit_fees(user_fee_factor),
    {
        if self.fee_rate == 0 || user_fee_factor == 0 {
            proof {
                lemma_free(
                    self@.sigset.est_witness_vsize() + INPUT_OVERHEAD,
                    self.fee_rate,
                    user_fee_factor,
                );
            }
            return Ok(0);
        }
        let size = match self.sigset.est_witness_vsize() {
            Ok(witness) => witness.checked_add(INPUT_OVERHEAD),
            Err(_) => None,
        };
        match size {
            Some(size) => charge(size, self.fee_rate, user_fee_factor),
            None => {
                proof {
                    lemma_beyond(
                        self@.sigset.est_witness_vsize() + INPUT_OVERHEAD,
                        self.fee_rate,
                        user_fee_factor,
                    );
                }
                Err(ContractError::Overflow)
            },
        }
    }

    /// What a withdrawal from the checkpoint to a script of `script_len`
    /// bytes is charged in miner fees.
    pub fn withdrawal_fees(&self, script_len: u64, user_fee_factor: u64) -> (r: ContractResult<u64>)
        ensures
            r == self@.withdrawal_fees(script_len, user_fee_factor),
    {
        minimum_withdrawal_fees(script_len, self.fee_rate, user_fee_factor)
    }
}

} // verus!
