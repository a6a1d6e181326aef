use vstd::prelude::*;

verus! {

/// Everything that can make an operation of this library fail.
#[derive(Clone, Copy, Debug, PartialEq, Eq, Structural)]
pub enum ContractError {
    /// A checkpoint index lies outside the retained part of the queue.
    IndexOutOfBounds,
    /// No checkpoint has been completed so far.
    NoCompletedCheckpoints,
    /// The batch with the given position is missing from a checkpoint.
    MissingBatch,
    /// A batch that must hold a transaction holds none.
    MissingTransaction,
    /// The reserve output is missing from the checkpoint transaction.
    MissingReserveOutput,
    /// The transaction has no input at this position.
    InputIndexOutOfBounds(usize),
    /// A signing threshold is a ratio with denominator zero.
    InvalidThreshold,
    /// The script is no redeem script of a signatory set for the threshold.
    InvalidScript,
    /// A script cannot be built for a signatory set without members.
    EmptySignatorySet,
    /// The extended public key is malformed or cannot be derived at the index.
    KeyDerivation,
    /// The public key holds no slot in the threshold signature.
    NotASignatory,
    /// The slot of this public key is already filled.
    AlreadySigned,
    /// The signature does not verify against the message and the public key.
    InvalidSignature,
    /// A stored signature cannot be encoded for a witness.
    SignatureEncoding,
    /// The signatory supplied fewer signatures than inputs await from it.
    NotEnoughSignatures,
    /// The signatory supplied more signatures than inputs await from it.
    ExcessSignatures,
    /// Signatures were submitted to a checkpoint that is still being built.
    StillBuilding,
    /// The checkpoint is not in the `Building` state.
    NotBuilding,
    /// The fee exceeds the value of the outputs.
    BitcoinFee(u64),
    /// Inputs do not cover outputs and miner fee.
    InsufficientReserve,
    /// The disbursal outputs exceed the reserve value.
    DisbursalExceedsReserve,
    /// The signature digest of an input could not be computed.
    Sighash,
    /// An account named by the recovery registry has no balance entry.
    AccountNotFound,
    /// The account holds less than the amount to withdraw.
    InsufficientFunds,
    /// A sum, product or counter left the range of its type.
    Overflow,
}

/// The outcome of an operation that can fail.
pub type ContractResult<T> = Result<T, ContractError>;

/// Whether `r` is the outcome `expected`: the same error, or a value whose
/// view is the expected one.
pub open spec fn yields<T: View>(r: Result<T, ContractError>, expected: Result<T::V, ContractError>) -> bool {
    match r {
        Ok(v) => expected == Ok::<T::V, ContractError>(v@),
        Err(e) => expected == Err::<T::V, ContractError>(e),
    }
}

/// Whether a change from `before` to `after` that reported `r` is the
/// outcome `expected`: on success the expected new value, on failure the
/// same error with nothing changed.
pub open spec fn moves<V>(
    r: Result<(), ContractError>,
    before: V,
    after: V,
    expected: Result<V, ContractError>,
) -> bool {
    match r {
        Ok(()) => expected == Ok::<V, ContractError>(after),
        Err(e) => expected == Err::<V, ContractError>(e) && after == before,
    }
}

} // verus!
