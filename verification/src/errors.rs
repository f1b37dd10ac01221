//! Typed errors of the protocol: a closed taxonomy, so that every failure is
//! caller-visible with its category.

use vstd::prelude::*;

verus! {

/// Errors of the protocol operations.
#[derive(Debug, Clone, PartialEq, Eq)]
pub enum LelantusError {
    /// A JoinSplit was given fewer than 1 or more than 16 inputs.
    InvalidInputCount,
    /// A JoinSplit was given fewer than 1 or more than 2 outputs.
    InvalidOutputCount,
    /// The inputs of a JoinSplit do not equal its outputs plus fee, an
    /// amount is zero or over the per-coin ceiling, a sum overflowed, or
    /// the fee is over its ceiling.
    BalanceMismatch,
    /// A value is outside the committable range, or supplied randomness has
    /// the wrong length.
    InvalidCommitment,
    /// A witness is structurally malformed, its authentication tag does not
    /// match, or its recovered amount is invalid.
    InvalidWitness,
    /// A proof is structurally malformed.
    InvalidProof,
    /// A proof did not verify where a typed error is expected.
    ProofVerificationFailed,
    /// An accumulator operation failed, with context.
    AccumulatorError(String),
    /// Encoding or decoding failed, with context.
    SerializationError(String),
    /// A cryptographic operation failed, with context.
    CryptoError(String),
    /// A parameter is outside its permitted range.
    InvalidParameter,
    /// A witness was not found in the cache.
    WitnessNotFound,
    /// A range proof operation failed, with context.
    RangeProofError(String),
    /// A knowledge proof operation failed, with context.
    ZKProofError(String),
}

} // verus!
