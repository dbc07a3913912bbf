//! What can go wrong while proving or verifying.

use vstd::prelude::*;

verus! {

/// A failure that aborts the current call. None of them means "the proof is
/// invalid": that is the `false` of a verdict.
#[derive(Clone, Copy, Debug, PartialEq, Eq, Structural)]
pub enum Failure {
    /// The witness is shorter than the circuit's counts say, the circuit
    /// declares no instance variable at all, or an entry of the witness as it
    /// was read is no decimal numeral.
    MalformedWitness,
    /// A domain of the needed size does not exist in this field.
    DomainTooLarge,
    /// The instance domain is larger than the constraint domain.
    DomainMismatch,
    /// Dividing the blinded witness polynomial left a remainder.
    NonZeroRemainder,
    /// Randomness, witness or matrix do not have the lengths that the
    /// configuration fixes.
    MismatchedLengths,
    /// A randomness value lies outside `[1, 256]`.
    RandomnessOutOfRange,
    /// The commitment scheme refused the polynomial.
    Commitment,
    /// The base protocol could not run on what it was given.
    BaseProtocol,
}

} // verus!
