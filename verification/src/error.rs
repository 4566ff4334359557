//! The ways in which an operation of the protocol can fail.

use vstd::prelude::*;

verus! {

/// Why an operation was refused. Every error is final for the operation that
/// returned it; the only trace one leaves behind is the aggregator's mark of
/// a dealer whose justification failed.
#[derive(Clone, Copy, Debug, PartialEq, Eq, Structural)]
pub enum VssError {
    /// The threshold is below 2 or above the number of verifiers.
    InvalidThreshold,
    /// No chunk of the hash stream decodes to a group element.
    HashToPoint,
    /// An index does not name a verifier.
    IndexOutOfBounds,
    /// A deal is addressed to another verifier than the one that opened it.
    WrongIndex,
    /// A session identifier differs from the one of the run.
    SessionIdMismatch,
    /// A response from the same verifier is already recorded.
    DuplicateResponse,
    /// A signature is not accepted under the expected public key.
    BadSignature,
    /// The cipher admits no message of this length.
    EncryptionFailed,
    /// The ciphertext does not open under the derived key.
    DecryptionFailed,
    /// The decrypted bytes are not the encoding of a deal.
    MalformedDeal,
    /// The verifier has already received a deal in this run.
    DealAlreadyReceived,
    /// The secret share and the blinding share of a deal differ in index.
    ShareIndexMismatch,
    /// A commitment is not the encoding of a group element.
    InvalidCommitment,
    /// The shares do not match the commitments.
    ShareDoesNotVerify,
    /// A justification arrived for an index that has no response.
    NoComplaint,
    /// A justification arrived for an index that has approved.
    JustificationForApproval,
    /// The deal is not certified.
    NotCertified,
    /// The verifier's public key is not in the list of verifiers.
    KeyNotFound,
    /// Fewer shares than the threshold.
    NotEnoughShares,
    /// The shares admit no interpolation: a denominator vanishes, as it does
    /// when two shares have one index.
    DegenerateShares,
}

} // verus!
