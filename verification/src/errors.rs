//! Error taxonomy of the DKG.

use vstd::prelude::*;

verus! {

/// Protocol-level faults of the DKG ceremony.
///
/// The first three double as the publicly broadcast reason attached to a
/// complaint against a misbehaving dealer.
#[derive(Clone, Copy, Debug, PartialEq, Eq, Structural)]
pub enum DkgError {
    /// A supplied round-1 item names a recipient other than this member.
    FetchedInvalidData,
    /// Decryption produced bytes that do not decode to a canonical scalar.
    ScalarOutOfBounds,
    /// The Pedersen check on a decrypted share failed.
    ShareValidityFailed,
    /// Fewer than `threshold` honest members would remain.
    MisbehaviourHigherThreshold,
    /// A received complaint or finalisation proof fails verification.
    InvalidProof,
    /// A finalise-time invariant was violated.
    InconsistentMasterKey,
}

/// Faults of the zero-knowledge-proof layer.
#[derive(Clone, Copy, Debug, PartialEq, Eq, Structural)]
pub enum ProofError {
    /// The proof's arithmetic checks fail.
    InvalidProof,
}

} // verus!
