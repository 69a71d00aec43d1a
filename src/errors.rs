//! The errors that the proof-system contract reports.
use vstd::prelude::*;

verus! {

/// Every way in which setup, proving or verification can fail.
#[derive(Debug, Clone, Copy, PartialEq, Eq, Structural)]
pub enum NovaError {
    /// Instance or witness dimensions disagree with the constraint-system shape.
    ShapeMismatch,
    /// The commitment key holds fewer generators than the shape needs.
    KeyTooSmall,
    /// The witness does not satisfy the relaxed R1CS equation of the instance.
    UnsatisfiedRelation,
    /// No keys can be derived from the given shape and commitment key.
    SetupFailure,
    /// A proof does not check against its instance and verifier key.
    VerificationFailure,
}

} // verus!
