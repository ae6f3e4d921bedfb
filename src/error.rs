//! The failures that operations of this library report.

use vstd::prelude::*;

verus! {

/// What went wrong, by kind.
#[derive(Debug, Clone, Copy, PartialEq, Eq, Structural)]
pub enum KnapError {
    /// There was nothing to chunk.
    EmptyInput,
    /// A chunk names a video that the store does not know.
    DanglingReference,
    /// A payload's digest differs from the identifier it is stored under,
    /// or a different payload is already stored under that identifier.
    HashMismatch,
    /// The key is absent from the local store.
    NotFound,
    /// A payload received from a peer failed verification.
    IntegrityViolation,
    /// No response came within the deadline.
    TimedOut,
    /// Discovery and retries were exhausted.
    Unreachable,
    /// The overlay could not be joined or queried at all.
    OverlayUnavailable,
}

impl KnapError {
    /// The name of the failure's kind.
    pub fn kind_name(&self) -> (r: &'static str)
        ensures
            *self == KnapError::EmptyInput ==> r@ == "EmptyInput"@,
            *self == KnapError::DanglingReference ==> r@ == "DanglingReference"@,
            *self == KnapError::HashMismatch ==> r@ == "HashMismatch"@,
            *self == KnapError::NotFound ==> r@ == "NotFound"@,
            *self == KnapError::IntegrityViolation ==> r@ == "IntegrityViolation"@,
            *self == KnapError::TimedOut ==> r@ == "TimedOut"@,
            *self == KnapError::Unreachable ==> r@ == "Unreachable"@,
            *self == KnapError::OverlayUnavailable ==> r@ == "OverlayUnavailable"@,
    {
        match self {
            KnapError::EmptyInput => "EmptyInput",
            KnapError::DanglingReference => "DanglingReference",
            KnapError::HashMismatch => "HashMismatch",
            KnapError::NotFound => "NotFound",
            KnapError::IntegrityViolation => "IntegrityViolation",
            KnapError::TimedOut => "TimedOut",
            KnapError::Unreachable => "Unreachable",
            KnapError::OverlayUnavailable => "OverlayUnavailable",
        }
    }

    /// Whether the failure concerns integrity (the data was wrong) rather than
    /// availability (the data could not be had).
    pub fn is_integrity_failure(&self) -> (r: bool)
        ensures
            r == (*self == KnapError::HashMismatch || *self == KnapError::IntegrityViolation),
    {
        match self {
            KnapError::HashMismatch | KnapError::IntegrityViolation => true,
            _ => false,
        }
    }
}

} // verus!
