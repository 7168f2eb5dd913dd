//! Failures of the name-derivation pipeline.

use vstd::prelude::*;

verus! {

/// A failure of the name-derivation pipeline.
#[derive(Clone, Copy, Debug, PartialEq, Eq, Structural)]
pub enum BranchNameError {
    /// The override prefix sanitized to the empty string.
    EmptyOverridePrefix,
    /// The system identity sanitized to the empty string.
    EmptyIdentityPrefix,
    /// The candidate and every numbered variant of it are taken.
    SuffixesExhausted,
}

impl BranchNameError {
    /// A description of the failure, for the caller to surface.
    pub fn message(&self) -> (r: &'static str)
        ensures
            *self == BranchNameError::EmptyOverridePrefix ==> r@ == "prefix override is empty or invalid after sanitization"@,
            *self == BranchNameError::EmptyIdentityPrefix ==> r@ == "username is empty or invalid after sanitization"@,
            *self == BranchNameError::SuffixesExhausted ==> r@ == "could not find available branch name after 100 attempts"@,
    {
        match self {
            BranchNameError::EmptyOverridePrefix => "prefix override is empty or invalid after sanitization",
            BranchNameError::EmptyIdentityPrefix => "username is empty or invalid after sanitization",
            BranchNameError::SuffixesExhausted => "could not find available branch name after 100 attempts",
        }
    }
}

} // verus!
