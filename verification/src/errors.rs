use vstd::prelude::*;

verus! {

/// The record's own error taxonomy: rule violations that the controller
/// detects and rejects before touching any state.
#[derive(Clone, Copy, Debug, PartialEq, Eq, Structural)]
pub enum TutorError {
    /// The subject handed to record creation exceeds the length bound.
    SubjectTooLong,
    /// An update was authorized by an identity other than the record's owner.
    Unauthorized,
}

/// Failures of the host ledger that the controller passes through to the
/// caller unchanged; none of them is a rule of the record itself.
#[derive(Clone, Copy, Debug, PartialEq, Eq, Structural)]
pub enum HostError {
    /// Creation found a record already allocated for the owner.
    AlreadyInUse,
    /// An update addressed an owner for whom no record was ever created.
    Missing,
    /// The host's search for a derived address came up empty.
    AddressUnavailable,
    /// The host clock could not be read.
    ClockUnavailable,
}

/// Everything an operation can report: a rule of the record itself, or a
/// failure passed through from the host ledger.
#[derive(Clone, Copy, Debug, PartialEq, Eq, Structural)]
pub enum OpError {
    Tutor(TutorError),
    Host(HostError),
}

} // verus!
