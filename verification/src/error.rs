//! The ways in which hiding or unveiling can fail.

use vstd::prelude::*;

verus! {

/// Why a hide or unveil operation did not complete.
#[derive(Clone, Copy, Debug, PartialEq, Eq, Structural)]
pub enum SteganoError {
    /// No usable carrier image was supplied.
    CarrierUnreadable,
    /// There is no destination to which the carrier could be written.
    CarrierUnwritable,
    /// The message needs more bits than the carrier has left.
    CapacityExceeded,
    /// The stream starts with a tag that names no known content version.
    UnknownVersion,
    /// A length field disagrees with the data that follows it.
    MalformedEntry,
    /// The message holds several files where exactly one can be surfaced.
    UnsupportedMultiFileUnveil,
    /// There is no sink to which the unveiled data could be written.
    OutputSinkUnwritable,
}

impl SteganoError {
    /// A short description of the failure, for messages to a user.
    pub fn message(&self) -> (text: &'static str)
        ensures
            text@ == match *self {
                SteganoError::CarrierUnreadable => "carrier image is not readable"@,
                SteganoError::CarrierUnwritable => "carrier image cannot be written"@,
                SteganoError::CapacityExceeded => "message does not fit into the carrier image"@,
                SteganoError::UnknownVersion => "unknown content version"@,
                SteganoError::MalformedEntry => "malformed message entry"@,
                SteganoError::UnsupportedMultiFileUnveil => "more than one content file is not supported"@,
                SteganoError::OutputSinkUnwritable => "output cannot be written"@,
            },
    {
        match self {
            SteganoError::CarrierUnreadable => "carrier image is not readable",
            SteganoError::CarrierUnwritable => "carrier image cannot be written",
            SteganoError::CapacityExceeded => "message does not fit into the carrier image",
            SteganoError::UnknownVersion => "unknown content version",
            SteganoError::MalformedEntry => "malformed message entry",
            SteganoError::UnsupportedMultiFileUnveil => "more than one content file is not supported",
            SteganoError::OutputSinkUnwritable => "output cannot be written",
        }
    }
}

} // verus!
