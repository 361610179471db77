//! Error type of the library.
use vstd::prelude::*;

verus! {

/// Errors raised while simulating or querying null distributions.
#[derive(Debug, Clone, Copy, PartialEq, Eq, Structural)]
pub enum Error {
    /// An error that fits no other variant.
    OtherError,
    /// Fewer than two samples were requested for a null distribution.
    SampleCountTooSmall,
    /// The range of term counts is empty.
    TermCountRange,
    /// The population to sample from does not exceed the requested term count.
    PopulationTooSmall,
    /// Rejection sampling did not collect enough distinct terms within its bound.
    SamplingExhausted,
    /// No null distribution is stored for the requested gene and term count.
    CalibrationMissing,
    /// A stored record could not be decoded.
    MalformedRecord,
    /// A name of an option is not known.
    UnknownName,
}

} // verus!
