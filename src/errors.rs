//! The ways a resolution can fail.

use vstd::prelude::*;

verus! {

/// A failed resolution. Each kind carries the underlying failure's
/// description as opaque context.
#[derive(Clone, Debug, PartialEq, Eq)]
pub enum IpaddrConversionError {
    /// The name could not be resolved (no such host, resolver unreachable).
    LookupError(String),
    /// Text taken for a literal address did not parse as one.
    AddrParseError(String),
    /// A transport or system error occurred during resolution.
    IoError(String),
}

/// What a name-resolution collaborator reports when it yields no addresses.
#[derive(Clone, Debug, PartialEq, Eq)]
pub enum LookupFailure {
    /// The resolver found no addresses for the name.
    NotFound(String),
    /// The resolver hit a transport or system error.
    Io(String),
}

/// The error kind that a collaborator's failure is reported as.
pub open spec fn conversion_error_of(e: LookupFailure) -> IpaddrConversionError {
    match e {
        LookupFailure::NotFound(m) => IpaddrConversionError::LookupError(m),
        LookupFailure::Io(m) => IpaddrConversionError::IoError(m),
    }
}

impl LookupFailure {
    /// Wraps the failure into the matching kind of `IpaddrConversionError`.
    pub fn into_conversion_error(self) -> (r: IpaddrConversionError)
        ensures
            r == conversion_error_of(self),
    {
        match self {
            LookupFailure::NotFound(m) => IpaddrConversionError::LookupError(m),
            LookupFailure::Io(m) => IpaddrConversionError::IoError(m),
        }
    }
}

} // verus!
