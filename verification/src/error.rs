//! The outcomes of a request that is not answered with a page.

use vstd::prelude::*;

verus! {

/// Why a request failed.
#[derive(Debug, Clone, Copy, PartialEq, Eq, Structural)]
pub enum ArchiveError {
    /// An unknown thread, post or user, or a page past the last one.
    NotFound,
    /// A lookup kind or log category that is not one of the known values.
    UnprocessableInput,
    /// The store could not be read.
    StoreFailure,
    /// A row that the archive's model guarantees is missing or malformed.
    DataInconsistency,
}

impl ArchiveError {
    /// Whether the caller can recover by changing the request. The other
    /// failures abort the request and are not retried.
    pub fn is_recoverable(&self) -> (r: bool)
        ensures
            r == (*self == ArchiveError::NotFound || *self == ArchiveError::UnprocessableInput),
    {
        match self {
            ArchiveError::NotFound => true,
            ArchiveError::UnprocessableInput => true,
            ArchiveError::StoreFailure => false,
            ArchiveError::DataInconsistency => false,
        }
    }
}

} // verus!
