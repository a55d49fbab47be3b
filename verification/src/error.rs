//! The failure taxonomy the portfolio layer reports: an entity that is not
//! there (or not owned by the caller), a lower-level persistence failure
//! surfaced opaquely, and a stored number that cannot be read back as a
//! decimal.

use vstd::prelude::*;

use crate::codec::CodecError;

verus! {

/// An error outcome of a portfolio operation.
#[derive(Debug)]
pub enum AppError {
    /// The id does not exist, or exists but is not owned by the supplied
    /// account; the two are indistinguishable on purpose.
    NotFound(String),
    /// A lower-level persistence failure, never inspected here.
    Persistence(String),
    /// A stored decimal column could not be read back.
    Codec(CodecError),
}

pub type AppResult<T> = Result<T, AppError>;

impl AppError {
    /// Whether this error reports a missing or foreign-owned entity.
    pub fn is_not_found(&self) -> (r: bool)
        ensures
            r == (self is NotFound),
    {
        match self {
            AppError::NotFound(_) => true,
            _ => false,
        }
    }

    /// Whether this error reports a persistence-layer failure.
    pub fn is_persistence(&self) -> (r: bool)
        ensures
            r == (self is Persistence),
    {
        match self {
            AppError::Persistence(_) => true,
            _ => false,
        }
    }

    /// Whether this error reports an unreadable stored decimal.
    pub fn is_codec(&self) -> (r: bool)
        ensures
            r == (self is Codec),
    {
        match self {
            AppError::Codec(_) => true,
            _ => false,
        }
    }
}

} // verus!
