use vstd::prelude::*;

verus! {

/// Errors surfaced by the store's public operations.
///
/// A `RequestError` reports invalid caller input and is never retried.
/// Targets of stale index entries that fail to dereference are silently
/// dropped by the query path rather than surfaced, so no internal-failure
/// variant remains here.
#[derive(Debug, PartialEq, Eq)]
pub enum SocialContextError {
    RequestError(&'static str),
}

pub type SocialContextResult<T> = Result<T, SocialContextError>;

impl SocialContextError {
    /// The human-readable description carried by this error.
    pub fn message(&self) -> (r: &'static str)
        ensures
            self matches SocialContextError::RequestError(m) ==> r == m,
    {
        match self {
            SocialContextError::RequestError(m) => m,
        }
    }
}

} // verus!
