//! The failures that feed resolution, search and toggles report.

use vstd::prelude::*;

verus! {

/// Why an operation did not produce its result.
#[derive(Clone, Copy, Debug, PartialEq, Eq, Structural)]
pub enum FeedError {
    /// Input that the caller could have avoided, such as an empty search.
    ValidationFailure,
    /// An operation that needs a signed-in caller was asked without one.
    AuthorizationFailure,
    /// The store could not complete the round trip.
    PersistenceFailure,
    /// The article or profile addressed does not exist.
    NotFound,
}

} // verus!
