//! The data carried back from the license catalog's web API when a request
//! fails.  The requests themselves are the surrounding application's
//! concern.

use vstd::prelude::*;

verus! {

/// Represents an API error.
pub struct ApiError {
    pub message: String,
    pub documentation_url: String,
}

} // verus!
