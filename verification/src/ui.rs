//! The answer of the service's health check.

use vstd::prelude::*;
use crate::text::owned;

verus! {

/// Health check answer: a status and the running version.
#[derive(Debug, Clone)]
pub struct HealthResponse {
    pub status: String,
    pub version: String,
}

impl HealthResponse {
    /// The answer of a healthy service running `version`: status `ok`.
    pub fn healthy(version: &str) -> (r: Self)
        ensures
            r.status@ == "ok"@,
            r.version@ == version@,
    {
        HealthResponse { status: owned("ok"), version: owned(version) }
    }
}

} // verus!

