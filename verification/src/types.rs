//! The response shape the API surface sends back.

use vstd::prelude::*;

verus! {

/// A response envelope: a machine-readable status, optional data lines
/// and their count, and an optional human message.
pub struct ResponseData {
    pub status: String,
    pub data: Option<Vec<String>>,
    pub len: Option<i32>,
    pub message: Option<String>,
}

} // verus!
