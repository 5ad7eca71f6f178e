//! The service's error value.
//!
//! The code is a pseudo-HTTP status: 400 invalid input or unsupported
//! language, 404 not found, 409 conflict, 422 parse failure or truncated
//! output, 429 rate limited, 451 content violation, 452 content filter, 5xx
//! upstream or internal failure.

use vstd::prelude::*;

verus! {

#[derive(Debug)]
pub struct HTTPError {
    pub code: u16,
    pub message: String,
    pub data: Option<String>,
}

impl HTTPError {
    pub fn new(code: u16, message: String) -> (r: Self)
        ensures
            r.code == code,
            r.message@ == message@,
            r.data is None,
    {
        HTTPError { code, message, data: None }
    }
}

} // verus!
