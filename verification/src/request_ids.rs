//! Identifiers of requests, for following one request through the logs.

use vstd::prelude::*;

verus! {

/// A type that represents a request's ID.
#[derive(Debug, Clone)]
pub struct RequestId(pub String);

impl RequestId {
    /// The identifier as text.
    pub fn to_string(&self) -> (s: String)
        ensures
            s@ == self.0@,
    {
        self.0.clone()
    }
}

/// Attaches a request ID to every request and response.
#[derive(Debug, Clone, Copy, PartialEq, Eq, Structural)]
pub struct RequestIdFairing;

} // verus!
