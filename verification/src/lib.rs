//! Connection-test library for a server-sent-events (SSE) source.
//!
//! The crate has two parts: a verified parser for the compact
//! comma/colon header encoding, and a verified state machine that
//! drives one connection-test run and classifies its outcome.

use vstd::prelude::*;

pub mod harness;
pub mod headers;
pub mod messages;

verus! {

/// Marker for the server-sent-events connector.
pub struct SSEConnector {}

impl SSEConnector {
    /// The identifier of this connector kind.
    pub fn name(&self) -> (r: &'static str)
        ensures
            r@ == "sse"@,
    {
        "sse"
    }
}

} // verus!
