//! The error taxonomy of the session manager.
//!
//! Every fallible operation reports exactly one of these variants to its
//! immediate caller; no operation retries. The boundary layer turns a
//! variant into plain descriptive text with [`TerminalError::message`].

use vstd::prelude::*;

verus! {

/// A tagged error: which kind of failure an operation hit.
///
/// - `NotFound`: the operation referenced an unknown session id.
/// - `SpawnFailure`: acquiring an OS resource (PTY open, process spawn,
///   reader/writer handle) failed while creating a session; no partial
///   session is left behind.
/// - `IoFailure`: a write, flush or resize on a live session failed.
/// - `SerializationFailure`: a persisted payload could not be encoded or
///   decoded.
/// - `ValidationFailure`: an input was rejected before any mutation.
#[derive(Debug)]
pub enum TerminalError {
    NotFound,
    SpawnFailure(String),
    IoFailure(String),
    SerializationFailure(String),
    ValidationFailure(String),
}

impl TerminalError {
    /// The human-readable text for this error, as the boundary layer
    /// surfaces it.
    pub fn message(&self) -> (r: String)
        ensures
            self is NotFound ==> r@ == "Terminal not found"@,
            self matches TerminalError::SpawnFailure(d) ==> r@ == d@,
            self matches TerminalError::IoFailure(d) ==> r@ == d@,
            self matches TerminalError::SerializationFailure(d) ==> r@ == d@,
            self matches TerminalError::ValidationFailure(d) ==> r@ == d@,
    {
        match self {
            TerminalError::NotFound => "Terminal not found".to_owned(),
            TerminalError::SpawnFailure(d) => d.clone(),
            TerminalError::IoFailure(d) => d.clone(),
            TerminalError::SerializationFailure(d) => d.clone(),
            TerminalError::ValidationFailure(d) => d.clone(),
        }
    }
}

} // verus!
