//! The error surfaced to callers of the reporting pipeline.

use vstd::prelude::*;

verus! {

/// The class of a failure: the pipeline distinguishes only internal faults
/// (the queue is closed, the socket could not be bound); everything else is
/// absorbed and logged by the forwarder.
#[derive(Clone, Copy, Debug, PartialEq, Eq, Structural)]
pub enum ErrorKind {
    InternalFailure,
}

/// An error with its class and a human-readable cause.
#[derive(Clone, Debug)]
pub struct Error {
    pub kind: ErrorKind,
    pub message: String,
}

impl Error {
    pub fn new(kind: ErrorKind, message: String) -> (e: Error)
        ensures
            e.kind == kind,
            e.message@ == message@,
    {
        Error { kind, message }
    }

    /// The human-readable cause, for logging or display by an embedding.
    pub fn message(&self) -> (m: &str)
        ensures
            m@ == self.message@,
    {
        self.message.as_str()
    }
}

} // verus!
