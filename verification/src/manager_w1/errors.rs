//! What can go wrong with one measurement.

use vstd::prelude::*;

verus! {

/// The ways in which a measurement fails.
#[derive(Clone, Copy, PartialEq, Eq, Structural, Debug)]
pub enum W1ErrorKind {
    /// The driver file could not be read.
    Io,
    /// The driver file holds no temperature marker.
    CorruptSource,
    /// What follows the marker is no temperature code.
    Parse,
}

/// A failed measurement: what kind of failure, and a message for the log.
#[derive(Debug)]
pub struct W1Error {
    pub kind: W1ErrorKind,
    pub message: String,
}

/// The message of an error as the log shows it.
pub open spec fn w1_error_text(message: Seq<char>) -> Seq<char> {
    "W1Error: "@ + message
}

impl W1Error {
    /// The driver file could not be read; `cause` says why.
    pub fn io(cause: &str) -> (e: W1Error)
        ensures
            e.kind == W1ErrorKind::Io,
            e.message@ == cause@,
    {
        W1Error { kind: W1ErrorKind::Io, message: String::from_str(cause) }
    }

    /// The error as the log shows it.
    pub fn to_string(&self) -> (text: String)
        ensures
            text@ == w1_error_text(self.message@),
    {
        String::from_str("W1Error: ").concat(self.message.as_str())
    }
}

} // verus!
