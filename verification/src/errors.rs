//! Errors of the start-up: they end the program before the first tick.

use vstd::prelude::*;

verus! {

/// Error representing an unrecoverable error that will halt the application
#[derive(Debug)]
pub struct UnrecoverableError(pub String);

/// Errors while managing configuration
#[derive(Debug)]
pub struct ConfigError(pub String);

/// The message of a configuration error as it is shown.
pub open spec fn config_error_text(message: Seq<char>) -> Seq<char> {
    "ConfigError: "@ + message
}

/// The message of an unrecoverable error as it is shown.
pub open spec fn unrecoverable_error_text(message: Seq<char>) -> Seq<char> {
    "UnrecoverableError: "@ + message
}

impl ConfigError {
    /// The error with the message `e`.
    pub fn from(e: &str) -> (error: ConfigError)
        ensures
            error.0@ == e@,
    {
        ConfigError(String::from_str(e))
    }

    /// The error as it is shown.
    pub fn to_string(&self) -> (text: String)
        ensures
            text@ == config_error_text(self.0@),
    {
        String::from_str("ConfigError: ").concat(self.0.as_str())
    }
}

impl UnrecoverableError {
    /// The error that a configuration error ends the program with: its
    /// message is the configuration error as it is shown.
    pub fn from(e: ConfigError) -> (error: UnrecoverableError)
        ensures
            error.0@ == config_error_text(e.0@),
    {
        UnrecoverableError(e.to_string())
    }

    /// The error as it is shown.
    pub fn to_string(&self) -> (text: String)
        ensures
            text@ == unrecoverable_error_text(self.0@),
    {
        String::from_str("UnrecoverableError: ").concat(self.0.as_str())
    }
}

} // verus!
