//! What can go wrong while talking to the weather logger.

use vstd::prelude::*;
use crate::number::decimal;
use crate::number::push_decimal;

verus! {

/// Error that occurs while communicating with the logger: the message holds
/// the status that the logger answered with, or the cause of the failed
/// exchange.
#[derive(Debug)]
pub struct WeatherLoggerError(pub String);

/// The message of an error as the log shows it.
pub open spec fn weather_logger_error_text(message: Seq<char>) -> Seq<char> {
    "WeatherLoggerError: "@ + message
}

impl WeatherLoggerError {
    /// The logger answered with `code`, which is not the status of success.
    pub fn status(code: u16) -> (e: WeatherLoggerError)
        ensures
            e.0@ == decimal(code as nat),
    {
        let mut message = String::new();
        push_decimal(&mut message, code as u128);
        assert(message@ =~= decimal(code as nat));
        WeatherLoggerError(message)
    }

    /// The exchange with the logger failed; `cause` says why.
    pub fn transport(cause: &str) -> (e: WeatherLoggerError)
        ensures
            e.0@ == cause@,
    {
        WeatherLoggerError(String::from_str(cause))
    }

    /// The error as the log shows it.
    pub fn to_string(&self) -> (text: String)
        ensures
            text@ == weather_logger_error_text(self.0@),
    {
        String::from_str("WeatherLoggerError: ").concat(self.0.as_str())
    }
}

} // verus!
