//! The weather logger: the remote collector that takes the reports, one HTTP
//! GET each.

pub mod errors;

use vstd::prelude::*;
use crate::manager_logger::errors::WeatherLoggerError;
use crate::number::decimal;
use crate::number::push_tenths;
use crate::number::tenths_plain;

verus! {

/// Seconds after which an exchange with the logger is given up.
pub const TIMEOUT_SECS: u64 = 30;

/// The status with which the logger takes a report.
pub const STATUS_OK: u16 = 200;

/// A request to the logger: a GET of `url` with the query parameters
/// `query`, in order. Names and values are plain text; encoding them for the
/// wire is left to the transport.
pub struct Request {
    pub url: String,
    pub query: Vec<(String, String)>,
}

/// What came of sending a request.
pub enum Reply {
    /// The logger answered with this HTTP status.
    Status(u16),
    /// No answer was had; the text says why.
    Failed(String),
}

/// The query parameters of a report, as names and values.
pub open spec fn parameters(query: Seq<(String, String)>) -> Seq<(Seq<char>, Seq<char>)> {
    Seq::new(query.len(), |i: int| (query[i].0@, query[i].1@))
}

/// The query parameters that report `temp`, in tenths of a degree, for the
/// sensor `id`: the sensor, the temperature as a decimal number of degrees,
/// and a humidity of zero, for want of a humidity sensor.
pub open spec fn report_parameters(id: Seq<char>, temp: int) -> Seq<(Seq<char>, Seq<char>)> {
    seq![("id"@, id), ("temp"@, tenths_plain(temp)), ("hum"@, "0"@)]
}

/// The message of the error that a reply stands for, if it stands for one:
/// a status other than success, or a failed exchange.
pub open spec fn reply_failure(reply: Option<Reply>) -> Option<Seq<char>> {
    match reply {
        None => None,
        Some(Reply::Status(code)) => if code == STATUS_OK {
            None
        } else {
            Some(decimal(code as nat))
        },
        Some(Reply::Failed(cause)) => Some(cause@),
    }
}

/// Struct for managing communication with the weather logger
pub struct WeatherLogger<'a> {
    url: &'a str,
}

impl<'a> WeatherLogger<'a> {
    /// The address that reports go to.
    pub closed spec fn address(&self) -> Seq<char> {
        self.url@
    }

    /// Creates a new instance of WeatherLogger
    ///
    /// * `url` - url to the logger
    pub fn new(url: &'a str) -> (logger: WeatherLogger<'a>)
        ensures
            logger.address() == url@,
    {
        WeatherLogger { url }
    }

    /// Returns the url to the logger.
    pub fn url(&self) -> (url: &str)
        ensures
            url@ == self.address(),
    {
        self.url
    }

    /// The request that reports `temp` for the sensor `id`; none where there
    /// is nothing to report.
    pub fn request(&self, id: &str, temp: Option<i64>) -> (request: Option<Request>)
        ensures
            match temp {
                None => request is None,
                Some(t) => request matches Some(r) && r.url@ == self.address() && parameters(
                    r.query@,
                ) == report_parameters(id@, t as int),
            },
    {
        let t = match temp {
            Some(t) => t,
            None => {
                return None;
            },
        };
        let mut t_string = String::new();
        push_tenths(&mut t_string, t, false);
        assert(t_string@ =~= tenths_plain(t as int));
        let mut query: Vec<(String, String)> = Vec::new();
        query.push((String::from_str("id"), String::from_str(id)));
        query.push((String::from_str("temp"), t_string));
        query.push((String::from_str("hum"), String::from_str("0")));
        assert(parameters(query@) =~= report_parameters(id@, t as int));
        Some(Request { url: String::from_str(self.url), query })
    }

    /// What a report came to. `reply` is what sending the request gave, and
    /// none where there was no request to send, which counts as success. Any
    /// status but `STATUS_OK` is an error that carries the status, a failed
    /// exchange one that carries the cause.
    pub fn report(&self, reply: Option<Reply>) -> (result: Result<(), WeatherLoggerError>)
        ensures
            match result {
                Ok(_) => reply_failure(reply) is None,
                Err(e) => reply_failure(reply) == Some(e.0@),
            },
    {
        match reply {
            None => Ok(()),
            Some(Reply::Status(code)) => {
                if code != STATUS_OK {
                    return Err(WeatherLoggerError::status(code));
                }
                Ok(())
            },
            Some(Reply::Failed(cause)) => Err(WeatherLoggerError(cause)),
        }
    }
}

} // verus!
