//! One round over the sensors: which sensors there are, and what the log
//! says of each measurement and of each report.

use vstd::prelude::*;
use crate::clock::MonotonicTime;
use crate::initialization::SensorW1;
use crate::manager_logger::errors::weather_logger_error_text;
use crate::manager_logger::errors::WeatherLoggerError;
use crate::manager_w1::errors::w1_error_text;
use crate::manager_w1::errors::W1Error;
use crate::manager_w1::policy::initial_state;
use crate::manager_w1::reader::Decode;
use crate::manager_w1::SensorState;
use crate::manager_w1::W1Therm;
use crate::number::push_tenths;
use crate::number::tenths_fixed;

verus! {

/// Seconds between two rounds over the sensors.
pub const TICK_SECS: u64 = 60;

/// How much a line of the log matters.
#[derive(Clone, Copy, PartialEq, Eq, Structural, Debug)]
pub enum Level {
    Info,
    Error,
}

/// A line for the log.
#[derive(Debug)]
pub struct LogLine {
    pub level: Level,
    pub text: String,
}

/// A reading as the log shows it: `Some(20.3)`, or `None` where nothing is
/// reported.
pub open spec fn reading_text(temp: Option<i64>) -> Seq<char> {
    match temp {
        Some(t) => "Some("@ + tenths_fixed(t as int) + ")"@,
        None => "None"@,
    }
}

/// The text of the line that records a measurement.
pub open spec fn measured_text(sensor: Seq<char>, temp: Option<i64>) -> Seq<char> {
    "sensor \""@ + sensor + "\" measured: "@ + reading_text(temp)
}

/// The text of the line that records a failed measurement.
pub open spec fn measure_failed_text(sensor: Seq<char>, message: Seq<char>) -> Seq<char> {
    "error while measure from sensor \""@ + sensor + "\": "@ + w1_error_text(message)
}

/// The text of the line that records a failed report.
pub open spec fn report_failed_text(sensor: Seq<char>, message: Seq<char>) -> Seq<char> {
    "error while reporting sensor \""@ + sensor + "\" to logger: "@ + weather_logger_error_text(
        message,
    )
}

/// The sensor that entry number `i` of a configuration describes, made at
/// `now`.
pub open spec fn configured(config: SensorW1, i: int, now: nat) -> SensorState {
    SensorState {
        decode: Decode::Millidegrees,
        window_size: if config.thermometer[i].2 == 0 {
            1
        } else {
            config.thermometer[i].2 as nat
        },
        threshold: config.thermometer[i].3 as nat,
        window: Seq::empty(),
        report: initial_state(now),
    }
}

/// The sensors of a configuration, made at `now`: one for each entry, in the
/// order of the configuration.
pub fn sensors<'a>(config: &'a SensorW1, now: MonotonicTime) -> (w1_sensors: Vec<W1Therm<'a>>)
    ensures
        w1_sensors.len() == config.thermometer.len(),
        forall|i: int|
            0 <= i < w1_sensors.len() ==> {
                &&& (#[trigger] w1_sensors[i]).name() == config.thermometer[i].0@
                &&& w1_sensors[i].source_path() == config.thermometer[i].1@
                &&& w1_sensors[i]@ == configured(*config, i, now@)
            },
{
    let mut w1_sensors: Vec<W1Therm<'a>> = Vec::new();
    let mut i: usize = 0;
    while i < config.thermometer.len()
        invariant
            i <= config.thermometer.len(),
            w1_sensors.len() == i,
            forall|j: int|
                0 <= j < i ==> {
                    &&& (#[trigger] w1_sensors[j]).name() == config.thermometer[j].0@
                    &&& w1_sensors[j].source_path() == config.thermometer[j].1@
                    &&& w1_sensors[j]@ == configured(*config, j, now@)
                },
        decreases config.thermometer.len() - i,
    {
        let s = &config.thermometer[i];
        w1_sensors.push(W1Therm::new(s.0.as_str(), s.1.as_str(), s.2, s.3, now));
        i = i + 1;
    }
    w1_sensors
}

/// The line that records a measurement of `sensor`: the reading that is
/// reported, in degrees with one decimal, or that none is.
pub fn measured(sensor: &str, temp: Option<i64>) -> (line: LogLine)
    ensures
        line.level == Level::Info,
        line.text@ == measured_text(sensor@, temp),
{
    let mut text = String::from_str("sensor \"");
    text.append(sensor);
    text.append("\" measured: ");
    match temp {
        Some(t) => {
            text.append("Some(");
            push_tenths(&mut text, t, true);
            text.append(")");
        },
        None => {
            text.append("None");
        },
    }
    assert(text@ =~= measured_text(sensor@, temp));
    LogLine { level: Level::Info, text }
}

/// The line that records that measuring `sensor` failed with `e`.
pub fn measure_failed(sensor: &str, e: &W1Error) -> (line: LogLine)
    ensures
        line.level == Level::Error,
        line.text@ == measure_failed_text(sensor@, e.message@),
{
    let mut text = String::from_str("error while measure from sensor \"");
    text.append(sensor);
    text.append("\": ");
    text.append(e.to_string().as_str());
    assert(text@ =~= measure_failed_text(sensor@, e.message@));
    LogLine { level: Level::Error, text }
}

/// The line that records that reporting `sensor` failed with `e`.
pub fn report_failed(sensor: &str, e: &WeatherLoggerError) -> (line: LogLine)
    ensures
        line.level == Level::Error,
        line.text@ == report_failed_text(sensor@, e.0@),
{
    let mut text = String::from_str("error while reporting sensor \"");
    text.append(sensor);
    text.append("\" to logger: ");
    text.append(e.to_string().as_str());
    assert(text@ =~= report_failed_text(sensor@, e.0@));
    LogLine { level: Level::Error, text }
}

} // verus!
