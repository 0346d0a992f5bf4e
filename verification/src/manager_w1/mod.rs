//! One 1-wire thermometer: reading its driver file, smoothing, and deciding
//! when a reading is worth reporting.

pub mod errors;
pub mod policy;
pub mod reader;
pub mod smoother;

use vstd::prelude::*;
use crate::clock::MonotonicTime;
use crate::manager_w1::errors::W1Error;
use crate::manager_w1::errors::W1ErrorKind;
use crate::manager_w1::policy::decision;
use crate::manager_w1::policy::initial_state;
use crate::manager_w1::policy::next_state;
use crate::manager_w1::policy::ReportPolicy;
use crate::manager_w1::policy::ReportState;
use crate::manager_w1::reader::raw_reading;
use crate::manager_w1::reader::read;
use crate::manager_w1::reader::reading_failure;
use crate::manager_w1::reader::Decode;
use crate::manager_w1::smoother::slide;
use crate::manager_w1::smoother::smoothed;
use crate::manager_w1::smoother::Smoother;
use crate::rounding::as_int;
use crate::rounding::tenths_of;

verus! {

/// What a sensor is and what it remembers, as far as measuring goes.
pub struct SensorState {
    /// How the driver's code is decoded.
    pub decode: Decode,
    /// Number of readings that are averaged.
    pub window_size: nat,
    /// Smallest change that forces a report, in millidegrees.
    pub threshold: nat,
    /// The readings that are averaged, oldest first, in tenths of a degree.
    pub window: Seq<int>,
    /// The last report.
    pub report: ReportState,
}

/// What one measurement comes to.
pub enum Measured {
    /// The source gave a reading; a report is handed out or not.
    Reading(Option<int>),
    /// The source gave no reading.
    Failure(W1ErrorKind, Seq<char>),
}

/// What the driver file gave: its content, or why it could not be read.
pub open spec fn source_text(source: Result<&str, &str>) -> Result<Seq<char>, Seq<char>> {
    match source {
        Ok(data) => Ok(data@),
        Err(cause) => Err(cause@),
    }
}

/// The raw reading of a measurement, in millidegrees, or its failure: the
/// cause as it was handed in where the driver file could not be read, else
/// what `raw_reading` and `reading_failure` say of the content.
pub open spec fn raw_of(decode: Decode, source: Result<Seq<char>, Seq<char>>) -> Result<
    int,
    (W1ErrorKind, Seq<char>),
> {
    match source {
        Err(cause) => Err((W1ErrorKind::Io, cause)),
        Ok(data) => match raw_reading(decode, data) {
            Ok(raw) => Ok(raw),
            Err(kind) => Err((kind, reading_failure(data))),
        },
    }
}

/// The sensor after a measurement. A failure changes nothing. A reading
/// moves the window on, and the report state as the policy says.
pub open spec fn after_measure(
    sensor: SensorState,
    source: Result<Seq<char>, Seq<char>>,
    now: nat,
) -> SensorState {
    match raw_of(sensor.decode, source) {
        Err(_) => sensor,
        Ok(raw) => {
            let window = slide(sensor.window_size, sensor.window, tenths_of(raw));
            SensorState {
                window,
                report: next_state(
                    sensor.threshold,
                    sensor.report,
                    smoothed(sensor.window_size, window),
                    now,
                ),
                ..sensor
            }
        },
    }
}

/// What a measurement hands out: the failure, or the decision of the policy
/// on the smoothed reading.
pub open spec fn measured(sensor: SensorState, source: Result<Seq<char>, Seq<char>>, now: nat)
    -> Measured {
    match raw_of(sensor.decode, source) {
        Err((kind, message)) => Measured::Failure(kind, message),
        Ok(raw) => {
            let window = slide(sensor.window_size, sensor.window, tenths_of(raw));
            Measured::Reading(
                decision(
                    sensor.threshold,
                    sensor.report,
                    smoothed(sensor.window_size, window),
                    now,
                ),
            )
        },
    }
}

/// A thermometer on the 1-wire bus, with what it takes to turn its readings
/// into reports.
pub struct W1Therm<'a> {
    name: &'a str,
    path: &'a str,
    decode: Decode,
    smoother: Smoother,
    policy: ReportPolicy,
}

impl<'a> View for W1Therm<'a> {
    type V = SensorState;

    closed spec fn view(&self) -> SensorState {
        SensorState {
            decode: self.decode,
            window_size: self.smoother.size(),
            threshold: self.policy.threshold(),
            window: self.smoother.window(),
            report: self.policy.state(),
        }
    }
}

impl<'a> W1Therm<'a> {
    /// The name of the sensor.
    pub closed spec fn name(&self) -> Seq<char> {
        self.name@
    }

    /// The path of the driver file that carries the measurement.
    pub closed spec fn source_path(&self) -> Seq<char> {
        self.path@
    }

    /// A sensor made at `now`.
    ///
    /// * `name` - the name of the sensor
    /// * `path` - the path of the driver file that carries the measurement
    /// * `ma` - number of readings in the moving average (zero counts as one,
    ///   and one means no smoothing)
    /// * `threshold` - change in millidegrees from which a reading is
    ///   reported at once
    pub fn new(name: &'a str, path: &'a str, ma: usize, threshold: u64, now: MonotonicTime) -> (w1:
        W1Therm<'a>)
        ensures
            w1.name() == name@,
            w1.source_path() == path@,
            w1@ == (SensorState {
                decode: Decode::Millidegrees,
                window_size: if ma == 0 { 1 } else { ma as nat },
                threshold: threshold as nat,
                window: Seq::empty(),
                report: initial_state(now@),
            }),
    {
        W1Therm {
            name,
            path,
            decode: Decode::Millidegrees,
            smoother: Smoother::new(ma),
            policy: ReportPolicy::new(threshold, now),
        }
    }

    /// The same sensor, its codes decoded as `decode` says.
    pub fn with_decode(self, decode: Decode) -> (w1: W1Therm<'a>)
        ensures
            w1.name() == self.name(),
            w1.source_path() == self.source_path(),
            w1@ == (SensorState { decode, ..self@ }),
    {
        W1Therm { decode, ..self }
    }

    /// One measurement at `now`. `source` is what reading the driver file
    /// gave: its content, or the cause of the failure. A reading is smoothed
    /// and put to the policy; the result names the sensor and holds the
    /// reading in tenths of a degree if it is to be reported. A failure
    /// leaves the sensor as it was.
    pub fn measure(&mut self, source: Result<&str, &str>, now: MonotonicTime) -> (result: Result<
        (&'a str, Option<i64>),
        W1Error,
    >)
        ensures
            final(self).name() == old(self).name(),
            final(self).source_path() == old(self).source_path(),
            final(self)@ == after_measure(old(self)@, source_text(source), now@),
            match result {
                Ok((name, report)) => name@ == old(self).name() && measured(
                    old(self)@,
                    source_text(source),
                    now@,
                ) == Measured::Reading(as_int(report)),
                Err(e) => measured(old(self)@, source_text(source), now@) == Measured::Failure(
                    e.kind,
                    e.message@,
                ),
            },
    {
        let data = match source {
            Ok(data) => data,
            Err(cause) => {
                return Err(W1Error::io(cause));
            },
        };
        let raw = match read(self.decode, data) {
            Ok(raw) => raw,
            Err(e) => {
                return Err(e);
            },
        };
        let average = self.smoother.push(raw);
        let report = self.policy.evaluate(average, now);
        Ok((self.name, report))
    }

    /// Returns the sensor name.
    pub fn sensor(&self) -> (name: &str)
        ensures
            name@ == self.name(),
    {
        self.name
    }

    /// Returns the path of the driver file.
    pub fn path(&self) -> (path: &str)
        ensures
            path@ == self.source_path(),
    {
        self.path
    }

    /// The reading reported last, in tenths of a degree; zero before the
    /// first report.
    pub fn last_reading(&self) -> (value: i64)
        ensures
            value == self@.report.last_reported_value,
    {
        self.policy.last_reported_value()
    }

    /// When the last report was decided; the time of construction before the
    /// first report.
    pub fn last_report(&self) -> (time: MonotonicTime)
        ensures
            time@ == self@.report.last_report_time,
    {
        self.policy.last_report_time()
    }
}

} // verus!
