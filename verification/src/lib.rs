//! Decision engine of a small weather station: it turns the noisy codes of
//! 1-wire thermometers into a sparse stream of reports for a remote collector.
//!
//! Temperatures are fixed-point integers throughout. A raw reading is a count
//! of millidegrees Celsius, a smoothed reading a count of tenths of a degree.

pub mod clock;
pub mod dispatcher;
pub mod errors;
pub mod initialization;
pub mod logging;
pub mod manager_logger;
pub mod manager_w1;
pub mod number;
pub mod rounding;
pub mod text;
