//! A fault-signalling encoder for devices that have no screen, no log and no
//! debugger, only one binary output: a failure is turned into a timed on/off
//! sequence that tells which failure it was, for an observer to read by eye
//! or with a light sensor.
//!
//! - [`timing`]: the four durations that parameterize every encoding.
//! - [`signal`]: the model that all contracts speak of: commands, pulses,
//!   cycles, and the history of what a dispatcher did.
//! - [`bits`]: bits of a 16-bit value and the width of its compact form.
//! - [`hardware`]: the borrowed actuator, delay provider and hooks.
//! - [`dispatcher`]: [`DebugLed`], which drives a report through the
//!   hardware, and [`DebugReport`], the capability of being a report.
//! - [`reports`]: the built-in kinds of report.
//! - [`reportable`]: [`DebugReportable`], unwrapping that announces a failure.

pub mod bits;
pub mod dispatcher;
pub mod hardware;
pub mod reportable;
pub mod reports;
pub mod signal;
pub mod timing;

pub use crate::dispatcher::{DebugLed, DebugReport};
pub use crate::hardware::{Actuator, Delay, PrintHook, ReportHook};
pub use crate::reportable::DebugReportable;
pub use crate::timing::{Timings, DEFAULT_TIMINGS};
