//! The capabilities a dispatcher borrows from its caller: the binary output,
//! the delay provider and the two optional hooks.
//!
//! These are the only items of the crate whose behaviour Verus takes on trust.
//! Verus cannot hold a `dyn Fn..` trait object, nor a trait object of a trait
//! defined in another crate, so each handle is a struct that is opaque to it,
//! and each call through a handle is a function whose body it does not read.
//! None of these functions promises anything about what the call does or
//! returns: the verified code is correct whatever the caller's hardware and
//! hooks do.

use crate::dispatcher::DebugReport;
use core::fmt::Debug;
use embedded_hal::blocking::delay::DelayMs;
use vstd::prelude::*;

verus! {

/// The binary output: a callable that drives one output line on (`true`) or
/// off (`false`) and answers whether the hardware took the command.
///
/// Opaque to Verus, which knows nothing about the callable inside.
#[verifier::external_body]
pub struct Actuator<'a>(pub &'a mut dyn FnMut(bool) -> Result<(), ()>);

/// The delay provider: any implementation of
/// `embedded_hal::blocking::delay::DelayMs<u32>`.
///
/// Opaque to Verus, which knows nothing about the provider inside.
#[verifier::external_body]
pub struct Delay<'b>(pub &'b mut dyn DelayMs<u32>);

/// The diagnostic-print hook: a callable that is handed any value with a
/// `Debug` representation.
///
/// Opaque to Verus, which knows nothing about the callable inside.
#[verifier::external_body]
pub struct PrintHook<'c>(pub &'c dyn Fn(&dyn Debug));

/// The on-report hook: a callable that is handed the report about to be
/// signalled.
///
/// Opaque to Verus, which knows nothing about the callable inside.
#[verifier::external_body]
pub struct ReportHook<'c>(pub &'c mut dyn FnMut(&dyn DebugReport));

/// Calls the actuator's callable (`FnMut::call_mut`) with `on` and hands its
/// answer back. Nothing is claimed about the answer.
#[verifier::external_body]
pub(crate) fn set_status(actuator: &mut Actuator, on: bool) -> (answer: Result<(), ()>) {
    (actuator.0)(on)
}

/// Calls `embedded_hal::blocking::delay::DelayMs::delay_ms` on the provider.
/// Nothing is claimed about the call beyond that it returns.
#[verifier::external_body]
pub(crate) fn delay_ms(delay: &mut Delay, ms: u32) {
    delay.0.delay_ms(ms)
}

/// Calls the print hook's callable (`Fn::call`) with `value`. Nothing is
/// claimed about the call beyond that it returns.
#[verifier::external_body]
pub(crate) fn print<V: Debug>(hook: &PrintHook, value: &V) {
    (hook.0)(value)
}

/// Calls the on-report hook's callable (`FnMut::call_mut`) with `report`.
/// Nothing is claimed about the call beyond that it returns.
#[verifier::external_body]
pub(crate) fn observe<R: DebugReport>(hook: &mut ReportHook, report: &R) {
    (hook.0)(report)
}

} // verus!
