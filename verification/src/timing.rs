//! Timing profiles: the four durations that parameterize every encoding.

use vstd::prelude::*;

verus! {

/// A timing profile, in the order `(repeat_gap, off, short_on, long_on)`.
///
/// The unit is whatever the delay provider counts in; milliseconds for the
/// providers this crate is written against.
pub type Timings = (u32, u32, u32, u32);

/// The profile used when the caller has no reason to pick another.
pub const DEFAULT_TIMINGS: (u32, u32, u32, u32) = (1000, 500, 500, 1000);

/// The pause between two full repetitions of a report.
pub open spec fn repeat_gap(timings: Timings) -> u32 {
    timings.0
}

/// The pause after every pulse.
pub open spec fn off(timings: Timings) -> u32 {
    timings.1
}

/// The length of the pulse that stands for a set bit, and of every pulse of a
/// report that has no bits to tell apart.
pub open spec fn short_on(timings: Timings) -> u32 {
    timings.2
}

/// The length of the pulse that stands for a clear bit.
pub open spec fn long_on(timings: Timings) -> u32 {
    timings.3
}

} // verus!
