//! Spans of time, as whole nanoseconds.

use vstd::prelude::*;

verus! {

/// A span of time, in nanoseconds.
pub type Duration = u128;

/// How many nanoseconds a millisecond has.
pub const NANOS_PER_MILLI: u128 = 1_000_000;

/// How many nanoseconds a second has.
pub const NANOS_PER_SEC: u128 = 1_000_000_000;

/// The span of `millis` milliseconds.
pub fn from_millis(millis: u64) -> (d: Duration)
    ensures
        d == millis * NANOS_PER_MILLI,
{
    millis as u128 * NANOS_PER_MILLI
}

/// The span of `secs` seconds.
pub fn from_secs(secs: u64) -> (d: Duration)
    ensures
        d == secs * NANOS_PER_SEC,
{
    secs as u128 * NANOS_PER_SEC
}

} // verus!
