//! Spans of time.

use vstd::prelude::*;

verus! {

/// Nanoseconds in a second.
pub const NANOS_PER_SEC: u128 = 1_000_000_000;

/// Nanoseconds in a millisecond.
pub const NANOS_PER_MILLI: u128 = 1_000_000;

/// A span of time, to the nanosecond.
#[derive(Debug, Clone, Copy, PartialEq, Eq, Structural)]
pub struct Duration {
    pub nanos: u128,
}

impl Duration {
    /// The whole milliseconds of the span.
    pub open spec fn millis(self) -> int {
        self.nanos as int / NANOS_PER_MILLI as int
    }

    pub fn from_secs(secs: u64) -> (r: Duration)
        ensures
            r.nanos == secs * 1_000_000_000,
    {
        Duration { nanos: secs as u128 * NANOS_PER_SEC }
    }

    pub fn from_millis(millis: u64) -> (r: Duration)
        ensures
            r.nanos == millis * 1_000_000,
    {
        Duration { nanos: millis as u128 * NANOS_PER_MILLI }
    }

    pub fn from_nanos(nanos: u64) -> (r: Duration)
        ensures
            r.nanos == nanos,
    {
        Duration { nanos: nanos as u128 }
    }

    pub fn as_nanos(&self) -> (r: u128)
        ensures
            r == self.nanos,
    {
        self.nanos
    }

    pub fn as_millis(&self) -> (r: u128)
        ensures
            r == self.millis(),
    {
        self.nanos / NANOS_PER_MILLI
    }

    pub fn as_secs(&self) -> (r: u128)
        ensures
            r == self.nanos as int / 1_000_000_000,
    {
        self.nanos / NANOS_PER_SEC
    }

    pub fn is_zero(&self) -> (r: bool)
        ensures
            r == (self.nanos == 0),
    {
        self.nanos == 0
    }

    /// The span divided by `parts`, rounded down; `None` for no parts.
    pub fn checked_div(&self, parts: u32) -> (r: Option<Duration>)
        ensures
            parts == 0 ==> r is None,
            parts != 0 ==> r == Some(Duration { nanos: (self.nanos as int / parts as int) as u128 }),
    {
        if parts == 0 {
            None
        } else {
            proof {
                assert(self.nanos as int / parts as int <= self.nanos) by (nonlinear_arith)
                    requires
                        parts > 0,
                ;
            }
            Some(Duration { nanos: self.nanos / parts as u128 })
        }
    }
}

} // verus!
