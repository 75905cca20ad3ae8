//! Instants and spans of time as whole nanoseconds.

use vstd::prelude::*;

verus! {

/// The last representable instant: the end of the year 9999.
pub const MAX_UNIX_NANOS: i128 = 253_402_300_799_999_999_999;

/// The first representable instant: the start of the year -9999.
pub const MIN_UNIX_NANOS: i128 = -377_705_116_800_000_000_000;

/// One instant, counted in nanoseconds from the Unix epoch.
#[derive(Clone, Copy, Debug, PartialEq, Eq, Structural)]
pub struct Timestamp {
    /// Nanoseconds since the Unix epoch.
    pub unix_nanos: i128,
}

/// A non-negative span of time.
#[derive(Clone, Copy, Debug, PartialEq, Eq, Structural)]
pub struct Duration {
    /// Length in nanoseconds.
    pub nanos: u128,
}

impl Timestamp {
    /// The instant lies between the years -9999 and 9999.
    pub open spec fn in_range(self) -> bool {
        MIN_UNIX_NANOS <= self.unix_nanos <= MAX_UNIX_NANOS
    }

    /// Adds a span, unless the sum lies outside the representable years.
    pub fn checked_add(self, span: Duration) -> (sum: Option<Timestamp>)
        requires
            self.in_range(),
        ensures
            match sum {
                Some(later) => later.unix_nanos == self.unix_nanos + span.nanos
                    && later.in_range(),
                None => self.unix_nanos + span.nanos > MAX_UNIX_NANOS,
            },
    {
        if span.nanos > 1_000_000_000_000_000_000_000 {
            return None;
        }
        let total: i128 = self.unix_nanos + span.nanos as i128;
        if total > MAX_UNIX_NANOS {
            None
        } else {
            Some(Timestamp { unix_nanos: total })
        }
    }
}

/// The longest representable span: the largest 64-bit number of seconds, and one nanosecond short of
/// one second more.
pub const MAX_DURATION_NANOS: u128 = 18_446_744_073_709_551_615_999_999_999;

impl Duration {
    /// Adds two spans, unless the sum is longer than the longest span.
    pub fn checked_add(self, other: Duration) -> (sum: Option<Duration>)
        ensures
            match sum {
                Some(total) => total.nanos == self.nanos + other.nanos && total.nanos
                    <= MAX_DURATION_NANOS,
                None => self.nanos + other.nanos > MAX_DURATION_NANOS,
            },
    {
        if self.nanos > MAX_DURATION_NANOS || other.nanos > MAX_DURATION_NANOS - self.nanos {
            None
        } else {
            Some(Duration { nanos: self.nanos + other.nanos })
        }
    }

    /// Adds two spans, stopping at the longest span.
    pub fn saturating_add(self, other: Duration) -> (sum: Duration)
        ensures
            sum.nanos == if self.nanos + other.nanos > MAX_DURATION_NANOS {
                MAX_DURATION_NANOS as int
            } else {
                self.nanos + other.nanos
            },
    {
        match self.checked_add(other) {
            Some(total) => total,
            None => Duration { nanos: MAX_DURATION_NANOS },
        }
    }
}

} // verus!
