//! Points in time, as the metadata records hold them.

use vstd::prelude::*;

verus! {

/// An instant: seconds since the Unix epoch and nanoseconds within the
/// second. Instants are ordered by the seconds, then by the nanoseconds.
#[derive(Debug, Clone, Copy, PartialEq, Eq, Structural)]
pub struct Timestamp {
    pub seconds: i64,
    pub nanos: u32,
}

/// The number that the nanoseconds of a clock reading stay below: those of
/// one second, or of a second that a leap second follows.
pub const NANOS_LIMIT: u32 = 2_000_000_000;

/// Reads the clock with `chrono::Local::now` and takes from the instant
/// its `timestamp` and its `timestamp_subsec_nanos`. The latter are the
/// instant's `nanosecond`, which counts up to 999,999,999 within a second
/// and from 1,000,000,000 to 1,999,999,999 within a leap second. Nothing
/// is claimed of the seconds.
#[verifier::external_body]
fn local_now() -> (now: Timestamp)
    ensures
        now.is_clock_reading(),
{
    let now = chrono::Local::now();
    Timestamp { seconds: now.timestamp(), nanos: now.timestamp_subsec_nanos() }
}

impl Timestamp {
    /// `self` comes after `other`.
    pub open spec fn later_than(self, other: Timestamp) -> bool {
        self.seconds > other.seconds || (self.seconds == other.seconds && self.nanos > other.nanos)
    }

    /// Whether `self` comes after `other`.
    pub fn is_later_than(&self, other: &Timestamp) -> (later: bool)
        ensures
            later == self.later_than(*other),
    {
        self.seconds > other.seconds || (self.seconds == other.seconds && self.nanos > other.nanos)
    }

    /// `self` is an instant that a clock may show: its nanoseconds are
    /// those of one second, or of a second that a leap second follows.
    pub open spec fn is_clock_reading(self) -> bool {
        self.nanos < NANOS_LIMIT
    }

    /// The instant at which the call is made, as the clock shows it.
    pub fn now() -> (now: Timestamp)
        ensures
            now.is_clock_reading(),
    {
        local_now()
    }
}

} // verus!
