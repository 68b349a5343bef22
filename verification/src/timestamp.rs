//! Points in time as the library holds them: whole seconds since the Unix epoch
//! and the nanoseconds within that second.

use vstd::prelude::*;

verus! {

/// A UTC point in time: `secs` seconds after 1970-01-01 00:00:00 and `nanos`
/// nanoseconds into that second (at or above 1_000_000_000 only in a leap second).
#[derive(Clone, Copy, Debug, PartialEq, Eq, Structural)]
pub struct Timestamp {
    pub secs: i64,
    pub nanos: u32,
}

impl Timestamp {
    /// `self` is strictly earlier than `other`.
    pub open spec fn before(self, other: Timestamp) -> bool {
        self.secs < other.secs || (self.secs == other.secs && self.nanos < other.nanos)
    }

    pub fn is_before(&self, other: &Timestamp) -> (r: bool)
        ensures
            r == self.before(*other),
    {
        self.secs < other.secs || (self.secs == other.secs && self.nanos < other.nanos)
    }

    pub fn from_pair(p: (i64, u32)) -> (r: Timestamp)
        ensures
            r.secs == p.0,
            r.nanos == p.1,
    {
        Timestamp { secs: p.0, nanos: p.1 }
    }
}

/// The timestamp of a pair of seconds and nanoseconds.
pub open spec fn ts_of(p: (i64, u32)) -> Timestamp {
    Timestamp { secs: p.0, nanos: p.1 }
}

/// Earlier of two timestamps.
pub open spec fn ts_min(a: Timestamp, b: Timestamp) -> Timestamp {
    if b.before(a) { b } else { a }
}

/// Later of two timestamps.
pub open spec fn ts_max(a: Timestamp, b: Timestamp) -> Timestamp {
    if a.before(b) { b } else { a }
}

} // verus!
