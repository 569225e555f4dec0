//! Wall-clock timestamps, in milliseconds since the Unix epoch.
//!
//! The ledger never reads a clock itself; every operation that needs the
//! current time takes it as an argument.

use vstd::prelude::*;

verus! {

/// A point in time, in milliseconds since the Unix epoch.
#[derive(Clone, Copy, PartialEq, Eq, Structural, PartialOrd, Ord, Debug)]
pub struct Timestamp {
    pub millis: u64,
}

impl Timestamp {
    /// The Unix epoch itself.
    pub fn unix_epoch() -> (r: Timestamp)
        ensures
            r == (Timestamp { millis: 0u64 }),
    {
        Timestamp { millis: 0 }
    }

    /// A timestamp a given number of milliseconds into the era.
    pub fn from_millis(millis: u64) -> (r: Timestamp)
        ensures
            r == (Timestamp { millis }),
    {
        Timestamp { millis }
    }

    /// This timestamp shifted `ms` milliseconds into the future.
    pub fn add_millis(self, ms: u64) -> (r: Timestamp)
        requires
            self.millis + ms <= u64::MAX,
        ensures
            r.millis == self.millis + ms,
    {
        Timestamp { millis: self.millis + ms }
    }
}

} // verus!
