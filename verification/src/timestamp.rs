//! Points in time, as the overlay records them.

use vstd::prelude::*;

verus! {

/// A point in time: whole seconds since the start of 1970, and the
/// nanoseconds past them.
#[derive(Clone, Copy, Debug, PartialEq, Eq, Structural)]
pub struct Timestamp {
    pub sec: i64,
    pub nsec: i32,
}

impl Timestamp {
    /// The time made of the given seconds and nanoseconds.
    pub fn new(sec: i64, nsec: i32) -> (r: Timestamp)
        ensures
            r == (Timestamp { sec, nsec }),
    {
        Timestamp { sec, nsec }
    }

    /// Whether both stand for the same point in time.
    pub fn same(&self, other: &Timestamp) -> (r: bool)
        ensures
            r == (*self == *other),
    {
        self.sec == other.sec && self.nsec == other.nsec
    }
}

/// Reads the clock with `time::get_time`. Nothing is claimed of the time
/// that comes back.
#[verifier::external_body]
pub(crate) fn read_clock() -> Timestamp {
    let now = time::get_time();
    Timestamp { sec: now.sec, nsec: now.nsec }
}

} // verus!
