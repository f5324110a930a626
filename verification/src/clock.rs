//! Readings of the wall clock and the waiting times measured against them.

use vstd::prelude::*;

verus! {

/// Nanoseconds in one second.
pub const NANOS_PER_SEC: i128 = 1_000_000_000;

/// A reading of the wall clock, as whole seconds since the Unix epoch
/// (negative before it) and the nanoseconds that follow them.
#[derive(Debug, Clone, Copy, PartialEq, Eq, Structural)]
pub struct WallTime {
    pub secs: i64,
    pub nanos: u32,
}

impl WallTime {
    /// The reading as one count of nanoseconds.
    pub open spec fn at(self) -> int {
        self.secs * NANOS_PER_SEC + self.nanos
    }

    /// `wait` seconds after `self`, as a count of nanoseconds.
    pub open spec fn deadline(self, wait: nat) -> int {
        self.at() + wait * NANOS_PER_SEC
    }

    /// Computes `deadline`; no reading and no waiting time overflows it.
    pub fn deadline_nanos(&self, wait: u64) -> (r: i128)
        ensures
            r as int == self.deadline(wait as nat),
            r == self.secs * 1_000_000_000 + self.nanos + wait * 1_000_000_000,
    {
        self.secs as i128 * NANOS_PER_SEC + self.nanos as i128 + wait as i128 * NANOS_PER_SEC
    }

    /// Whether `self` lies strictly after the end of `wait` seconds from `start`.
    pub fn is_past(&self, start: WallTime, wait: u64) -> (r: bool)
        ensures
            r == (self.at() > start.deadline(wait as nat)),
            r == ((self.secs - start.secs) * 1_000_000_000 + (self.nanos - start.nanos) > wait
                * 1_000_000_000),
    {
        self.deadline_nanos(0) > start.deadline_nanos(wait)
    }

    /// Whether `self` lies strictly before the end of `wait` seconds from `start`.
    pub fn is_within(&self, start: WallTime, wait: u64) -> (r: bool)
        ensures
            r == (self.at() < start.deadline(wait as nat)),
            r == ((self.secs - start.secs) * 1_000_000_000 + (self.nanos - start.nanos) < wait
                * 1_000_000_000),
    {
        self.deadline_nanos(0) < start.deadline_nanos(wait)
    }
}

/// The end of a wait lies exactly that wait behind its start, however long it
/// is: a reading lies past it, or before it, exactly where more, or less, than
/// the wait has gone by between the two readings.
pub proof fn a_wait_is_as_long_as_it_says(start: WallTime, now: WallTime, wait: nat)
    ensures
        now.at() > start.deadline(wait) <==> (now.secs - start.secs) * 1_000_000_000 + (now.nanos
            - start.nanos) > wait * 1_000_000_000,
        now.at() < start.deadline(wait) <==> (now.secs - start.secs) * 1_000_000_000 + (now.nanos
            - start.nanos) < wait * 1_000_000_000,
        now.at() - start.at() == (now.secs - start.secs) * 1_000_000_000 + (now.nanos
            - start.nanos),
        start.deadline(wait) - start.at() == wait * 1_000_000_000,
{
}

/// A reading is counted from the Unix epoch, in nanoseconds.
pub proof fn a_reading_counts_from_the_epoch(now: WallTime)
    ensures
        now.secs == 0 && now.nanos == 0 ==> now.at() == 0,
        now.at() == now.secs * 1_000_000_000 + now.nanos,
{
}

} // verus!
