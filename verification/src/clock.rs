//! Time as the engine sees it: a reading of a monotonic clock, handed in by
//! the caller with every tick.

use vstd::prelude::*;

verus! {

/// Nanoseconds in a second.
pub const NANOS_PER_SEC: u128 = 1_000_000_000;

/// A reading of a monotonic clock: the nanoseconds that have passed since an
/// origin that the caller fixes once, for instance the start of the process.
#[derive(Clone, Copy, PartialEq, Eq, Structural, Debug)]
pub struct MonotonicTime {
    pub nanos: u128,
}

/// Whole seconds from the clock reading `earlier` to the clock reading
/// `later`, both in nanoseconds; zero when `earlier` is the later of the two.
pub open spec fn secs_between(earlier: nat, later: nat) -> nat {
    if later >= earlier {
        ((later - earlier) / NANOS_PER_SEC as int) as nat
    } else {
        0
    }
}

impl View for MonotonicTime {
    type V = nat;

    /// The reading in nanoseconds.
    open spec fn view(&self) -> nat {
        self.nanos as nat
    }
}

impl MonotonicTime {
    /// Whole seconds from `earlier` to `self`; zero when `earlier` is the
    /// later of the two.
    pub open spec fn secs_since(self, earlier: MonotonicTime) -> nat {
        secs_between(earlier@, self@)
    }

    /// The later of two readings.
    pub open spec fn later_of(self, other: MonotonicTime) -> MonotonicTime {
        if self.nanos >= other.nanos {
            self
        } else {
            other
        }
    }

    /// The reading `secs` seconds after the origin.
    pub fn from_secs(secs: u64) -> (t: MonotonicTime)
        ensures
            t.nanos == secs * NANOS_PER_SEC,
    {
        MonotonicTime { nanos: secs as u128 * NANOS_PER_SEC }
    }

    /// The reading `nanos` nanoseconds after the origin.
    pub fn from_nanos(nanos: u128) -> (t: MonotonicTime)
        ensures
            t.nanos == nanos,
    {
        MonotonicTime { nanos }
    }

    /// Computes `self.secs_since(earlier)`.
    pub fn whole_secs_since(self, earlier: MonotonicTime) -> (secs: u128)
        ensures
            secs == self.secs_since(earlier),
    {
        if self.nanos >= earlier.nanos {
            (self.nanos - earlier.nanos) / NANOS_PER_SEC
        } else {
            0
        }
    }

    /// Computes `self.later_of(other)`.
    pub fn latest(self, other: MonotonicTime) -> (t: MonotonicTime)
        ensures
            t == self.later_of(other),
    {
        if self.nanos >= other.nanos {
            self
        } else {
            other
        }
    }
}

} // verus!
