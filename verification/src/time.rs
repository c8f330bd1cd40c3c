//! Readings of a monotonic clock, as plain values.

use vstd::prelude::*;

verus! {

/// Nanoseconds in one second.
pub const NANOS_PER_SEC: u128 = 1_000_000_000;

/// A reading of the driver's clock: whole nanoseconds since a fixed instant
/// that the driver chose, such as the moment it started.
#[derive(Clone, Copy, Debug, PartialEq, Eq, Structural, Hash)]
pub struct Timestamp {
    pub nanos: u128,
}

impl Timestamp {
    /// The reading `nanos` nanoseconds after the clock's origin.
    pub fn from_nanos(nanos: u128) -> (t: Timestamp)
        ensures
            t.nanos == nanos,
    {
        Timestamp { nanos }
    }

    /// The reading `secs` whole seconds after the clock's origin.
    pub fn from_secs(secs: u64) -> (t: Timestamp)
        ensures
            t.nanos == secs * NANOS_PER_SEC,
    {
        assert(secs * NANOS_PER_SEC <= u128::MAX) by (nonlinear_arith)
            requires
                secs <= u64::MAX,
                NANOS_PER_SEC == 1_000_000_000,
        ;
        Timestamp { nanos: (secs as u128) * NANOS_PER_SEC }
    }

    /// How long the clock ran from `earlier` to `self`, in nanoseconds; zero
    /// where `earlier` is not before `self`.
    pub open spec fn spec_since(self, earlier: Timestamp) -> nat {
        if self.nanos >= earlier.nanos {
            (self.nanos - earlier.nanos) as nat
        } else {
            0
        }
    }

    /// How long the clock ran from `earlier` to `self`, in nanoseconds; zero
    /// where `earlier` is not before `self`.
    pub fn since(self, earlier: Timestamp) -> (elapsed: u128)
        ensures
            elapsed == self.spec_since(earlier),
    {
        if self.nanos >= earlier.nanos {
            self.nanos - earlier.nanos
        } else {
            0
        }
    }
}

} // verus!
