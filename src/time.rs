use vstd::prelude::*;

verus! {

/// A span of time, counted in whole nanoseconds.
#[derive(Clone, Copy, Debug, PartialEq, Eq, Structural)]
pub struct Duration {
    pub nanos: u64,
}

/// A reading of a monotonic clock: nanoseconds since an origin that the
/// caller picks once (typically the moment the process started).
#[derive(Clone, Copy, Debug, PartialEq, Eq, Structural)]
pub struct Instant {
    pub nanos: u64,
}

pub const NANOS_PER_MILLI: u64 = 1_000_000;

pub const NANOS_PER_SEC: u64 = 1_000_000_000;

impl Duration {
    /// The empty span.
    pub fn zero() -> (r: Duration)
        ensures
            r.nanos == 0,
    {
        Duration { nanos: 0 }
    }

    pub fn from_nanos(nanos: u64) -> (r: Duration)
        ensures
            r.nanos == nanos,
    {
        Duration { nanos }
    }

    pub fn from_millis(millis: u64) -> (r: Duration)
        requires
            millis * NANOS_PER_MILLI <= u64::MAX,
        ensures
            r.nanos == millis * NANOS_PER_MILLI,
    {
        Duration { nanos: millis * NANOS_PER_MILLI }
    }

    pub fn from_secs(secs: u64) -> (r: Duration)
        requires
            secs * NANOS_PER_SEC <= u64::MAX,
        ensures
            r.nanos == secs * NANOS_PER_SEC,
    {
        Duration { nanos: secs * NANOS_PER_SEC }
    }

    /// Whole seconds in this span, rounded down.
    pub fn as_secs(&self) -> (r: u64)
        ensures
            r == self.nanos / NANOS_PER_SEC,
    {
        self.nanos / NANOS_PER_SEC
    }

    /// Whole minutes, and the seconds left over, of this span rounded down to
    /// whole seconds: what an `mm:ss` clock shows.
    pub fn minutes_and_seconds(&self) -> (r: (u64, u64))
        ensures
            r.0 == self.nanos / NANOS_PER_SEC / 60,
            r.1 == self.nanos / NANOS_PER_SEC % 60,
    {
        let secs = self.as_secs();
        (secs / 60, secs % 60)
    }

    /// `self - other`, or zero where `other` is the longer span.
    pub fn saturating_sub(self, other: Duration) -> (r: Duration)
        ensures
            r.nanos == if self.nanos >= other.nanos { self.nanos - other.nanos } else { 0 },
    {
        if self.nanos >= other.nanos {
            Duration { nanos: self.nanos - other.nanos }
        } else {
            Duration::zero()
        }
    }

    /// `self + other`, or the longest representable span where the sum does
    /// not fit.
    pub fn saturating_add(self, other: Duration) -> (r: Duration)
        ensures
            r.nanos == if self.nanos + other.nanos <= u64::MAX {
                self.nanos + other.nanos
            } else {
                u64::MAX as int
            },
    {
        if self.nanos <= u64::MAX - other.nanos {
            Duration { nanos: self.nanos + other.nanos }
        } else {
            Duration { nanos: u64::MAX }
        }
    }
}

impl Instant {
    pub fn from_nanos(nanos: u64) -> (r: Instant)
        ensures
            r.nanos == nanos,
    {
        Instant { nanos }
    }

    /// Time from `earlier` to `self`, clamped to zero where the clock reads
    /// `earlier` as the later of the two.
    pub fn saturating_duration_since(self, earlier: Instant) -> (r: Duration)
        ensures
            r.nanos == if self.nanos >= earlier.nanos { self.nanos - earlier.nanos } else { 0 },
    {
        if self.nanos >= earlier.nanos {
            Duration { nanos: self.nanos - earlier.nanos }
        } else {
            Duration::zero()
        }
    }
}

} // verus!
