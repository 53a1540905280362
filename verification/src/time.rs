//! Spans of time and points in time, counted in whole nanoseconds.

use vstd::prelude::*;

verus! {

/// Nanoseconds in one second.
pub const NANOS_PER_SEC: u128 = 1_000_000_000;

/// The longest span: `u64::MAX` seconds and 999 999 999 nanoseconds.
pub const MAX_DURATION_NANOS: u128 = 18_446_744_073_709_551_615_999_999_999;

/// The earliest point in time, relative to the Unix epoch: `i64::MIN` seconds.
pub const MIN_TIME_NANOS: i128 = -9_223_372_036_854_775_808_000_000_000;

/// The latest point in time, relative to the Unix epoch: `i64::MAX` seconds and
/// 999 999 999 nanoseconds.
pub const MAX_TIME_NANOS: i128 = 9_223_372_036_854_775_807_999_999_999;

/// A span of time. Its view is its length in nanoseconds.
#[derive(Copy, Clone, Debug, PartialEq, Eq, PartialOrd, Ord, Hash)]
pub struct Duration {
    nanos: u128,
}

impl View for Duration {
    type V = nat;

    closed spec fn view(&self) -> nat {
        self.nanos as nat
    }
}

impl Duration {
    #[verifier::type_invariant]
    spec fn in_range(self) -> bool {
        self.nanos <= MAX_DURATION_NANOS
    }

    /// The empty span.
    pub fn zero() -> (d: Duration)
        ensures
            d@ == 0,
    {
        Duration { nanos: 0 }
    }

    /// A span of `secs` seconds.
    pub fn from_secs(secs: u64) -> (d: Duration)
        ensures
            d@ == secs * NANOS_PER_SEC,
    {
        Duration { nanos: secs as u128 * NANOS_PER_SEC }
    }

    /// A span of `millis` milliseconds.
    pub fn from_millis(millis: u64) -> (d: Duration)
        ensures
            d@ == millis * 1_000_000,
    {
        Duration { nanos: millis as u128 * 1_000_000 }
    }

    /// A span of `micros` microseconds.
    pub fn from_micros(micros: u64) -> (d: Duration)
        ensures
            d@ == micros * 1_000,
    {
        Duration { nanos: micros as u128 * 1_000 }
    }

    /// A span of `nanos` nanoseconds.
    pub fn from_nanos(nanos: u64) -> (d: Duration)
        ensures
            d@ == nanos,
    {
        Duration { nanos: nanos as u128 }
    }

    /// A span of `secs` seconds and `nanos` nanoseconds, where `nanos` is less than
    /// a second.
    pub fn from_parts(secs: u64, nanos: u32) -> (d: Duration)
        requires
            nanos < NANOS_PER_SEC,
        ensures
            d@ == secs * NANOS_PER_SEC + nanos,
    {
        Duration { nanos: secs as u128 * NANOS_PER_SEC + nanos as u128 }
    }

    /// The whole span in nanoseconds.
    pub fn as_nanos(&self) -> (n: u128)
        ensures
            n == self@,
            n <= MAX_DURATION_NANOS,
    {
        proof {
            use_type_invariant(self);
        }
        self.nanos
    }

    /// The whole microseconds in the span.
    pub fn as_micros(&self) -> (n: u128)
        ensures
            n == self@ / 1_000,
    {
        self.nanos / 1_000
    }

    /// The whole seconds in the span.
    pub fn as_secs(&self) -> (n: u64)
        ensures
            n == self@ / NANOS_PER_SEC as nat,
    {
        proof {
            use_type_invariant(self);
        }
        (self.nanos / NANOS_PER_SEC) as u64
    }

    /// The nanoseconds in the span beyond its whole seconds.
    pub fn subsec_nanos(&self) -> (n: u32)
        ensures
            n == self@ % NANOS_PER_SEC as nat,
    {
        (self.nanos % NANOS_PER_SEC) as u32
    }

    /// The sum of two spans, or nothing when it is longer than the longest span.
    pub fn checked_add(self, other: Duration) -> (sum: Option<Duration>)
        ensures
            sum is Some <==> self@ + other@ <= MAX_DURATION_NANOS,
            sum matches Some(d) ==> d@ == self@ + other@,
    {
        proof {
            use_type_invariant(&self);
            use_type_invariant(&other);
        }
        let nanos: u128 = self.nanos + other.nanos;
        if nanos <= MAX_DURATION_NANOS {
            Some(Duration { nanos })
        } else {
            None
        }
    }

    /// The sum of two spans.
    pub fn plus(self, other: Duration) -> (sum: Duration)
        requires
            self@ + other@ <= MAX_DURATION_NANOS,
        ensures
            sum@ == self@ + other@,
    {
        Duration { nanos: self.nanos + other.nanos }
    }

    /// Whether this span is shorter than `other`.
    pub fn is_shorter_than(&self, other: &Duration) -> (b: bool)
        ensures
            b == (self@ < other@),
    {
        self.nanos < other.nanos
    }
}

/// A point in time. Its view is its distance from the Unix epoch in nanoseconds,
/// negative before the epoch.
#[derive(Copy, Clone, Debug, PartialEq, Eq, PartialOrd, Ord, Hash)]
pub struct SystemTime {
    nanos: i128,
}

impl View for SystemTime {
    type V = int;

    closed spec fn view(&self) -> int {
        self.nanos as int
    }
}

impl SystemTime {
    #[verifier::type_invariant]
    spec fn in_range(self) -> bool {
        MIN_TIME_NANOS <= self.nanos <= MAX_TIME_NANOS
    }

    /// The Unix epoch.
    pub fn unix_epoch() -> (t: SystemTime)
        ensures
            t@ == 0,
    {
        SystemTime { nanos: 0 }
    }

    /// The point `secs` seconds and `nanos` nanoseconds after the Unix epoch, where
    /// `nanos` is less than a second and always counts forward.
    pub fn from_parts(secs: i64, nanos: u32) -> (t: SystemTime)
        requires
            nanos < NANOS_PER_SEC,
        ensures
            t@ == secs * NANOS_PER_SEC + nanos,
    {
        SystemTime { nanos: secs as i128 * 1_000_000_000 + nanos as i128 }
    }

    /// The distance from the Unix epoch in nanoseconds.
    pub fn nanos_from_epoch(&self) -> (n: i128)
        ensures
            n == self@,
            MIN_TIME_NANOS <= n <= MAX_TIME_NANOS,
    {
        proof {
            use_type_invariant(self);
        }
        self.nanos
    }

    /// The span from `earlier` to this point, or nothing when `earlier` is later.
    pub fn duration_since(&self, earlier: SystemTime) -> (d: Option<Duration>)
        ensures
            d is Some <==> earlier@ <= self@,
            d matches Some(span) ==> span@ == self@ - earlier@,
    {
        proof {
            use_type_invariant(self);
            use_type_invariant(&earlier);
        }
        if earlier.nanos <= self.nanos {
            Some(Duration { nanos: (self.nanos - earlier.nanos) as u128 })
        } else {
            None
        }
    }

    /// The point `d` after this one, or nothing when it is past the latest point.
    pub fn checked_add(&self, d: Duration) -> (t: Option<SystemTime>)
        ensures
            t is Some <==> self@ + d@ <= MAX_TIME_NANOS,
            t matches Some(later) ==> later@ == self@ + d@,
    {
        proof {
            use_type_invariant(self);
            use_type_invariant(&d);
        }
        let nanos: i128 = self.nanos + d.nanos as i128;
        if nanos <= MAX_TIME_NANOS {
            Some(SystemTime { nanos })
        } else {
            None
        }
    }

    /// The point `d` after this one.
    pub fn plus(&self, d: Duration) -> (t: SystemTime)
        requires
            self@ + d@ <= MAX_TIME_NANOS,
        ensures
            t@ == self@ + d@,
    {
        proof {
            use_type_invariant(self);
            use_type_invariant(&d);
        }
        SystemTime { nanos: self.nanos + d.nanos as i128 }
    }

    /// Whether this point is before `other`.
    pub fn is_before(&self, other: &SystemTime) -> (b: bool)
        ensures
            b == (self@ < other@),
    {
        self.nanos < other.nanos
    }
}

} // verus!
