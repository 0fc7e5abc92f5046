//! Durations and points in time, counted in nanoseconds.
//!
//! A [`Duration`] is a span of nanoseconds; an [`Instant`] is a point in time
//! given as nanoseconds since the Unix epoch.  Only [`Instant::now`] reads the
//! clock; everything else is plain arithmetic on the counts.
use vstd::prelude::*;
use vstd::std_specs::ops::AddSpecImpl;
use vstd::std_specs::ops::SubSpecImpl;

verus! {

/// A span of time.
#[derive(Debug, Clone, Copy, PartialEq, Eq, Structural)]
pub struct Duration {
    /// Length in nanoseconds.
    pub nanos: u128,
}

impl View for Duration {
    type V = nat;

    /// The span in nanoseconds.
    open spec fn view(&self) -> nat {
        self.nanos as nat
    }
}

/// Nanoseconds in one second.
pub const NANOS_PER_SEC: u128 = 1_000_000_000;

/// Nanoseconds in one millisecond.
pub const NANOS_PER_MILLI: u128 = 1_000_000;

impl Duration {
    /// A duration of `secs` whole seconds.
    pub fn from_secs(secs: u64) -> (d: Duration)
        ensures
            d@ == secs * 1_000_000_000,
    {
        Duration { nanos: secs as u128 * NANOS_PER_SEC }
    }

    /// A duration of `millis` milliseconds.
    pub fn from_millis(millis: u64) -> (d: Duration)
        ensures
            d@ == millis * 1_000_000,
    {
        Duration { nanos: millis as u128 * NANOS_PER_MILLI }
    }

    /// A duration of `nanos` nanoseconds.
    pub fn from_nanos(nanos: u64) -> (d: Duration)
        ensures
            d@ == nanos,
    {
        Duration { nanos: nanos as u128 }
    }

    /// The whole number of seconds in this duration (the remainder is dropped).
    pub fn as_secs(&self) -> (s: u128)
        ensures
            s == self@ / 1_000_000_000,
    {
        self.nanos / NANOS_PER_SEC
    }

    /// The whole number of milliseconds in this duration.
    pub fn as_millis(&self) -> (ms: u128)
        ensures
            ms == self@ / 1_000_000,
    {
        self.nanos / NANOS_PER_MILLI
    }

    /// The number of nanoseconds in this duration.
    pub fn as_nanos(&self) -> (n: u128)
        ensures
            n == self@,
    {
        self.nanos
    }
}

/// A point in time: nanoseconds since the Unix epoch.
#[derive(Debug, Clone, Copy, PartialEq, Eq, Structural)]
pub struct Instant {
    /// Nanoseconds since the Unix epoch.
    pub nanos: u128,
}

impl View for Instant {
    type V = nat;

    /// Nanoseconds since the Unix epoch.
    open spec fn view(&self) -> nat {
        self.nanos as nat
    }
}

/// Reads the system clock (std `SystemTime::now`) as nanoseconds since the
/// Unix epoch; a clock set before the epoch reads as zero.  Nothing is claimed
/// about the value: it depends on the machine and the moment of the call.
#[verifier::external_body]
fn system_clock_nanos() -> u128 {
    match std::time::SystemTime::now().duration_since(std::time::UNIX_EPOCH) {
        Ok(d) => d.as_nanos(),
        Err(_) => 0,
    }
}

impl Instant {
    /// The current time.  Two calls may return any values.
    pub fn now() -> (t: Instant) {
        Instant { nanos: system_clock_nanos() }
    }

    /// The point `nanos` nanoseconds after the Unix epoch.
    pub fn from_nanos_since_epoch(nanos: u128) -> (t: Instant)
        ensures
            t@ == nanos,
    {
        Instant { nanos }
    }

    /// This point plus `d`, or `None` where the sum does not fit.
    pub fn checked_add(&self, d: Duration) -> (r: Option<Instant>)
        ensures
            r matches Some(t) ==> t@ == self@ + d@,
            r is None <==> self@ + d@ > u128::MAX,
    {
        match self.nanos.checked_add(d.nanos) {
            Some(n) => Some(Instant { nanos: n }),
            None => None,
        }
    }

    /// This point plus `d`, or the latest representable point where the sum
    /// does not fit.
    pub fn saturating_add(&self, d: Duration) -> (t: Instant)
        ensures
            t@ == if self@ + d@ > u128::MAX { u128::MAX as int } else { self@ + d@ as int },
    {
        Instant { nanos: self.nanos.saturating_add(d.nanos) }
    }

    /// This point minus `d`, or `None` where that lies before the epoch.
    pub fn checked_sub(&self, d: Duration) -> (r: Option<Instant>)
        ensures
            r matches Some(t) ==> t@ == self@ - d@,
            r is None <==> self@ < d@,
    {
        if self.nanos >= d.nanos {
            Some(Instant { nanos: self.nanos - d.nanos })
        } else {
            None
        }
    }

    /// The time from `earlier` to this point, or zero where `earlier` is later.
    pub fn saturating_duration_since(&self, earlier: Instant) -> (d: Duration)
        ensures
            d@ == if self@ >= earlier@ { self@ - earlier@ } else { 0 },
    {
        if self.nanos >= earlier.nanos {
            Duration { nanos: self.nanos - earlier.nanos }
        } else {
            Duration { nanos: 0 }
        }
    }

    /// Whether this point is at or after `other`.
    pub fn is_at_or_after(&self, other: &Instant) -> (b: bool)
        ensures
            b == (self@ >= other@),
    {
        self.nanos >= other.nanos
    }

    /// Whether this point is strictly before `other`.
    pub fn is_before(&self, other: &Instant) -> (b: bool)
        ensures
            b == (self@ < other@),
    {
        self.nanos < other.nanos
    }
}

impl core::ops::Add<Duration> for Instant {
    type Output = Instant;

    fn add(self, d: Duration) -> (t: Instant) {
        Instant { nanos: self.nanos + d.nanos }
    }
}

impl AddSpecImpl<Duration> for Instant {
    open spec fn obeys_add_spec() -> bool {
        true
    }

    open spec fn add_req(self, d: Duration) -> bool {
        self@ + d@ <= u128::MAX
    }

    open spec fn add_spec(self, d: Duration) -> Instant {
        Instant { nanos: (self.nanos + d.nanos) as u128 }
    }
}

impl core::ops::Sub<Duration> for Instant {
    type Output = Instant;

    fn sub(self, d: Duration) -> (t: Instant) {
        Instant { nanos: self.nanos - d.nanos }
    }
}

impl SubSpecImpl<Duration> for Instant {
    open spec fn obeys_sub_spec() -> bool {
        true
    }

    open spec fn sub_req(self, d: Duration) -> bool {
        self@ >= d@
    }

    open spec fn sub_spec(self, d: Duration) -> Instant {
        Instant { nanos: (self.nanos - d.nanos) as u128 }
    }
}

} // verus!
