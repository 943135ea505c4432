//! The time source and the values in which time is told.

use vstd::prelude::*;

verus! {

pub const MILLIS_PER_SEC: u64 = 1_000;

pub const MICROS_PER_SEC: u64 = 1_000_000;

pub const NANOS_PER_SEC: u64 = 1_000_000_000;

pub const NANOS_PER_MILLIS: u64 = 1_000_000;

pub const NANOS_PER_MICROS: u64 = 1_000;

/// Length of one tick of the timer, which runs at 10 MHz.
pub const NANOS_PER_TICK: u64 = 100;

/// The timer of the platform: the number of ticks since it was started.
pub struct Clock {
    pub ticks: u64,
}

/// A span of time: whole seconds and the nanoseconds of the second begun.
#[derive(Clone, Copy, Debug, PartialEq, Eq, Structural)]
pub struct Duration {
    pub secs: u64,
    pub nanos: u32,
}

pub type TimeValue = Duration;

/// The pair of seconds and microseconds that `gettimeofday` stores.
#[derive(Clone, Copy, Debug, PartialEq, Eq, Structural)]
pub struct TimeVal {
    pub secs: isize,
    pub usecs: isize,
}

impl Clock {
    /// The number of ticks since the timer was started.
    pub fn current_ticks(&self) -> (t: u64)
        ensures
            t == self.ticks,
    {
        self.ticks
    }
}

/// The length of `ticks` ticks in nanoseconds.
pub fn ticks_to_nanos(ticks: u64) -> (n: u64)
    requires
        ticks * NANOS_PER_TICK <= u64::MAX,
    ensures
        n == ticks * NANOS_PER_TICK,
{
    ticks * NANOS_PER_TICK
}

/// The time since the timer was started, in nanoseconds.
pub fn current_time_nanos(clock: &Clock) -> (n: u64)
    requires
        clock.ticks * NANOS_PER_TICK <= u64::MAX,
    ensures
        n == clock.ticks * NANOS_PER_TICK,
{
    ticks_to_nanos(clock.current_ticks())
}

/// The time since the timer was started.
pub fn current_time(clock: &Clock) -> (d: TimeValue)
    requires
        clock.ticks * NANOS_PER_TICK <= u64::MAX,
    ensures
        d.wf(),
        d.total_nanos() == clock.ticks * NANOS_PER_TICK,
{
    Duration::from_nanos(current_time_nanos(clock))
}

impl Duration {
    /// The nanoseconds are less than a second.
    pub open spec fn wf(&self) -> bool {
        self.nanos < NANOS_PER_SEC
    }

    /// The span in nanoseconds.
    pub open spec fn total_nanos(&self) -> int {
        self.secs * NANOS_PER_SEC + self.nanos
    }

    /// The span in whole microseconds.
    pub open spec fn total_micros(&self) -> int {
        self.secs * MICROS_PER_SEC + self.nanos / 1000
    }

    /// The span of `nanos` nanoseconds.
    pub fn from_nanos(nanos: u64) -> (d: Self)
        ensures
            d.wf(),
            d.total_nanos() == nanos,
            d == (Duration { secs: nanos / NANOS_PER_SEC, nanos: (nanos % NANOS_PER_SEC) as u32 }),
    {
        Duration { secs: nanos / NANOS_PER_SEC, nanos: (nanos % NANOS_PER_SEC) as u32 }
    }

    /// The span of `micros` microseconds.
    pub fn from_micros(micros: u64) -> (d: Self)
        ensures
            d.wf(),
            d.total_nanos() == micros * 1000,
            d.total_micros() == micros,
            d == (Duration {
                secs: micros / MICROS_PER_SEC,
                nanos: ((micros % MICROS_PER_SEC) * NANOS_PER_MICROS) as u32,
            }),
    {
        Duration {
            secs: micros / MICROS_PER_SEC,
            nanos: ((micros % MICROS_PER_SEC) * NANOS_PER_MICROS) as u32,
        }
    }

    /// The whole seconds of the span.
    pub fn as_secs(&self) -> (s: u64)
        ensures
            s == self.secs,
    {
        self.secs
    }

    /// The span in whole microseconds.
    pub fn as_micros(&self) -> (m: u128)
        ensures
            m == self.total_micros(),
    {
        let secs: u128 = self.secs as u128;
        let sub: u128 = (self.nanos / 1000) as u128;
        assert(secs * 1_000_000 + sub <= u128::MAX);
        secs * 1_000_000 + sub
    }

    /// The span by which `self` is longer than `earlier`, which must not be
    /// the longer one.
    pub fn sub(self, earlier: Duration) -> (d: Self)
        requires
            self.wf(),
            earlier.wf(),
            earlier.total_nanos() <= self.total_nanos(),
        ensures
            d.wf(),
            d.total_nanos() == self.total_nanos() - earlier.total_nanos(),
    {
        if self.nanos >= earlier.nanos {
            Duration { secs: self.secs - earlier.secs, nanos: self.nanos - earlier.nanos }
        } else {
            Duration {
                secs: self.secs - earlier.secs - 1,
                nanos: self.nanos + 1_000_000_000u32 - earlier.nanos,
            }
        }
    }
}

/// The pair that tells a span: its whole seconds, and the span in whole
/// microseconds. Numbers that are too large wrap around.
pub open spec fn spec_timeval_of(d: Duration) -> TimeVal {
    TimeVal { secs: d.secs as isize, usecs: (d.total_micros() as u128) as isize }
}

/// The pair that tells a span.
pub fn timeval_of(d: Duration) -> (tv: TimeVal)
    ensures
        tv == spec_timeval_of(d),
{
    let secs: u64 = d.as_secs();
    let micros: u128 = d.as_micros();
    TimeVal {
        secs: #[verifier::truncate]
        (secs as isize),
        usecs: #[verifier::truncate]
        (micros as isize),
    }
}

/// The span of as many microseconds as the pair holds. A negative number
/// wraps around.
pub open spec fn spec_duration_of(tv: TimeVal) -> Duration {
    Duration {
        secs: (tv.usecs as u64) / MICROS_PER_SEC,
        nanos: (((tv.usecs as u64) % MICROS_PER_SEC) * NANOS_PER_MICROS) as u32,
    }
}

/// The span of as many microseconds as the pair holds.
pub fn duration_of(tv: TimeVal) -> (d: Duration)
    ensures
        d == spec_duration_of(tv),
        d.wf(),
{
    Duration::from_micros(#[verifier::truncate] (tv.usecs as u64))
}

impl From<Duration> for TimeVal {
    fn from(value: Duration) -> (tv: TimeVal) {
        timeval_of(value)
    }
}

impl vstd::std_specs::convert::FromSpecImpl<Duration> for TimeVal {
    open spec fn obeys_from_spec() -> bool {
        true
    }

    open spec fn from_spec(value: Duration) -> TimeVal {
        spec_timeval_of(value)
    }
}

impl From<TimeVal> for Duration {
    fn from(value: TimeVal) -> (d: Duration) {
        duration_of(value)
    }
}

impl vstd::std_specs::convert::FromSpecImpl<TimeVal> for Duration {
    open spec fn obeys_from_spec() -> bool {
        true
    }

    open spec fn from_spec(value: TimeVal) -> Duration {
        spec_duration_of(value)
    }
}

impl Default for TimeVal {
    fn default() -> (tv: Self)
        ensures
            tv == (TimeVal { secs: 0, usecs: 0 }),
    {
        TimeVal { secs: 0, usecs: 0 }
    }
}

} // verus!
