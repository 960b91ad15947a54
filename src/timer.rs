use std::time::{Duration, Instant};
use vstd::prelude::*;

verus! {

#[verifier::external_type_specification]
#[verifier::external_body]
pub struct ExInstant(Instant);

/// Relies on std::time::Instant::now: the current reading of the monotonic
/// clock; nothing is known of its value.
#[verifier::external_body]
fn clock_now() -> (r: Instant) {
    Instant::now()
}

/// Relies on std::time::Instant::saturating_duration_since: the time from
/// `earlier` to `later`, zero when `earlier` is the later one; it does not
/// panic.
#[verifier::external_body]
fn duration_between(later: Instant, earlier: Instant) -> (r: Duration) {
    later.saturating_duration_since(earlier)
}

/// Relies on std::time::Duration::as_nanos: the length in nanoseconds.
#[verifier::external_body]
fn duration_nanos(d: Duration) -> (r: u128) {
    d.as_nanos()
}

/// Relies on std::time::Duration::from_nanos: a span of `n` nanoseconds.
#[verifier::external_body]
fn duration_from_nanos(n: u64) -> (r: Duration) {
    Duration::from_nanos(n)
}

/// Relies on std::time::Instant::checked_add: the instant `d` after `t`, or
/// `None` where the clock cannot represent it.
#[verifier::external_body]
fn instant_after(t: Instant, d: Duration) -> (r: Option<Instant>) {
    t.checked_add(d)
}

/// `a - b`, or zero when `b` is the larger.
pub open spec fn minus_or_zero(a: int, b: int) -> int {
    if a >= b {
        a - b
    } else {
        0
    }
}

/// A clock that can be paused. Its reading, in nanoseconds from the moment
/// it was made or restarted, follows the clock minus the time spent paused,
/// and stays where it stopped while paused.
pub struct Timer {
    origin: Instant,
    current: u64,
    time_paused: u64,
    is_paused: bool,
}

impl Timer {
    /// The reading last reported, in nanoseconds from the origin.
    pub closed spec fn current(&self) -> u64 {
        self.current
    }

    /// How far the reading lags behind the clock.
    pub closed spec fn lag(&self) -> u64 {
        self.time_paused
    }

    pub closed spec fn paused(&self) -> bool {
        self.is_paused
    }

    /// `new` is `old` after the clock read `now` nanoseconds from the origin.
    pub open spec fn timed(old: Timer, new: Timer, now: int) -> bool {
        &&& new.paused() == old.paused()
        &&& old.paused() ==> new.current() == old.current() && new.lag() == minus_or_zero(
            now,
            old.current() as int,
        )
        &&& !old.paused() ==> new.lag() == old.lag() && new.current() == minus_or_zero(
            now,
            old.lag() as int,
        )
    }

    pub fn new() -> (r: Self)
        ensures
            !r.paused(),
            r.current() == 0,
            r.lag() == 0,
    {
        Self { origin: clock_now(), current: 0, time_paused: 0, is_paused: false }
    }

    /// Starts again from the present, with no lag.
    pub fn restart(&mut self)
        ensures
            final(self).paused() == old(self).paused(),
            final(self).current() == 0,
            final(self).lag() == 0,
    {
        self.origin = clock_now();
        self.current = 0;
        self.time_paused = 0;
    }

    pub fn pause(&mut self)
        ensures
            final(self).paused(),
            final(self).current() == old(self).current(),
            final(self).lag() == old(self).lag(),
    {
        self.is_paused = true;
    }

    pub fn resume(&mut self)
        ensures
            !final(self).paused(),
            final(self).current() == old(self).current(),
            final(self).lag() == old(self).lag(),
    {
        self.is_paused = false;
    }

    /// The reading when the clock stands `now` nanoseconds past the origin.
    /// While paused it stays put and the lag becomes the time since it;
    /// otherwise it is the clock minus the lag.
    pub fn time_at(&mut self, now: u64) -> (r: u64)
        ensures
            Timer::timed(*old(self), *final(self), now as int),
            r == final(self).current(),
    {
        if self.is_paused {
            self.time_paused = if now >= self.current {
                now - self.current
            } else {
                0
            };
        } else {
            self.current = if now >= self.time_paused {
                now - self.time_paused
            } else {
                0
            };
        }
        self.current
    }

    /// Nanoseconds that the clock stands past the origin, saturated.
    fn clock_nanos(&self) -> u64 {
        let n = duration_nanos(duration_between(clock_now(), self.origin));
        if n > u64::MAX as u128 {
            u64::MAX
        } else {
            n as u64
        }
    }

    /// Reads the clock and returns the timer's instant: the origin plus the
    /// reading of `time_at` (the origin itself should the clock be unable to
    /// represent that instant).
    pub fn time(&mut self) -> (r: Instant)
        ensures
            exists|now: u64| Timer::timed(*old(self), *final(self), now as int),
    {
        let now = self.clock_nanos();
        let reading = self.time_at(now);
        match instant_after(self.origin, duration_from_nanos(reading)) {
            Some(t) => t,
            None => self.origin,
        }
    }

    pub fn is_paused(&self) -> (r: bool)
        ensures
            r == self.paused(),
    {
        self.is_paused
    }
}

} // verus!
