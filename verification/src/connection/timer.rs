//! Single-shot timers over the monotonic clock.
//!
//! A timer remembers when it was started and for how long it runs.
//! Durations are whole nanoseconds. Reading the clock is the one thing
//! here that is not computed: every decision is a function of the time
//! that has passed since the start, and is stated for every such time.

use std::time::Instant;
use vstd::prelude::*;

verus! {

/// The clock reading of the standard library, opaque to the proofs.
#[verifier::external_type_specification]
#[verifier::external_body]
pub struct ExInstant(Instant);

/// `Clone::clone` of a clock reading, which the copies of a waiting
/// segment need. Nothing is claimed about the copy.
pub assume_specification[ <Instant as Clone>::clone ](reading: &Instant) -> (copy: Instant)
;

/// Reads the monotonic clock with `Instant::now`. Nothing is claimed about
/// the reading.
#[verifier::external_body]
pub(crate) fn clock_now() -> (now: Instant) {
    Instant::now()
}

/// The nanoseconds that have passed since `since`: `Instant::elapsed`,
/// converted with `Duration::as_nanos`. The standard library gives zero
/// where the clock has not advanced; nothing more is claimed.
#[verifier::external_body]
pub(crate) fn elapsed_nanos(since: &Instant) -> (nanos: u128) {
    since.elapsed().as_nanos()
}

/// Narrows a nanosecond count to 64 bits, stopping at the largest value.
pub fn clamp_nanos(nanos: u128) -> (result: u64)
    ensures
        result == (if nanos > u64::MAX {
            u64::MAX as int
        } else {
            nanos as int
        }),
{
    if nanos > u64::MAX as u128 {
        u64::MAX
    } else {
        nanos as u64
    }
}

/// The time that has passed since `since`, in nanoseconds capped at the
/// largest 64-bit value.
pub fn elapsed_since(since: &Instant) -> (elapsed: u64) {
    clamp_nanos(elapsed_nanos(since))
}

/// The mathematical value of a [`Timer`]: whether it runs, and for how
/// many nanoseconds from its start.
pub struct TimerState {
    pub armed: bool,
    pub duration: u64,
}

impl TimerState {
    /// Whether the timer has run out once `elapsed` nanoseconds have
    /// passed since its start. A timer that does not run never expires.
    pub open spec fn expired_after(self, elapsed: u64) -> bool {
        self.armed && elapsed >= self.duration
    }

    /// The nanoseconds left once `elapsed` have passed since the start:
    /// none for a timer that does not run, and zero from the deadline on.
    pub open spec fn remaining_after(self, elapsed: u64) -> Option<u64> {
        if !self.armed {
            None
        } else if elapsed < self.duration {
            Some((self.duration - elapsed) as u64)
        } else {
            Some(0)
        }
    }
}

/// A single-shot deadline timer.
pub struct Timer {
    started: Option<Instant>,
    duration: u64,
}

impl View for Timer {
    type V = TimerState;

    closed spec fn view(&self) -> TimerState {
        TimerState { armed: self.started is Some, duration: self.duration }
    }
}

impl Timer {
    /// A timer that does not run.
    pub fn new() -> (result: Self)
        ensures
            result@ == (TimerState { armed: false, duration: 0 }),
    {
        Self { started: None, duration: 0 }
    }

    /// Starts the timer now, to run for `duration` nanoseconds.
    pub fn start(&mut self, duration: u64)
        ensures
            final(self)@ == (TimerState { armed: true, duration }),
    {
        self.duration = duration;
        self.started = Some(clock_now());
    }

    /// Stops the timer. The duration it was last started with is kept.
    pub fn cancel(&mut self)
        ensures
            final(self)@ == (TimerState { armed: false, duration: old(self)@.duration }),
    {
        self.started = None;
    }

    /// Whether the timer has run out once `elapsed` nanoseconds have
    /// passed since its start.
    pub fn is_expired_after(&self, elapsed: u64) -> (result: bool)
        ensures
            result == self@.expired_after(elapsed),
    {
        self.started.is_some() && elapsed >= self.duration
    }

    /// Whether the timer has run out by now: what
    /// [`Timer::is_expired_after`] gives for the time that the clock says
    /// has passed since the start. So a timer that does not run has not
    /// run out, whatever the clock says, and one that runs for zero
    /// nanoseconds has.
    pub fn is_expired(&self) -> (result: bool)
        ensures
            exists|elapsed: u64| result == #[trigger] self@.expired_after(elapsed),
    {
        let elapsed: u64 = match &self.started {
            Some(since) => elapsed_since(since),
            None => 0,
        };
        self.is_expired_after(elapsed)
    }

    /// The nanoseconds left once `elapsed` have passed since the start.
    pub fn remaining_after(&self, elapsed: u64) -> (result: Option<u64>)
        ensures
            result == self@.remaining_after(elapsed),
    {
        if self.started.is_none() {
            None
        } else if elapsed < self.duration {
            Some(self.duration - elapsed)
        } else {
            Some(0)
        }
    }

    /// The nanoseconds left until the timer runs out: what
    /// [`Timer::remaining_after`] gives for the time that the clock says
    /// has passed since the start. So there is none for a timer that does
    /// not run, whatever the clock says, and never more than the timer
    /// was started with.
    pub fn time_until_expiry(&self) -> (result: Option<u64>)
        ensures
            exists|elapsed: u64| result == #[trigger] self@.remaining_after(elapsed),
    {
        let elapsed: u64 = match &self.started {
            Some(since) => elapsed_since(since),
            None => 0,
        };
        self.remaining_after(elapsed)
    }

    /// Starts a running timer again from now with the duration it has; a
    /// timer that does not run stays as it is.
    pub fn reset(&mut self)
        ensures
            final(self)@ == old(self)@,
    {
        if self.started.is_some() {
            let now: Instant = clock_now();
            self.reset_at(now);
        }
    }

    /// The clock reading from which the timer runs; none while it does not
    /// run.
    pub closed spec fn started_at(&self) -> Option<Instant> {
        self.started
    }

    /// Starts the timer at the clock reading `now`, to run for `duration`
    /// nanoseconds.
    pub fn start_at(&mut self, now: Instant, duration: u64)
        ensures
            final(self)@ == (TimerState { armed: true, duration }),
            final(self).started_at() == Some(now),
    {
        self.duration = duration;
        self.started = Some(now);
    }

    /// Starts a running timer again at the clock reading `now` with the
    /// duration it has; a timer that does not run stays as it is.
    pub fn reset_at(&mut self, now: Instant)
        ensures
            final(self)@ == old(self)@,
            final(self).started_at() == (if old(self)@.armed {
                Some(now)
            } else {
                None::<Instant>
            }),
    {
        if self.started.is_some() {
            self.started = Some(now);
        }
    }
}

impl Default for Timer {
    fn default() -> (result: Self)
        ensures
            result@ == (TimerState { armed: false, duration: 0 }),
    {
        Self::new()
    }
}

} // verus!
