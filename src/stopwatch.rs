//! The elapsed-time accumulator: measures and adds up the time between starts
//! and stops.

use crate::duration::{between, max_nanos, Duration};
use std::time::Instant;
use vstd::prelude::*;

verus! {

/// Relies on `Instant::now`: the current reading of the monotonic clock.
/// Nothing is known of its value.
#[verifier::external_body]
fn now() -> (r: Instant) {
    Instant::now()
}

/// Why a stopwatch refused to start or stop.
#[derive(Clone, Copy, Debug, PartialEq, Eq, Structural)]
pub enum Error {
    /// `start` while running.
    AlreadyStarted,
    /// `stop` while stopped.
    AlreadyStopped,
}

/// The sum of `a` and `b`, clamped to the largest duration.
pub open spec fn sat_add(a: int, b: int) -> int {
    if a + b > max_nanos() {
        max_nanos()
    } else {
        a + b
    }
}

/// `a` less `b`, clamped to zero.
pub open spec fn sat_sub(a: int, b: int) -> int {
    if a < b {
        0
    } else {
        a - b
    }
}

/// A stopwatch: the time gathered so far, and the instant of the last start
/// while it runs.
#[derive(Clone, Copy)]
pub struct Stopwatch {
    elapsed: Duration,
    start: Option<Instant>,
}

impl Stopwatch {
    /// The time gathered up to the last start or stop, in nanoseconds.
    pub closed spec fn gathered(&self) -> int {
        self.elapsed@
    }

    /// Whether the stopwatch runs.
    pub closed spec fn running(&self) -> bool {
        self.start is Some
    }

    /// The time gathered lies between zero and the largest duration.
    pub fn in_range(&self)
        ensures
            0 <= self.gathered() <= max_nanos(),
    {
        self.elapsed.in_range();
    }

    /// A stopwatch that has gathered `elapsed`, running or not.
    pub fn new(elapsed: Duration, running: bool) -> (r: Stopwatch)
        ensures
            r.gathered() == elapsed@,
            r.running() == running,
    {
        Stopwatch {
            elapsed,
            start: if running {
                Some(now())
            } else {
                None
            },
        }
    }

    /// Starts measuring, unless the stopwatch runs already.
    pub fn start(&mut self) -> (r: Result<(), Error>)
        ensures
            old(self).running() ==> r == Err::<(), Error>(Error::AlreadyStarted) && *final(self)
                == *old(self),
            !old(self).running() ==> r == Ok::<(), Error>(()) && final(self).running()
                && final(self).gathered() == old(self).gathered(),
    {
        if self.is_running() {
            Err(Error::AlreadyStarted)
        } else {
            self.start = Some(now());
            Ok(())
        }
    }

    /// Stops measuring and adds the time since the last start, unless the
    /// stopwatch is stopped already.
    pub fn stop(&mut self) -> (r: Result<(), Error>)
        ensures
            !old(self).running() ==> r == Err::<(), Error>(Error::AlreadyStopped) && *final(self)
                == *old(self),
            old(self).running() ==> r == Ok::<(), Error>(()) && !final(self).running()
                && old(self).gathered() <= final(self).gathered() <= max_nanos(),
    {
        match self.start {
            Some(start) => {
                let d = between(now(), start);
                self.add(d);
                self.start = None;
                Ok(())
            },
            None => Err(Error::AlreadyStopped),
        }
    }

    /// Starts a stopped stopwatch and stops a running one.
    pub fn toggle(&mut self)
        ensures
            final(self).running() == !old(self).running(),
            !old(self).running() ==> final(self).gathered() == old(self).gathered(),
            old(self).running() ==> old(self).gathered() <= final(self).gathered() <= max_nanos(),
    {
        if self.is_running() {
            let _ = self.stop();
        } else {
            let _ = self.start();
        }
    }

    /// Stops and sets the time gathered to zero.
    pub fn reset(&mut self)
        ensures
            final(self).gathered() == 0,
            !final(self).running(),
    {
        self.elapsed = Duration::zero();
        self.start = None;
    }

    /// Stops and sets the time gathered to `new`.
    pub fn set(&mut self, new: Duration)
        ensures
            final(self).gathered() == new@,
            !final(self).running(),
    {
        self.elapsed = new;
        self.start = None;
    }

    /// Adds `add` to the time gathered, up to the largest duration.
    pub fn add(&mut self, add: Duration)
        ensures
            final(self).gathered() == sat_add(old(self).gathered(), add@),
            final(self).running() == old(self).running(),
            old(self).gathered() <= final(self).gathered() <= max_nanos(),
    {
        self.elapsed.in_range();
        add.in_range();
        self.elapsed = self.elapsed.saturating_add(add);
    }

    /// Takes `sub` from the time measured, down to zero. A running stopwatch
    /// first adds the time since its last start, and keeps running.
    pub fn sub(&mut self, sub: Duration)
        ensures
            final(self).running() == old(self).running(),
            !old(self).running() ==> final(self).gathered() == sat_sub(old(self).gathered(), sub@),
            old(self).running() ==> sat_sub(old(self).gathered(), sub@) <= final(self).gathered(),
    {
        self.sync_elapsed();
        self.elapsed = self.elapsed.saturating_sub(sub);
    }

    /// The time measured: what was gathered, and for a running stopwatch the
    /// time since the last start as well.
    pub fn elapsed(&self) -> (r: Duration)
        ensures
            !self.running() ==> r@ == self.gathered(),
            self.running() ==> self.gathered() <= r@ <= max_nanos(),
    {
        self.elapsed.in_range();
        match self.start {
            Some(start) => {
                let d = between(now(), start);
                d.in_range();
                self.elapsed.saturating_add(d)
            },
            None => self.elapsed,
        }
    }

    /// Whether the stopwatch runs.
    pub fn is_running(&self) -> (r: bool)
        ensures
            r == self.running(),
    {
        self.start.is_some()
    }

    /// Adds the time since the last start to what was gathered and starts
    /// again from now, as stopping and starting would.
    fn sync_elapsed(&mut self)
        ensures
            final(self).running() == old(self).running(),
            !old(self).running() ==> final(self).gathered() == old(self).gathered(),
            old(self).gathered() <= final(self).gathered() <= max_nanos(),
    {
        self.elapsed.in_range();
        if let Some(start) = self.start {
            let t = now();
            self.add(between(t, start));
            self.start = Some(t);
        }
    }
}

impl Default for Stopwatch {
    fn default() -> (r: Stopwatch)
        ensures
            r.gathered() == 0,
            !r.running(),
    {
        Stopwatch { elapsed: Duration::zero(), start: None }
    }
}

} // verus!
