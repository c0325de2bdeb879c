//! Frame timing: a stopwatch over the system's monotonic clock, and the
//! per-frame delta-time resource.
//!
//! Clock readings are non-deterministic, so the contracts pin only what
//! does not depend on the clock: the running/stopped state and the stored
//! elapsed time while stopped.

use vstd::prelude::*;

use std::time::Duration;
use std::time::Instant;

verus! {

/// A monotonic clock reading; opaque to the verifier.
#[verifier::external_type_specification]
#[verifier::external_body]
pub struct ExInstant(Instant);

/// Relies on `std::time::Instant::now`: a fresh reading of the monotonic
/// clock.  Nothing can be promised of its value.
pub assume_specification[ Instant::now ]() -> Instant;

/// Relies on `std::time::Instant::elapsed`: the time since the reading was
/// taken.  The result depends on the clock, so nothing is promised of it.
pub assume_specification[ Instant::elapsed ](s: &Instant) -> Duration;

/// Relies on `core::time::Duration::as_nanos`: the whole duration in
/// nanoseconds.
pub assume_specification[ Duration::as_nanos ](d: &Duration) -> u128;

/// The time one frame took, in nanoseconds.
#[derive(Debug, Clone, Copy, PartialEq, Eq, Structural)]
pub struct DeltaTime(pub u64);

/// A stopwatch: tracks elapsed time in nanoseconds.
pub struct Stopwatch {
    start: Option<Instant>,
    elapsed: u64,
}

impl Stopwatch {
    /// Whether the stopwatch is currently running.
    pub closed spec fn is_running(&self) -> bool {
        self.start is Some
    }

    /// The elapsed time recorded at the last stop, in nanoseconds.
    pub closed spec fn stored_nanos(&self) -> u64 {
        self.elapsed
    }

    /// A stopped stopwatch with nothing recorded.
    pub fn new() -> (r: Stopwatch)
        ensures
            !r.is_running(),
            r.stored_nanos() == 0,
    {
        Stopwatch { start: None, elapsed: 0 }
    }

    /// A stopwatch that is already running.
    pub fn start_new() -> (r: Stopwatch)
        ensures
            r.is_running(),
            r.stored_nanos() == 0,
    {
        let mut sw = Self::new();
        sw.start();
        sw
    }

    /// Starts (or restarts) timing from the clock's current reading.
    pub fn start(&mut self)
        ensures
            final(self).is_running(),
            final(self).stored_nanos() == old(self).stored_nanos(),
    {
        self.start = Some(Instant::now());
    }

    /// Stops timing and records the elapsed time.
    pub fn stop(&mut self)
        ensures
            !final(self).is_running(),
            !old(self).is_running() ==> final(self).stored_nanos() == old(self).stored_nanos(),
    {
        self.elapsed = self.elapsed();
        self.start = None;
    }

    /// Records the elapsed time and starts timing anew.
    pub fn restart(&mut self)
        ensures
            final(self).is_running(),
            !old(self).is_running() ==> final(self).stored_nanos() == old(self).stored_nanos(),
    {
        self.elapsed = self.elapsed();
        self.start = Some(Instant::now());
    }

    /// Clears the record and stops timing.
    pub fn reset(&mut self)
        ensures
            !final(self).is_running(),
            final(self).stored_nanos() == 0,
    {
        self.elapsed = 0;
        self.start = None;
    }

    /// The elapsed time in nanoseconds: the live clock reading while
    /// running, the recorded time while stopped.
    pub fn elapsed(&self) -> (r: u64)
        ensures
            !self.is_running() ==> r == self.stored_nanos(),
    {
        match &self.start {
            Some(start) => {
                let d = start.elapsed();
                #[verifier::truncate] (d.as_nanos() as u64)
            },
            None => self.elapsed,
        }
    }

    /// The elapsed time in whole milliseconds.
    pub fn elapsed_ms(&self) -> (r: u64)
        ensures
            !self.is_running() ==> r == self.stored_nanos() / 1_000_000,
    {
        self.elapsed() / 1_000_000
    }
}

} // verus!
