//! A stopwatch that measures the time between a start and a stop.

use vstd::prelude::*;
use std::time::{Duration, Instant};

verus! {

#[verifier::external_type_specification]
#[verifier::external_body]
pub struct ExInstant(Instant);

/// `Instant::now`: the current time. It depends on the clock, so nothing is
/// stated of it.
#[verifier::external_body]
fn instant_now() -> (res: Instant) {
    Instant::now()
}

/// `Instant::duration_since`: the time from `earlier` to `later`, zero where
/// `earlier` is the later one. Instants are opaque here, so nothing is
/// stated of the result.
#[verifier::external_body]
fn instant_duration_since(later: &Instant, earlier: &Instant) -> (res: Duration) {
    later.duration_since(*earlier)
}

/// a stopwatch: the time at which it was last started
pub struct Stopwatch {
    /// last time
    pub last: Instant,
}

/// a stopwatch started now
pub fn newStopwatch() -> (res: Stopwatch) {
    Stopwatch { last: instant_now() }
}

impl Stopwatch {
    /// starts the stopwatch again, from now
    pub fn start(&mut self) {
        self.last = instant_now();
    }

    /// the time from the last start until now
    pub fn stop(self) -> (res: Duration) {
        let now = instant_now();
        instant_duration_since(&now, &self.last)
    }
}

} // verus!
