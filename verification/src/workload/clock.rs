//! Time that passes.
use std::time::{Duration, Instant};
use vstd::prelude::*;

verus! {

/// A point of the standard library's monotonic clock.
#[verifier::external_type_specification]
#[verifier::external_body]
pub struct ExInstant(std::time::Instant);

/// `Instant::now`: the point in time of the call. Nothing is said of which.
#[verifier::external_body]
pub(crate) fn now() -> (r: Instant) {
    Instant::now()
}

/// `Instant::elapsed`: the time since a point. It rests on when it is called, so nothing is
/// said of it.
#[verifier::external_body]
pub(crate) fn elapsed(origin: &Instant) -> (d: Duration) {
    origin.elapsed()
}

/// `Duration::as_nanos`: a span of time as a number of nanoseconds. Nothing is known of
/// what is in the span, so nothing is said of the number.
#[verifier::external_body]
pub(crate) fn nanoseconds(d: Duration) -> (ns: u128) {
    d.as_nanos()
}

/// The clock's reading, counted from a point in time.
fn reading(origin: &Instant) -> (ns: u128) {
    nanoseconds(elapsed(origin))
}

/// The whole microseconds from one reading to another; none where the second is the
/// earlier one. A count beyond 64 bits loses its upper bits.
pub open spec fn lap_us(a: u128, b: u128) -> u64 {
    if b >= a {
        ((b - a) / 1000) as u64
    } else {
        0
    }
}

/// The whole microseconds from one reading to another.
pub fn lap(a: u128, b: u128) -> (r: u64)
    ensures
        r == lap_us(a, b),
{
    if b >= a {
        ((b - a) / 1000) as u64
    } else {
        0
    }
}

/// A stopwatch: the point from which it counts, the reading at which it was started, and
/// the one at which it was last looked at.
#[derive(Clone, Copy, Debug)]
pub struct Stopwatch {
    pub origin: Instant,
    pub started: u128,
    pub looked: u128,
}

impl Stopwatch {
    /// A stopwatch that starts now, and counts from now.
    pub fn start() -> (r: Stopwatch)
        ensures
            r.started == 0,
            r.looked == 0,
    {
        Stopwatch { origin: now(), started: 0, looked: 0 }
    }

    /// Starts anew.
    pub fn restart(&mut self)
        ensures
            final(self).origin == old(self).origin,
            final(self).started == final(self).looked,
    {
        let t: u128 = reading(&self.origin);
        self.started = t;
        self.looked = t;
    }

    /// The microseconds since the start, and the reading up to which they count.
    pub fn total(&self) -> (r: (u64, u128))
        ensures
            r.0 == lap_us(self.started, r.1),
    {
        let t: u128 = reading(&self.origin);
        (lap(self.started, t), t)
    }

    /// The microseconds since the last look, or since the start; this is a look.
    pub fn split(&mut self) -> (r: u64)
        ensures
            final(self).origin == old(self).origin,
            final(self).started == old(self).started,
            r == lap_us(old(self).looked, final(self).looked),
    {
        let t: u128 = reading(&self.origin);
        let us: u64 = lap(self.looked, t);
        self.looked = t;
        us
    }
}

} // verus!
