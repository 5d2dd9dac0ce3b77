use std::time::Instant;
use vstd::prelude::*;

verus! {

#[verifier::external_type_specification]
#[verifier::external_body]
pub struct ExInstant(Instant);

/// Calls `Instant::now`. The reading depends on the clock, so nothing is
/// stated of it.
#[verifier::external_body]
fn instant_now() -> Instant {
    Instant::now()
}

/// Calls `Instant::elapsed` and gives the result in nanoseconds. The reading
/// depends on the clock, so nothing is stated of it.
#[verifier::external_body]
fn nanos_since(start: &Instant) -> u128 {
    start.elapsed().as_nanos()
}

/// A clock for one run of an animation: when it started and how long it
/// lasts. Progress is read from the clock on demand, never stored.
#[derive(Clone, Copy)]
pub struct Animation {
    start: Instant,
    duration_ms: u64,
}

impl Animation {
    /// How long the animation lasts, in milliseconds.
    pub closed spec fn length_ms(self) -> u64 {
        self.duration_ms
    }

    /// Starts an animation now; a zero duration counts as one millisecond.
    pub fn started(duration_ms: u64) -> (a: Self)
        ensures
            a.length_ms() == if duration_ms == 0 { 1 } else { duration_ms },
    {
        let duration_ms = if duration_ms == 0 { 1 } else { duration_ms };
        Animation { start: instant_now(), duration_ms }
    }

    /// How long the animation lasts, in milliseconds.
    pub fn duration_ms(&self) -> (d: u64)
        ensures
            d == self.length_ms(),
    {
        self.duration_ms
    }

    /// Nanoseconds since the animation started, read from the clock. The
    /// reading depends on the time of the call, so nothing is stated of it.
    pub fn elapsed_nanos(&self) -> u128 {
        nanos_since(&self.start)
    }

    /// Whether an animation is over once `elapsed_nanos` have passed since it
    /// started.
    pub fn is_done_after(&self, elapsed_nanos: u128) -> (done: bool)
        ensures
            done == (elapsed_nanos >= self.length_ms() as int * 1_000_000),
    {
        elapsed_nanos >= self.duration_ms as u128 * 1_000_000
    }

    /// Whether the animation is over, by the clock: `is_done_after` applied to
    /// a reading of the clock. The reading depends on the time of the call, so
    /// only `is_done_after` states the answer.
    pub fn is_done(&self) -> bool {
        let elapsed = nanos_since(&self.start);
        self.is_done_after(elapsed)
    }
}

/// A clock for a continuous effect that never ends (such as a glow).
#[derive(Clone, Copy)]
pub struct Pulse {
    start: Instant,
}

impl Pulse {
    /// Starts a pulse now. Its only content is the clock reading it starts
    /// from, of which nothing is stated.
    pub fn new() -> Pulse {
        Pulse { start: instant_now() }
    }

    /// Nanoseconds since the pulse started, read from the clock. The reading
    /// depends on the time of the call, so nothing is stated of it.
    pub fn elapsed_nanos(&self) -> u128 {
        nanos_since(&self.start)
    }
}

} // verus!
