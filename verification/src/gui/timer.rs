//! A timer that tells when a given length of time has passed since it was
//! made. Lengths are whole nanoseconds.

use vstd::prelude::*;

use std::time::{Duration, Instant};

verus! {

#[verifier::external_type_specification]
#[verifier::external_body]
pub struct ExInstant(Instant);

/// `std::time::Instant::now`. The instant is the clock's; nothing is stated.
#[verifier::external_body]
fn instant_now() -> Instant {
    Instant::now()
}

/// `std::time::Instant::elapsed`: the time since `start`. It is the
/// clock's reading; nothing is stated.
#[verifier::external_body]
fn instant_elapsed(start: &Instant) -> Duration {
    start.elapsed()
}

/// `std::time::Duration::as_nanos`. Here it only turns a reading of the
/// clock into nanoseconds, so its value is the clock's as well; `Duration`
/// has no view, and nothing is stated.
#[verifier::external_body]
fn duration_nanos(duration: &Duration) -> u128 {
    duration.as_nanos()
}

/// A timer started when it was made.
pub struct Timer {
    start_time: Instant,
    length_nanos: u128,
}

impl Timer {
    /// How long the timer runs, in nanoseconds.
    pub closed spec fn length_nanos(&self) -> u128 {
        self.length_nanos
    }

    /// A timer that runs for `length_nanos` nanoseconds from now.
    pub fn new(length_nanos: u128) -> (t: Timer)
        ensures
            t.length_nanos() == length_nanos,
    {
        Timer { start_time: instant_now(), length_nanos }
    }

    /// Whether the timer has run out once `elapsed_nanos` nanoseconds have
    /// passed since it was made.
    pub fn is_complete_after(&self, elapsed_nanos: u128) -> (done: bool)
        ensures
            done == (elapsed_nanos >= self.length_nanos()),
    {
        elapsed_nanos >= self.length_nanos
    }

    /// Whether the timer's length has passed. The answer rests on the
    /// clock's reading, which `is_complete_after` is then given; whatever
    /// the clock reads, a timer of no length has run out.
    pub fn is_complete(&self) -> (done: bool)
        ensures
            self.length_nanos() == 0 ==> done,
    {
        let elapsed = instant_elapsed(&self.start_time);
        self.is_complete_after(duration_nanos(&elapsed))
    }
}

/// Once a timer has run out it stays run out: if it is complete after
/// `earlier` nanoseconds, it is complete after any later reading `later`.
pub proof fn lemma_complete_stays_complete(t: Timer, earlier: u128, later: u128)
    requires
        earlier <= later,
        earlier >= t.length_nanos(),
    ensures
        later >= t.length_nanos(),
{
}

} // verus!
