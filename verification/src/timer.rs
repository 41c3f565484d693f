//! A stopwatch over the monotonic clock.

use vstd::prelude::*;

verus! {

#[verifier::external_type_specification]
#[verifier::external_body]
pub struct ExInstant(std::time::Instant);

/// Relies on std::time::Instant::now: a reading of the monotonic clock.
/// Nothing can be promised of the reading itself.
#[verifier::external_body]
fn instant_now() -> std::time::Instant {
    std::time::Instant::now()
}

/// Relies on std::time::Instant::elapsed: the time passed since the reading
/// was taken. Nothing can be promised of the amount.
#[verifier::external_body]
fn instant_elapsed(start: &std::time::Instant) -> std::time::Duration {
    start.elapsed()
}

/// A stopwatch: started once, read later.
pub struct Timer {
    start: std::time::Instant,
}

impl Timer {
    /// A stopwatch started now.
    pub fn start() -> Timer {
        Timer { start: instant_now() }
    }

    /// The time passed since the stopwatch was started.
    pub fn stop(&self) -> std::time::Duration {
        instant_elapsed(&self.start)
    }
}

} // verus!
