//! Monotonic time.
//!
//! Everything that reasons about durations takes the time as a number of
//! nanoseconds since a clock was started, so that its behaviour is a function
//! of its arguments. The clock itself is the one place that asks the machine.

use vstd::prelude::*;

verus! {

/// `std::time::Instant`, carried and never looked into.
#[verifier::external_type_specification]
#[verifier::external_body]
pub struct ExInstant(std::time::Instant);

/// A clock that counts from when it was started.
pub struct Clock {
    origin: std::time::Instant,
}

/// Calls `std::time::Instant::now`. Nothing is claimed of the instant.
#[verifier::external_body]
fn instant_now() -> std::time::Instant {
    std::time::Instant::now()
}

/// Calls `std::time::Instant::elapsed` and gives whole nanoseconds, capped at
/// the largest `u64`. Nothing is claimed of how many there are.
#[verifier::external_body]
fn elapsed_ns(origin: &std::time::Instant) -> u64 {
    u64::try_from(origin.elapsed().as_nanos()).unwrap_or(u64::MAX)
}

impl Clock {
    pub fn start() -> Self {
        Clock { origin: instant_now() }
    }

    /// Nanoseconds since the clock was started.
    pub fn now(&self) -> u64 {
        elapsed_ns(&self.origin)
    }
}

/// Nanoseconds in a second.
pub const SECOND: u64 = 1_000_000_000;

/// How long ago `then` was, and zero where it has not come yet.
pub open spec fn since(now: u64, then: u64) -> int {
    if now >= then {
        now - then
    } else {
        0
    }
}

/// Whether less than `secs` seconds have passed since `then`.
pub open spec fn within_secs(now: u64, then: u64, secs: u64) -> bool {
    since(now, then) < secs * 1_000_000_000
}

pub fn is_within_secs(now: u64, then: u64, secs: u64) -> (r: bool)
    ensures
        r == within_secs(now, then, secs),
{
    let passed: u64 = if now >= then {
        now - then
    } else {
        0
    };
    (passed as u128) < secs as u128 * 1_000_000_000
}

/// Less than so many seconds have passed while fewer nanoseconds have than a
/// thousand million to the second; before its time nothing has passed yet.
pub proof fn seconds_are_counted_in_nanoseconds(then: u64, passed: u64, secs: u64, early: u64)
    requires
        then + passed <= u64::MAX,
        early <= then,
    ensures
        within_secs((then + passed) as u64, then, secs) <==> passed < secs * 1_000_000_000,
        within_secs(early, then, secs) <==> secs > 0,
{
}

} // verus!
