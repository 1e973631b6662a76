//! A single-shot stopwatch around a computation.
use vstd::prelude::*;

verus! {

/// A point in time from the monotonic clock of `std::time`; opaque here.
#[verifier::external_type_specification]
#[verifier::external_body]
pub struct ExInstant(std::time::Instant);

/// Relies on `std::time::Instant::now`: reads the monotonic clock. Nothing is
/// promised of the value read.
pub assume_specification[ std::time::Instant::now ]() -> std::time::Instant;

/// Relies on `std::time::Instant::elapsed`: the time since the instant was
/// taken. Nothing is promised of the duration measured.
pub assume_specification[ std::time::Instant::elapsed ](self_: &std::time::Instant) -> std::time::Duration;

/// Runs `f` once and returns its result together with the wall-clock time
/// the call took. The result is whatever `f` returns on that call.
pub fn profile<F, R>(f: F) -> (r: (R, std::time::Duration))
    where
        F: FnOnce() -> R,
    requires
        f.requires(()),
    ensures
        f.ensures((), r.0),
{
    let start = std::time::Instant::now();
    let result = f();
    let duration = start.elapsed();
    (result, duration)
}

} // verus!
