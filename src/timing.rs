//! Wall-clock timing of a piece of work.
use std::time::{Duration, Instant};
use vstd::prelude::*;

verus! {

#[verifier::external_type_specification]
#[verifier::external_body]
pub struct ExInstant(Instant);

/// Relies on `std::time::Instant::now`: a reading of the monotonic clock.
#[verifier::external_body]
fn clock_now() -> (r: Instant) {
    Instant::now()
}

/// Relies on `std::time::Instant::elapsed`: the time passed since `start`.
#[verifier::external_body]
fn clock_elapsed(start: &Instant) -> (r: Duration) {
    start.elapsed()
}

/// Runs `f` once and returns the wall-clock time it took.
pub fn time_exec<F>(mut f: F) -> (r: Duration) where
    F: FnMut(),
    requires
        f.requires(()),
    ensures
        f.ensures((), ()),
{
    let start = clock_now();
    f();
    clock_elapsed(&start)
}

} // verus!
