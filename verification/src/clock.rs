//! The clock that times a round.

use std::time::{Duration, Instant};
use vstd::prelude::*;

verus! {

/// `std::time::Instant`, a moment on the clock: a value that is carried along and never
/// looked into.
#[verifier::external_type_specification]
#[verifier::external_body]
pub struct ExInstant(std::time::Instant);

/// A length of time, as whole seconds and the nanoseconds of the second begun.
#[derive(Clone, Copy, Debug, PartialEq, Eq, Structural)]
pub struct Elapsed {
    pub secs: u64,
    pub nanos: u32,
}

impl Elapsed {
    /// The nanoseconds stay below one second.
    pub open spec fn wf(self) -> bool {
        self.nanos < 1_000_000_000
    }

    /// No time at all.
    pub open spec fn zero() -> Elapsed {
        Elapsed { secs: 0, nanos: 0 }
    }
}

/// `Instant::now`: the present moment. Nothing is claimed of it.
#[verifier::external_body]
pub(crate) fn now() -> Instant {
    Instant::now()
}

/// `Instant::elapsed`: the time that has passed since `started`. How long that is depends
/// on the clock, so nothing is claimed of it.
#[verifier::external_body]
fn time_since(started: &Instant) -> Duration {
    started.elapsed()
}

/// `Duration::as_secs`: the whole seconds of a length of time. Nothing is claimed of
/// their number.
#[verifier::external_body]
fn whole_secs(time: &Duration) -> u64 {
    time.as_secs()
}

/// `Duration::subsec_nanos`: the part of a length of time beyond its whole seconds, in
/// nanoseconds. It is a fraction of a second, so it stays below one billion.
#[verifier::external_body]
fn subsec_nanos(time: &Duration) -> (nanos: u32)
    ensures
        nanos < 1_000_000_000,
{
    time.subsec_nanos()
}

/// Reads the clock: the time that has passed since `started`.
pub(crate) fn elapsed_since(started: &Instant) -> (elapsed: Elapsed)
    ensures
        elapsed.wf(),
{
    let passed = time_since(started);
    Elapsed { secs: whole_secs(&passed), nanos: subsec_nanos(&passed) }
}

} // verus!
