//! The time source: a [`quanta::Clock`] behind contracts.

use quanta::Clock;
use vstd::prelude::*;

verus! {

/// `quanta::Clock`, carried as an opaque value.
#[verifier::external_type_specification]
#[verifier::external_body]
pub struct ExClock(Clock);

/// `Clock::new`: a clock over the fastest time source of this machine.
/// Nothing is claimed of the clock that comes back.
#[verifier::external_body]
pub(crate) fn clock_new() -> (clock: Clock) {
    Clock::new()
}

/// `Clock::start`: a raw reading taken as an operation starts. The reading
/// depends on when the call is made, so nothing is claimed of it.
#[verifier::external_body]
pub(crate) fn clock_start(clock: &Clock) -> (now: u64) {
    clock.start()
}

/// `Clock::end`: a raw reading taken as an operation ends. The reading
/// depends on when the call is made, so nothing is claimed of it.
#[verifier::external_body]
pub(crate) fn clock_end(clock: &Clock) -> (now: u64) {
    clock.end()
}

/// What `Clock::delta` gives for a clock and two of its raw readings: the
/// time between them in nanoseconds, on the scale that the clock holds.
pub uninterp spec fn clock_measures(clock: Clock, start: u64, end: u64) -> u128;

/// The clock as the function that measures the nanoseconds between two of
/// its readings.
pub open spec fn measure(clock: Clock) -> spec_fn(u64, u64) -> nat {
    |start: u64, end: u64| clock_measures(clock, start, end) as nat
}

/// `Clock::delta`: the time between two raw readings, in nanoseconds. It
/// is computed from the two readings and the scale held in the clock
/// alone. A reading that does not lie after `start` gives zero, and the
/// nanoseconds always fit in 64 bits.
#[verifier::external_body]
pub(crate) fn clock_delta(clock: &Clock, start: u64, end: u64) -> (nanos: u128)
    ensures
        nanos == clock_measures(*clock, start, end),
        end <= start ==> nanos == 0,
        nanos <= u64::MAX,
{
    clock.delta(start, end).as_nanos()
}

} // verus!
