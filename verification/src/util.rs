//! Points in time.

use std::time::{Duration, Instant};
use vstd::prelude::*;

verus! {

/// A measurement of a clock that never runs backwards. Opaque.
#[verifier::external_type_specification]
#[verifier::external_body]
pub struct ExInstant(std::time::Instant);

/// `std::time::Instant::now`: the current instant. It depends on the clock, so nothing is
/// claimed of it.
pub assume_specification[ std::time::Instant::now ]() -> std::time::Instant;

/// `std::time::Instant::checked_add`: the instant that a duration leads to, or `None` if it
/// cannot be represented. How far the clock of the machine reaches is left open, so nothing is
/// claimed of the result; contracts speak of it as whatever this function returns for its
/// arguments.
pub assume_specification[ std::time::Instant::checked_add ](
    instant: &std::time::Instant,
    duration: std::time::Duration,
) -> Option<std::time::Instant>;

/// `std::time::Instant::saturating_duration_since`: how much later one instant is than another,
/// or no time at all if it is not. Both are opaque, so nothing is claimed of the result;
/// contracts speak of it as whatever this function returns for its arguments.
pub assume_specification[ std::time::Instant::saturating_duration_since ](
    instant: &std::time::Instant,
    earlier: std::time::Instant,
) -> std::time::Duration;

/// `std::time::Duration::as_secs`: the number of whole seconds in a duration. The duration is
/// opaque; contracts speak of the result as whatever this function returns for it.
pub assume_specification[ std::time::Duration::as_secs ](duration: &std::time::Duration) -> u64;

/// `std::time::Duration::subsec_nanos`: what is left of a duration after its whole seconds, in
/// nanoseconds. It is less than one second.
pub assume_specification[ std::time::Duration::subsec_nanos ](
    duration: &std::time::Duration,
) -> (nanos: u32)
    ensures
        nanos < 1_000_000_000,
;

/// The instant at which a timeout is over, or `None` if it cannot be represented.
pub fn to_deadline(timeout: Duration) -> (r: Option<Instant>)
    ensures
        exists|now: Instant| #[trigger]
            call_ensures(Instant::now, (), now) && call_ensures(
                Instant::checked_add,
                (&now, timeout),
                r,
            ),
{
    Instant::now().checked_add(timeout)
}

/// Whether the time from some reading of the clock to `timeout` was this many seconds and this
/// many nanoseconds besides, with nothing left out: both are parts of the same duration.
pub open spec fn is_left(timeout: Instant, secs: u64, nanos: u32) -> bool {
    exists|now: Instant, left: Duration|
        #![auto]
        call_ensures(Instant::now, (), now) && call_ensures(
            Instant::saturating_duration_since,
            (&timeout, now),
            left,
        ) && call_ensures(Duration::as_secs, (&left,), secs) && call_ensures(
            Duration::subsec_nanos,
            (&left,),
            nanos,
        )
}

/// How much time is left.
#[derive(Copy, Clone, Eq, PartialEq, Debug, Structural)]
pub struct Remaining {
    /// Whole seconds.
    pub secs: u64,
    /// Nanoseconds besides.
    pub nanos: u32,
}

impl Remaining {
    /// Whether the nanoseconds are less than a second.
    pub open spec fn wf(self) -> bool {
        self.nanos < 1_000_000_000
    }

    /// All the time that is left, in nanoseconds.
    pub open spec fn total(self) -> nat {
        (self.secs * 1_000_000_000 + self.nanos) as nat
    }

    /// Whether this is what was left until `timeout` at some instant.
    pub open spec fn is_until(self, timeout: Instant) -> bool {
        exists|now: Instant, left: Duration|
            #![auto]
            call_ensures(Instant::now, (), now) && call_ensures(
                Instant::saturating_duration_since,
                (&timeout, now),
                left,
            ) && call_ensures(Duration::as_secs, (&left,), self.secs) && call_ensures(
                Duration::subsec_nanos,
                (&left,),
                self.nanos,
            )
    }

    /// What is left until an instant, which is nothing if it has passed.
    pub fn until(timeout: Instant) -> (r: Remaining)
        ensures
            r.wf(),
            r.is_until(timeout),
            is_left(timeout, r.secs, r.nanos),
    {
        let left = timeout.saturating_duration_since(Instant::now());
        let secs: u64 = left.as_secs();
        let nanos: u32 = left.subsec_nanos();
        assert(call_ensures(Duration::as_secs, (&left,), secs));
        assert(call_ensures(Duration::subsec_nanos, (&left,), nanos));
        Remaining { secs, nanos }
    }

    /// Whether there is no time left.
    pub fn is_over(&self) -> (r: bool)
        ensures
            r == (self.total() == 0),
            r <==> self.secs == 0 && self.nanos == 0,
    {
        self.secs == 0 && self.nanos == 0
    }
}

/// Nothing of the time that is left is dropped: its seconds and its nanoseconds are those of one
/// duration, the one from a reading of the clock to the timeout, and its total in nanoseconds is
/// made up of all of them. So there is none left exactly if there was none between that reading
/// and the timeout, not even a part of a second.
pub proof fn law_nothing_is_dropped(left: Remaining, timeout: Instant)
    requires
        left.is_until(timeout),
    ensures
        exists|now: Instant, whole: Duration, secs: u64, nanos: u32|
            #![auto]
            call_ensures(Instant::now, (), now) && call_ensures(
                Instant::saturating_duration_since,
                (&timeout, now),
                whole,
            ) && call_ensures(Duration::as_secs, (&whole,), secs) && call_ensures(
                Duration::subsec_nanos,
                (&whole,),
                nanos,
            ) && left.total() == secs * 1_000_000_000 + nanos && (left.total() == 0 <==> secs == 0
                && nanos == 0),
{
    let (now, whole) = choose|now: Instant, whole: Duration|
        #![auto]
        call_ensures(Instant::now, (), now) && call_ensures(
            Instant::saturating_duration_since,
            (&timeout, now),
            whole,
        ) && call_ensures(Duration::as_secs, (&whole,), left.secs) && call_ensures(
            Duration::subsec_nanos,
            (&whole,),
            left.nanos,
        );
    let secs = left.secs;
    let nanos = left.nanos;
    assert(left.total() == secs * 1_000_000_000 + nanos);
    assert(left.total() == 0 <==> secs == 0 && nanos == 0);
}

/// More time is left exactly if there are more seconds, or as many and more nanoseconds.
pub proof fn law_time_is_ordered(a: Remaining, b: Remaining)
    requires
        a.nanos < 1_000_000_000,
        b.nanos < 1_000_000_000,
    ensures
        a.total() < b.total() <==> a.secs < b.secs || (a.secs == b.secs && a.nanos < b.nanos),
        a.total() == b.total() <==> a == b,
{
}

} // verus!
