//! Points and spans of monotonic time, in whole nanoseconds.
//!
//! The program reads its clock and hands the reading in as an [`Instant`], so
//! every rule that depends on time is a function of its arguments.

use vstd::prelude::*;

verus! {

/// A span of time.
#[derive(Clone, Copy, PartialEq, Eq, Structural, Debug)]
pub struct Duration {
    pub nanos: u128,
}

/// A point on a monotonic clock, counted from an origin the program chose.
#[derive(Clone, Copy, PartialEq, Eq, Structural, Debug)]
pub struct Instant {
    pub nanos: i128,
}

impl View for Duration {
    type V = nat;

    open spec fn view(&self) -> nat {
        self.nanos as nat
    }
}

impl View for Instant {
    type V = int;

    open spec fn view(&self) -> int {
        self.nanos as int
    }
}

/// The point `span` before `at`, or `at` itself when that point cannot be represented.
pub open spec fn before_or_same(at: int, span: nat) -> int {
    if at - span >= i128::MIN {
        at - span
    } else {
        at
    }
}

/// How long after `earlier` the point `later` lies; nothing when it does not.
pub open spec fn elapsed(earlier: int, later: int) -> nat {
    if later > earlier {
        (later - earlier) as nat
    } else {
        0
    }
}

impl Duration {
    pub fn from_nanos(nanos: u64) -> (span: Duration)
        ensures
            span@ == nanos,
    {
        Duration { nanos: nanos as u128 }
    }

    pub fn from_micros(micros: u64) -> (span: Duration)
        ensures
            span@ == micros * 1_000,
    {
        Duration { nanos: micros as u128 * 1_000 }
    }

    pub fn from_millis(millis: u64) -> (span: Duration)
        ensures
            span@ == millis * 1_000_000,
    {
        Duration { nanos: millis as u128 * 1_000_000 }
    }

    pub fn from_secs(secs: u64) -> (span: Duration)
        ensures
            span@ == secs * 1_000_000_000,
    {
        Duration { nanos: secs as u128 * 1_000_000_000 }
    }

    pub fn is_zero(self) -> (zero: bool)
        ensures
            zero == (self@ == 0),
    {
        self.nanos == 0
    }
}

impl Instant {
    pub fn from_nanos(nanos: i128) -> (at: Instant)
        ensures
            at@ == nanos,
    {
        Instant { nanos }
    }

    /// The point `span` later, or `None` when it cannot be represented.
    pub fn checked_add(self, span: Duration) -> (later: Option<Instant>)
        ensures
            later is Some <==> self@ + span@ <= i128::MAX,
            later matches Some(at) ==> at@ == self@ + span@,
    {
        match self.nanos.checked_add_unsigned(span.nanos) {
            Some(nanos) => Some(Instant { nanos }),
            None => None,
        }
    }

    /// The point `span` earlier, or `None` when it cannot be represented.
    pub fn checked_sub(self, span: Duration) -> (earlier: Option<Instant>)
        ensures
            earlier is Some <==> self@ - span@ >= i128::MIN,
            earlier matches Some(at) ==> at@ == self@ - span@,
    {
        match self.nanos.checked_sub_unsigned(span.nanos) {
            Some(nanos) => Some(Instant { nanos }),
            None => None,
        }
    }

    /// The time from `earlier` to this point; nothing when `earlier` is not earlier.
    pub fn saturating_duration_since(self, earlier: Instant) -> (span: Duration)
        ensures
            span@ == elapsed(earlier@, self@),
    {
        if self.nanos <= earlier.nanos {
            Duration { nanos: 0 }
        } else if self.nanos >= 0 && earlier.nanos < 0 {
            let before_origin: u128 = (-(earlier.nanos + 1)) as u128;
            Duration { nanos: self.nanos as u128 + before_origin + 1 }
        } else {
            Duration { nanos: (self.nanos - earlier.nanos) as u128 }
        }
    }
}

/// A point moves by exactly the span that it is asked to, one way or the other,
/// and stays away only where the clock has no such point.
pub proof fn law_points_move_by_spans(
    at: Instant,
    span: Duration,
    later: Option<Instant>,
    earlier: Option<Instant>,
)
    requires
        call_ensures(Instant::checked_add, (at, span), later),
        call_ensures(Instant::checked_sub, (at, span), earlier),
    ensures
        later is None <==> at.nanos + span.nanos > i128::MAX,
        later matches Some(point) ==> point.nanos - at.nanos == span.nanos,
        earlier is None <==> at.nanos - span.nanos < i128::MIN,
        earlier matches Some(point) ==> at.nanos - point.nanos == span.nanos,
{
}

/// The span between two points is what lies between them, and no span leads back.
pub proof fn law_spans_lie_between_points(earlier: Instant, later: Instant, span: Duration)
    requires
        call_ensures(Instant::saturating_duration_since, (later, earlier), span),
    ensures
        earlier.nanos <= later.nanos ==> earlier.nanos + span.nanos == later.nanos,
        later.nanos < earlier.nanos ==> span.nanos == 0,
{
}

/// A second has a thousand milliseconds, a millisecond a thousand microseconds,
/// and a microsecond a thousand nanoseconds; only none of them is no time.
pub proof fn law_units_differ_by_a_thousand(
    count: u64,
    secs: Duration,
    millis: Duration,
    micros: Duration,
    nanos: Duration,
    none: bool,
)
    requires
        call_ensures(Duration::from_secs, (count,), secs),
        call_ensures(Duration::from_millis, (count,), millis),
        call_ensures(Duration::from_micros, (count,), micros),
        call_ensures(Duration::from_nanos, (count,), nanos),
        call_ensures(Duration::is_zero, (secs,), none),
    ensures
        secs.nanos == 1000 * millis.nanos,
        millis.nanos == 1000 * micros.nanos,
        micros.nanos == 1000 * nanos.nanos,
        nanos.nanos == count,
        none <==> count == 0,
{
}

} // verus!
