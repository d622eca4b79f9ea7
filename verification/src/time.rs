//! Lengths of media time.
//!
//! A [`Duration`] counts whole nanoseconds. Its range is that of a 64-bit
//! count of seconds plus a nanosecond part, so that it converts to and from
//! the platform type without loss.
use vstd::prelude::*;

verus! {

/// Nanoseconds in one second.
pub const NANOS_PER_SECOND: u128 = 1_000_000_000;

/// The largest number of nanoseconds that a [`Duration`] can hold.
pub const MAX_NANOSECONDS: u128 = 18_446_744_073_709_551_615_999_999_999;

/// A span of time with nanosecond resolution, viewed as its nanoseconds.
#[derive(Clone, Copy, Debug, PartialEq, Eq, Structural)]
pub struct Duration {
    nanoseconds: u128,
}

impl View for Duration {
    type V = nat;

    closed spec fn view(&self) -> nat {
        self.nanoseconds as nat
    }
}

impl Duration {
    /// No duration exceeds the representable range.
    #[verifier::type_invariant]
    spec fn in_range(self) -> bool {
        self.nanoseconds <= MAX_NANOSECONDS
    }

    /// Returns the empty span.
    pub fn zero() -> (result: Duration)
        ensures
            result@ == 0,
    {
        Duration { nanoseconds: 0 }
    }

    /// Creates a span from whole seconds.
    pub fn from_secs(seconds: u64) -> (result: Duration)
        ensures
            result@ == seconds * NANOS_PER_SECOND,
    {
        Duration { nanoseconds: seconds as u128 * NANOS_PER_SECOND }
    }

    /// Creates a span from whole milliseconds.
    pub fn from_millis(milliseconds: u64) -> (result: Duration)
        ensures
            result@ == milliseconds * 1_000_000,
    {
        Duration { nanoseconds: milliseconds as u128 * 1_000_000 }
    }

    /// Creates a span from whole nanoseconds.
    pub fn from_nanos(nanoseconds: u64) -> (result: Duration)
        ensures
            result@ == nanoseconds,
    {
        Duration { nanoseconds: nanoseconds as u128 }
    }

    /// Creates a span from a nanosecond count, or reports that the count is
    /// beyond the representable range.
    pub fn checked_from_nanos(nanoseconds: u128) -> (result: Option<Duration>)
        ensures
            nanoseconds <= MAX_NANOSECONDS ==> result is Some && result->0@ == nanoseconds,
            nanoseconds > MAX_NANOSECONDS ==> result is None,
    {
        if nanoseconds <= MAX_NANOSECONDS {
            Some(Duration { nanoseconds })
        } else {
            None
        }
    }

    /// Returns the total number of nanoseconds.
    pub fn as_nanos(&self) -> (nanoseconds: u128)
        ensures
            nanoseconds == self@,
            nanoseconds <= MAX_NANOSECONDS,
    {
        proof {
            use_type_invariant(self);
        }
        self.nanoseconds
    }

    /// Returns the total number of whole milliseconds.
    pub fn as_millis(&self) -> (milliseconds: u128)
        ensures
            milliseconds == self@ / 1_000_000,
            milliseconds <= MAX_NANOSECONDS,
    {
        proof {
            use_type_invariant(self);
        }
        self.nanoseconds / 1_000_000
    }

    /// Returns the number of whole seconds.
    pub fn as_secs(&self) -> (seconds: u64)
        ensures
            seconds == self@ / (NANOS_PER_SECOND as nat),
    {
        proof {
            use_type_invariant(self);
        }
        (self.nanoseconds / NANOS_PER_SECOND) as u64
    }

    /// Adds two spans, or reports that the sum is beyond the representable range.
    pub fn checked_sum(&self, other: &Duration) -> (sum: Option<Duration>)
        ensures
            self@ + other@ <= MAX_NANOSECONDS ==> sum is Some && sum->0@ == self@ + other@,
            self@ + other@ > MAX_NANOSECONDS ==> sum is None,
    {
        proof {
            use_type_invariant(self);
            use_type_invariant(other);
        }
        Duration::checked_from_nanos(self.nanoseconds + other.nanoseconds)
    }
}

/// A second is a thousand milliseconds, and a millisecond a million nanoseconds.
/// Whole seconds come back as they went in.
pub proof fn law_units_of_time_agree(
    count: u64,
    seconds: Duration,
    milliseconds: Duration,
    nanoseconds: Duration,
    back: u64,
)
    requires
        call_ensures(Duration::from_secs, (count,), seconds),
        call_ensures(Duration::from_millis, (count,), milliseconds),
        call_ensures(Duration::from_nanos, (count,), nanoseconds),
        call_ensures(Duration::as_secs, (&seconds,), back),
    ensures
        seconds@ == 1_000 * milliseconds@,
        milliseconds@ == 1_000_000 * nanoseconds@,
        nanoseconds@ == count,
        back == count,
{
}

/// A count of seconds or milliseconds is rounded down.
pub proof fn law_whole_units_are_rounded_down(
    duration: Duration,
    seconds: u64,
    milliseconds: u128,
    nanoseconds: u128,
)
    requires
        call_ensures(Duration::as_secs, (&duration,), seconds),
        call_ensures(Duration::as_millis, (&duration,), milliseconds),
        call_ensures(Duration::as_nanos, (&duration,), nanoseconds),
    ensures
        seconds * 1_000_000_000 <= nanoseconds < (seconds + 1) * 1_000_000_000,
        milliseconds * 1_000_000 <= nanoseconds < (milliseconds + 1) * 1_000_000,
        nanoseconds == duration@,
{
}

/// A sum is exact, comes in either order, and is missing only beyond the range
/// of a 64-bit count of seconds.
pub proof fn law_sums_are_exact_or_missing(
    left: Duration,
    right: Duration,
    sum: Option<Duration>,
    other: Option<Duration>,
)
    requires
        call_ensures(Duration::checked_sum, (&left, &right), sum),
        call_ensures(Duration::checked_sum, (&right, &left), other),
    ensures
        sum is Some <==> left@ + right@ < 0x1_0000_0000_0000_0000 * 1_000_000_000,
        sum is Some ==> sum->0@ == left@ + right@,
        sum is Some ==> other is Some && other->0@ == sum->0@,
{
}

} // verus!
