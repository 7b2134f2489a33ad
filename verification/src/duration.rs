//! A span of time with nanosecond precision, bounded as `std::time::Duration` is.

use vstd::prelude::*;

verus! {

/// The largest number of nanoseconds a duration can hold:
/// `u64::MAX` seconds and 999 999 999 nanoseconds.
pub open spec fn max_duration_nanos() -> nat {
    18446744073709551615nat * 1_000_000_000 + 999_999_999
}

/// A span of time, held as a number of nanoseconds.
///
/// Its view is that number of nanoseconds. It never exceeds
/// `max_duration_nanos()`, so it can always be turned into a
/// `std::time::Duration` and back without loss.
#[derive(Clone, Copy, Debug, PartialEq, Eq, Structural)]
pub struct Duration {
    nanos: u128,
}

impl View for Duration {
    type V = nat;

    closed spec fn view(&self) -> nat {
        self.nanos as nat
    }
}

impl Duration {
    #[verifier::type_invariant]
    closed spec fn bounded(self) -> bool {
        self.nanos <= max_duration_nanos()
    }

    /// Two durations are equal exactly when they hold the same time.
    pub broadcast proof fn lemma_view_injective(a: Duration, b: Duration)
        ensures
            #![trigger a@, b@]
            a@ == b@ <==> a == b,
    {
    }

    /// The duration of `nanos` nanoseconds.
    pub fn from_nanos_u128(nanos: u128) -> (d: Duration)
        requires
            nanos <= max_duration_nanos(),
        ensures
            d@ == nanos,
    {
        Duration { nanos }
    }

    /// The duration of `millis` milliseconds, as `Duration::from_millis` gives it.
    pub fn from_millis(millis: u64) -> (d: Duration)
        ensures
            d@ == millis * 1_000_000,
    {
        let nanos: u128 = millis as u128 * 1_000_000;
        Duration { nanos }
    }

    /// The duration of `secs` seconds and `nanos` nanoseconds, as
    /// `Duration::new` gives it (which panics when the total overflows).
    pub fn new(secs: u64, nanos: u32) -> (d: Duration)
        requires
            secs * 1_000_000_000 + nanos <= max_duration_nanos(),
        ensures
            d@ == secs * 1_000_000_000 + nanos,
    {
        let total: u128 = secs as u128 * 1_000_000_000 + nanos as u128;
        Duration { nanos: total }
    }

    /// The whole number of nanoseconds.
    pub fn as_nanos(&self) -> (r: u128)
        ensures
            r == self@,
            self@ <= max_duration_nanos(),
    {
        proof {
            use_type_invariant(self);
        }
        self.nanos
    }

    /// The whole number of milliseconds, rounded down.
    pub fn as_millis(&self) -> (r: u128)
        ensures
            r == self@ / 1_000_000,
    {
        self.nanos / 1_000_000
    }

    /// The whole number of seconds, rounded down.
    pub fn as_secs(&self) -> (r: u64)
        ensures
            r == self@ / 1_000_000_000,
    {
        proof {
            use_type_invariant(self);
        }
        (self.nanos / 1_000_000_000) as u64
    }

    /// The nanoseconds beyond the whole seconds.
    pub fn subsec_nanos(&self) -> (r: u32)
        ensures
            r == self@ % 1_000_000_000,
    {
        (self.nanos % 1_000_000_000) as u32
    }

    /// The sum of two durations, or `None` when it exceeds the bound,
    /// as `Duration::checked_add` gives it.
    pub fn checked_add(&self, other: &Duration) -> (r: Option<Duration>)
        ensures
            match r {
                Some(d) => self@ + other@ <= max_duration_nanos() && d@ == self@ + other@,
                None => self@ + other@ > max_duration_nanos(),
            },
    {
        proof {
            use_type_invariant(self);
            use_type_invariant(other);
        }
        let sum: u128 = self.nanos + other.nanos;
        if sum <= 18446744073709551615999999999u128 {
            Some(Duration { nanos: sum })
        } else {
            None
        }
    }

    /// The difference `self - other`, which must not be negative.
    pub fn sub(&self, other: &Duration) -> (r: Duration)
        requires
            other@ <= self@,
        ensures
            r@ == self@ - other@,
    {
        proof {
            use_type_invariant(self);
        }
        Duration { nanos: self.nanos - other.nanos }
    }

    /// Whether `self` is no longer than `other`.
    pub fn le(&self, other: &Duration) -> (r: bool)
        ensures
            r == (self@ <= other@),
    {
        self.nanos <= other.nanos
    }

    /// Whether `self` is shorter than `other`.
    pub fn lt(&self, other: &Duration) -> (r: bool)
        ensures
            r == (self@ < other@),
    {
        self.nanos < other.nanos
    }
}

} // verus!
