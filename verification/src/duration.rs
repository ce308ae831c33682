//! A span of monotonic time with nanosecond resolution, shaped like
//! `std::time::Duration` (whole seconds fit in a `u64`).

use vstd::prelude::*;

verus! {

/// Nanoseconds in one second.
pub const NANOS_PER_SEC: u128 = 1_000_000_000;

/// The longest span: `u64::MAX` seconds and 999_999_999 nanoseconds.
pub const MAX_NANOS: u128 = 18_446_744_073_709_551_615_999_999_999;

/// A span of time.
#[derive(Clone, Copy, Debug, PartialEq, Eq, Structural)]
pub struct Duration {
    nanos: u128,
}

/// The spans above `MAX_NANOS` are cut down to it.
pub open spec fn capped(n: nat) -> nat {
    if n <= MAX_NANOS {
        n
    } else {
        MAX_NANOS as nat
    }
}

impl View for Duration {
    type V = nat;

    closed spec fn view(&self) -> nat {
        capped(self.nanos as nat)
    }
}

/// No span is longer than `MAX_NANOS`.
pub proof fn lemma_bounded(d: Duration)
    ensures
        d@ <= MAX_NANOS,
{
}

impl Duration {
    #[verifier::type_invariant]
    spec fn bounded(self) -> bool {
        self.nanos <= MAX_NANOS
    }

    /// The empty span.
    pub fn zero() -> (d: Duration)
        ensures
            d@ == 0,
    {
        Duration { nanos: 0 }
    }

    /// A span of `secs` whole seconds.
    pub fn from_secs(secs: u64) -> (d: Duration)
        ensures
            d@ == secs * NANOS_PER_SEC,
            d@ <= MAX_NANOS,
    {
        let d = Duration { nanos: secs as u128 * NANOS_PER_SEC };
        assert(d@ == secs * NANOS_PER_SEC);
        d
    }

    /// A span of `secs` seconds and `subsec_nanos` nanoseconds.
    pub fn new(secs: u64, subsec_nanos: u32) -> (d: Duration)
        requires
            subsec_nanos < NANOS_PER_SEC,
        ensures
            d@ == secs * NANOS_PER_SEC + subsec_nanos,
            d@ <= MAX_NANOS,
    {
        Duration { nanos: secs as u128 * NANOS_PER_SEC + subsec_nanos as u128 }
    }

    /// The whole span in nanoseconds.
    pub fn as_nanos(&self) -> (n: u128)
        ensures
            n == self@,
            n <= MAX_NANOS,
    {
        proof {
            use_type_invariant(self);
        }
        self.nanos
    }

    /// The number of whole seconds in the span.
    pub fn as_secs(&self) -> (s: u64)
        ensures
            s == self@ / (NANOS_PER_SEC as nat),
    {
        proof {
            use_type_invariant(self);
        }
        (self.nanos / NANOS_PER_SEC) as u64
    }

    /// The number of whole milliseconds in the span.
    pub fn as_millis(&self) -> (ms: u128)
        ensures
            ms == self@ / 1_000_000,
    {
        proof {
            use_type_invariant(self);
        }
        self.nanos / 1_000_000
    }

    /// Whether the span is empty.
    pub fn is_zero(&self) -> (b: bool)
        ensures
            b == (self@ == 0),
    {
        proof {
            use_type_invariant(self);
        }
        self.nanos == 0
    }

    /// The sum of two spans, stopping at the longest span.
    pub fn saturating_add(self, rhs: Duration) -> (d: Duration)
        ensures
            d@ == capped(self@ + rhs@),
    {
        proof {
            use_type_invariant(&self);
            use_type_invariant(&rhs);
        }
        let sum = self.nanos + rhs.nanos;
        if sum <= MAX_NANOS {
            Duration { nanos: sum }
        } else {
            Duration { nanos: MAX_NANOS }
        }
    }

    /// The difference of two spans, stopping at zero.
    pub fn saturating_sub(self, rhs: Duration) -> (d: Duration)
        ensures
            d@ == (if self@ >= rhs@ { self@ - rhs@ } else { 0 }),
    {
        proof {
            use_type_invariant(&self);
        }
        if self.nanos >= rhs.nanos {
            Duration { nanos: self.nanos - rhs.nanos }
        } else {
            Duration { nanos: 0 }
        }
    }
}

} // verus!
