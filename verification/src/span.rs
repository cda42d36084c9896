//! Spans of time in whole nanoseconds.

use vstd::prelude::*;

verus! {

/// A span of time, counted in nanoseconds.
#[derive(Clone, Copy, Debug, PartialEq, Eq, Structural)]
pub struct Span {
    /// The length in nanoseconds.
    pub nanos: u128,
}

impl Span {
    /// The empty span.
    #[verifier::allow_in_spec]
    pub fn zero() -> Span
        returns
            (Span { nanos: 0 }),
    {
        Span { nanos: 0 }
    }

    /// A span of `n` nanoseconds.
    pub fn from_nanos(n: u64) -> (s: Span)
        ensures
            s.nanos == n,
    {
        Span { nanos: n as u128 }
    }

    /// A span of `n` milliseconds.
    pub fn from_millis(n: u64) -> (s: Span)
        ensures
            s.nanos == n * 1_000_000,
    {
        Span { nanos: n as u128 * 1_000_000 }
    }

    /// A span of `n` seconds.
    pub fn from_secs(n: u64) -> (s: Span)
        ensures
            s.nanos == n * 1_000_000_000,
    {
        Span { nanos: n as u128 * 1_000_000_000 }
    }

    /// Whether the span is empty.
    pub fn is_zero(self) -> (b: bool)
        ensures
            b == (self.nanos == 0),
    {
        self.nanos == 0
    }

    /// What is left of this span after `other`, or the empty span where `other` is longer.
    pub fn saturating_sub(self, other: Span) -> (s: Span)
        ensures
            s.nanos == left(self.nanos as nat, other.nanos as nat),
    {
        if self.nanos >= other.nanos {
            Span { nanos: self.nanos - other.nanos }
        } else {
            Span::zero()
        }
    }
}

/// `a - b`, or 0 where `b` is larger.
pub open spec fn left(a: nat, b: nat) -> nat {
    if a >= b {
        (a - b) as nat
    } else {
        0
    }
}

} // verus!
