//! Spans of time, and instants as spans since some fixed origin.

use vstd::prelude::*;

verus! {

/// The longest span: 2^64 - 1 seconds and 999999999 nanoseconds.
pub const MAX_NANOS: u128 = 18_446_744_073_709_551_615_999_999_999;

/// A span of time in nanoseconds.
#[derive(Debug, Clone, Copy, PartialEq, Eq, PartialOrd, Ord, Hash, Structural)]
pub struct Duration {
    pub nanos: u128,
}

/// An instant, as the span since an origin that all instants share.
pub type Instant = Duration;

impl Duration {
    /// Spans are at most `MAX_NANOS` long.
    pub open spec fn wf(self) -> bool {
        self.nanos <= MAX_NANOS
    }

    /// No time at all.
    pub fn zero() -> (span: Self)
        ensures
            span.nanos == 0,
            span.wf(),
    {
        Duration { nanos: 0 }
    }

    /// The longest span.
    pub fn longest() -> (span: Self)
        ensures
            span.nanos == MAX_NANOS,
            span.wf(),
    {
        Duration { nanos: MAX_NANOS }
    }

    /// A span of whole seconds.
    pub fn from_secs(secs: u64) -> (span: Self)
        ensures
            span.nanos == secs * 1_000_000_000,
            span.wf(),
    {
        Duration { nanos: secs as u128 * 1_000_000_000 }
    }

    /// A span of whole milliseconds.
    pub fn from_millis(millis: u64) -> (span: Self)
        ensures
            span.nanos == millis * 1_000_000,
            span.wf(),
    {
        Duration { nanos: millis as u128 * 1_000_000 }
    }

    /// Whether the span is empty.
    pub fn is_zero(&self) -> (zero: bool)
        ensures
            zero == (self.nanos == 0),
    {
        self.nanos == 0
    }

    /// The whole milliseconds in the span.
    pub fn as_millis(&self) -> (millis: u128)
        ensures
            millis == self.nanos / 1_000_000,
    {
        self.nanos / 1_000_000
    }

    /// The whole microseconds in the span.
    pub fn as_micros(&self) -> (micros: u128)
        ensures
            micros == self.nanos / 1_000,
    {
        self.nanos / 1_000
    }

    /// The span from `earlier` to this instant, empty where `earlier` is the later one.
    pub fn since(self, earlier: Instant) -> (span: Self)
        ensures
            span == self.spec_since(earlier),
            self.wf() ==> span.wf(),
    {
        Duration { nanos: self.nanos.saturating_sub(earlier.nanos) }
    }

    /// The span from `earlier` to this instant, empty where `earlier` is the later one.
    pub open spec fn spec_since(self, earlier: Instant) -> Self {
        Duration {
            nanos: if self.nanos >= earlier.nanos {
                (self.nanos - earlier.nanos) as u128
            } else {
                0
            },
        }
    }

    /// This instant moved on by a span.
    pub fn after(self, span: Duration) -> (moved: Self)
        requires
            self.nanos + span.nanos <= MAX_NANOS,
        ensures
            moved.nanos == self.nanos + span.nanos,
            moved.wf(),
    {
        Duration { nanos: self.nanos + span.nanos }
    }

    /// The longer of two spans.
    pub fn longer(self, other: Duration) -> (most: Self)
        ensures
            most == (if self.nanos >= other.nanos {
                self
            } else {
                other
            }),
    {
        if self.nanos >= other.nanos {
            self
        } else {
            other
        }
    }
}

/// The span between two instants leads from the earlier to the later one, and there is none backwards.
pub proof fn law_spans_lead_forwards(earlier: Instant, later: Instant)
    requires
        earlier.nanos <= later.nanos,
    ensures
        earlier.nanos + later.spec_since(earlier).nanos == later.nanos,
        earlier.spec_since(later).nanos == 0,
{
}

}
