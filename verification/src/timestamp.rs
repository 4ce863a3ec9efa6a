//! Timestamps: milliseconds since the Unix epoch, as a single field element.

use crate::FIELD_PRIME;
use vstd::prelude::*;

verus! {

/// The targeted interval between consecutive blocks, in milliseconds.
pub const TARGET_BLOCK_INTERVAL_MILLIS: u64 = 588_000;

/// The least allowed spacing between a block and its parent, in milliseconds.
pub const MINIMUM_BLOCK_TIME_MILLIS: u64 = 60_000;

/// A point in time: milliseconds since the Unix epoch. A timestamp is
/// well-formed when it fits a single field element.
#[derive(Clone, Copy, Debug, PartialEq, Eq, Structural, Hash, PartialOrd, Ord)]
pub struct Timestamp {
    pub millis: u64,
}

impl Timestamp {
    pub open spec fn wf(self) -> bool {
        self.millis < FIELD_PRIME
    }

    pub fn millis(ms: u64) -> (r: Timestamp)
        ensures
            r.millis == ms,
    {
        Timestamp { millis: ms }
    }

    pub fn zero() -> (r: Timestamp)
        ensures
            r.millis == 0,
            r.wf(),
    {
        Timestamp { millis: 0 }
    }

    pub fn seconds(s: u64) -> (r: Timestamp)
        requires
            s * 1000 <= u64::MAX,
        ensures
            r.millis == s * 1000,
    {
        Timestamp { millis: s * 1000 }
    }

    pub fn minutes(m: u64) -> (r: Timestamp)
        requires
            m * 60_000 <= u64::MAX,
        ensures
            r.millis == m * 60_000,
    {
        Timestamp { millis: m * 60_000 }
    }

    pub fn hours(h: u64) -> (r: Timestamp)
        requires
            h * 3_600_000 <= u64::MAX,
        ensures
            r.millis == h * 3_600_000,
    {
        Timestamp { millis: h * 3_600_000 }
    }

    pub fn days(d: u64) -> (r: Timestamp)
        requires
            d * 86_400_000 <= u64::MAX,
        ensures
            r.millis == d * 86_400_000,
    {
        Timestamp { millis: d * 86_400_000 }
    }

    /// The later of two instants, as a sum of this instant and a duration.
    pub fn plus(&self, other: &Timestamp) -> (r: Timestamp)
        requires
            self.millis + other.millis <= u64::MAX,
        ensures
            r.millis == self.millis + other.millis,
    {
        Timestamp { millis: self.millis + other.millis }
    }

    /// The earlier instant moved back by a duration, saturating at the epoch.
    pub fn minus(&self, other: &Timestamp) -> (r: Timestamp)
        ensures
            r.millis == if other.millis <= self.millis {
                (self.millis - other.millis) as int
            } else {
                0
            },
    {
        if other.millis <= self.millis {
            Timestamp { millis: self.millis - other.millis }
        } else {
            Timestamp { millis: 0 }
        }
    }

    /// Whether `self` is strictly before `other`.
    pub fn before(&self, other: &Timestamp) -> (r: bool)
        ensures
            r == (self.millis < other.millis),
    {
        self.millis < other.millis
    }

    /// Whether `self` is at or before `other`.
    pub fn at_or_before(&self, other: &Timestamp) -> (r: bool)
        ensures
            r == (self.millis <= other.millis),
    {
        self.millis <= other.millis
    }
}

} // verus!
