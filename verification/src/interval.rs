//! Closed and open scalar ranges, used to bound valid hit distances and to
//! clamp color channels. The whole-range sentinels stand in for the
//! infinities: no finite scalar lies outside them.

use vstd::prelude::*;

verus! {

/// The greatest representable scalar, standing in for positive infinity.
pub const POS_INF: i64 = i64::MAX;

/// The least representable scalar, standing in for negative infinity.
pub const NEG_INF: i64 = i64::MIN;

#[derive(Debug, Clone, Copy)]
pub struct Interval {
    pub min: i64,
    pub max: i64,
}

/// Whether `x` lies in the closed range.
pub open spec fn spec_contains(iv: Interval, x: i64) -> bool {
    iv.min <= x && x <= iv.max
}

/// Whether `x` lies strictly inside the range.
pub open spec fn spec_surrounds(iv: Interval, x: i64) -> bool {
    iv.min < x && x < iv.max
}

/// The nearest value of the closed range.
pub open spec fn spec_clamp(iv: Interval, x: i64) -> i64 {
    if x < iv.min {
        iv.min
    } else if x > iv.max {
        iv.max
    } else {
        x
    }
}

impl Interval {
    /// The interval as a spec-level value.
    pub open spec fn spec_new(min: i64, max: i64) -> Interval {
        Interval { min, max }
    }

    pub fn new(min: i64, max: i64) -> (iv: Interval)
        ensures
            iv == Interval::spec_new(min, max),
    {
        Interval { min, max }
    }

    pub fn min(&self) -> (r: i64)
        ensures
            r == self.min,
    {
        self.min
    }

    pub fn max(&self) -> (r: i64)
        ensures
            r == self.max,
    {
        self.max
    }

    pub fn contains(&self, x: i64) -> (b: bool)
        ensures
            b == spec_contains(*self, x),
    {
        self.min <= x && self.max >= x
    }

    pub fn surrounds(&self, x: i64) -> (b: bool)
        ensures
            b == spec_surrounds(*self, x),
    {
        self.min < x && self.max > x
    }

    pub fn clamp(&self, x: i64) -> (r: i64)
        ensures
            r == spec_clamp(*self, x),
    {
        if x < self.min {
            self.min
        } else if x > self.max {
            self.max
        } else {
            x
        }
    }
}

/// The interval that contains nothing.
pub struct Empty;

impl Empty {
    pub fn new() -> (iv: Interval)
        ensures
            iv == Interval::spec_new(POS_INF, NEG_INF),
            forall|x: i64| !spec_contains(iv, x),
    {
        Interval { min: POS_INF, max: NEG_INF }
    }
}

/// The interval that contains every scalar.
pub struct Universe;

impl Universe {
    pub fn new() -> (iv: Interval)
        ensures
            iv == Interval::spec_new(NEG_INF, POS_INF),
            forall|x: i64| spec_contains(iv, x),
    {
        Interval { min: NEG_INF, max: POS_INF }
    }
}

/// What the clamp returns always lies in the range, whenever the range's
/// ends are ordered.
pub proof fn lemma_clamp_contains(iv: Interval, x: i64)
    requires
        iv.min <= iv.max,
    ensures
        spec_contains(iv, spec_clamp(iv, x)),
{
}

} // verus!
