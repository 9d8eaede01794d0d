//! Closed ranges of fixed-point values, used both as the window of
//! acceptable ray parameters and as the clamp window for pixel output.

use vstd::prelude::*;

verus! {

/// The clamp of `x` into `[mn, mx]`, with the upper bound winning when
/// the range is inverted, exactly as the running code decides it.
pub open spec fn spec_clamp(mn: int, mx: int, x: int) -> int {
    if x > mx {
        mx
    } else if x < mn {
        mn
    } else {
        x
    }
}

#[derive(Clone, Copy, Debug, PartialEq, Eq, Structural)]
pub struct Interval {
    pub min: i64,
    pub max: i64,
}

impl Interval {
    pub fn new(min: i64, max: i64) -> (r: Self)
        ensures
            r.min == min,
            r.max == max,
    {
        Self { min, max }
    }

    /// The range that matches nothing.
    pub fn empty() -> (r: Self)
        ensures
            r.min == i64::MAX,
            r.max == i64::MIN,
            r.max < r.min,
    {
        Self { min: i64::MAX, max: i64::MIN }
    }

    /// The range that matches every representable value.
    pub fn universe() -> (r: Self)
        ensures
            r.min == i64::MIN,
            r.max == i64::MAX,
    {
        Self { min: i64::MIN, max: i64::MAX }
    }

    pub fn size(&self) -> (r: i64)
        requires
            i64::MIN <= self.max - self.min <= i64::MAX,
        ensures
            r == self.max - self.min,
    {
        self.max - self.min
    }

    pub fn contains(&self, x: i64) -> (r: bool)
        ensures
            r == (self.min <= x <= self.max),
    {
        self.min <= x && x <= self.max
    }

    /// Strict membership: the open interior of the range.
    pub fn surrounds(&self, x: i64) -> (r: bool)
        ensures
            r == (self.min < x < self.max),
    {
        self.min < x && x < self.max
    }

    pub fn clamp(&self, x: i64) -> (r: i64)
        ensures
            r == spec_clamp(self.min as int, self.max as int, x as int),
            self.min <= self.max ==> self.min <= r <= self.max,
    {
        if x > self.max {
            return self.max;
        }
        if x < self.min {
            return self.min;
        }
        x
    }
}

} // verus!
