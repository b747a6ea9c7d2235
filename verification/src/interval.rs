//! Closed ranges of fixed-point scalars used as ray-parameter search windows.

use vstd::prelude::*;

verus! {

/// A closed range of fixed-point scalars. The empty interval is the sentinel
/// `(T_INF, T_NEG_INF)` and the universe is `(T_NEG_INF, T_INF)`; both are
/// valid values, used only for comparison, never for arithmetic.
#[derive(Clone, Copy, PartialEq, Eq, Structural, Debug)]
pub struct Interval {
    pub min: i64,
    pub max: i64,
}

/// The largest representable ray parameter, standing in for positive infinity.
pub const T_INF: i64 = i64::MAX;

/// The smallest representable ray parameter, standing in for negative infinity.
pub const T_NEG_INF: i64 = i64::MIN;

/// The empty interval as a value: below every scalar and above every scalar.
pub open spec fn empty_interval() -> Interval {
    Interval { min: T_INF, max: T_NEG_INF }
}

impl Default for Interval {
    /// Intervals are empty by default.
    fn default() -> (r: Interval)
        ensures
            r == empty_interval(),
    {
        Interval { min: T_INF, max: T_NEG_INF }
    }
}

impl Interval {
    /// Builds the interval with the given bounds.
    pub fn new(min: i64, max: i64) -> (r: Interval)
        ensures
            r.min == min,
            r.max == max,
    {
        Interval { min, max }
    }

    /// The empty interval: below every scalar and above every scalar.
    pub fn empty() -> (r: Interval)
        ensures
            r == empty_interval(),
    {
        Interval { min: T_INF, max: T_NEG_INF }
    }

    /// The interval containing every scalar.
    pub fn universe() -> (r: Interval)
        ensures
            r.min == T_NEG_INF,
            r.max == T_INF,
    {
        Interval { min: T_NEG_INF, max: T_INF }
    }

    /// The union of two intervals: the smallest interval enclosing both.
    pub fn from_intervals(a: Interval, b: Interval) -> (r: Interval)
        ensures
            r.min == if a.min <= b.min {
                a.min
            } else {
                b.min
            },
            r.max == if a.max >= b.max {
                a.max
            } else {
                b.max
            },
    {
        Interval {
            min: if a.min <= b.min {
                a.min
            } else {
                b.min
            },
            max: if a.max >= b.max {
                a.max
            } else {
                b.max
            },
        }
    }

    /// The width of the interval.
    pub fn size(&self) -> (r: i64)
        requires
            i64::MIN <= self.max - self.min <= i64::MAX,
        ensures
            r == self.max - self.min,
    {
        self.max - self.min
    }

    /// Inclusive membership.
    pub fn contains(&self, x: i64) -> (r: bool)
        ensures
            r == (self.min <= x && x <= self.max),
    {
        self.min <= x && x <= self.max
    }

    /// Strict membership.
    pub fn surrounds(&self, x: i64) -> (r: bool)
        ensures
            r == (self.min < x && x < self.max),
    {
        self.min < x && x < self.max
    }

    /// Saturates `x` to the interval.
    pub fn clamp(&self, x: i64) -> (r: i64)
        ensures
            r == clamp_spec(self.min as int, self.max as int, x as int),
    {
        if x < self.min {
            self.min
        } else if x > self.max {
            self.max
        } else {
            x
        }
    }
}

/// `x` saturated to `[min, max]` (`min` wins when the interval is empty,
/// matching the order of the two tests).
pub open spec fn clamp_spec(min: int, max: int, x: int) -> int {
    if x < min {
        min
    } else if x > max {
        max
    } else {
        x
    }
}

/// Strict membership of a model scalar in a model interval.
pub open spec fn surrounds_spec(min: int, max: int, x: int) -> bool {
    min < x && x < max
}

} // verus!
