//! Ranges of scalars.
//!
//! An interval serves as the window of ray parameters in which a hit
//! counts, and as the range to which a colour channel is clamped. The
//! extreme machine values play the part of the two infinities.

use vstd::prelude::*;

verus! {

/// The mathematical value of an interval: its two bounds.
pub struct Bounds {
    pub min: int,
    pub max: int,
}

impl Bounds {
    /// Strictly between the bounds; the bounds themselves are outside.
    pub open spec fn surrounds(self, x: int) -> bool {
        self.min < x < self.max
    }

    /// The nearest value to `x` within the closed range.
    pub open spec fn clamp(self, x: int) -> int
        recommends
            self.min <= self.max,
    {
        if x < self.min {
            self.min
        } else if x > self.max {
            self.max
        } else {
            x
        }
    }

    pub open spec fn size(self) -> int {
        self.max - self.min
    }
}

#[derive(Clone, Copy, Debug, PartialEq, Eq, Structural)]
pub struct Interval {
    min: i128,
    max: i128,
}

impl View for Interval {
    type V = Bounds;

    closed spec fn view(&self) -> Bounds {
        Bounds { min: self.min as int, max: self.max as int }
    }
}

impl Interval {
    /// The interval that surrounds nothing: its bounds are crossed.
    pub fn empty() -> (interval: Interval)
        ensures
            interval@ == (Bounds { min: i128::MAX as int, max: i128::MIN as int }),
    {
        Interval { min: i128::MAX, max: i128::MIN }
    }

    /// The interval that surrounds every value but the two infinities.
    pub fn universe() -> (interval: Interval)
        ensures
            interval@ == (Bounds { min: i128::MIN as int, max: i128::MAX as int }),
    {
        Interval { min: i128::MIN, max: i128::MAX }
    }

    /// The interval from `min` to `max`, which must be in order.
    pub fn new(min: i128, max: i128) -> (interval: Interval)
        requires
            min <= max,
        ensures
            interval@ == (Bounds { min: min as int, max: max as int }),
    {
        Interval { min, max }
    }

    /// The distance from the lower to the upper bound.
    pub fn size(&self) -> (size: i128)
        requires
            i128::MIN <= self@.size() <= i128::MAX,
        ensures
            size == self@.size(),
    {
        self.max - self.min
    }

    /// Whether `val` lies strictly inside the interval.
    pub fn surrounds(&self, val: i128) -> (inside: bool)
        ensures
            inside == self@.surrounds(val as int),
    {
        self.min < val && val < self.max
    }

    /// Saturates `x` to the closed range of the interval.
    pub fn clamp(&self, x: i128) -> (clamped: i128)
        requires
            self@.min <= self@.max,
        ensures
            clamped == self@.clamp(x as int),
    {
        if x < self.min {
            self.min
        } else if x > self.max {
            self.max
        } else {
            x
        }
    }
}

/// The empty interval surrounds nothing, and the universe everything
/// strictly between the infinities.
pub proof fn lemma_named_intervals(x: int)
    ensures
        !(Bounds { min: i128::MAX as int, max: i128::MIN as int }).surrounds(x),
        i128::MIN < x < i128::MAX ==> (Bounds {
            min: i128::MIN as int,
            max: i128::MAX as int,
        }).surrounds(x),
{
}

/// Clamping lands in the closed range, leaves inside values alone and
/// keeps the order of its arguments.
pub proof fn lemma_clamp_laws(bounds: Bounds, x: int, y: int)
    requires
        bounds.min <= bounds.max,
    ensures
        bounds.min <= bounds.clamp(x) <= bounds.max,
        bounds.min <= x <= bounds.max ==> bounds.clamp(x) == x,
        bounds.clamp(bounds.clamp(x)) == bounds.clamp(x),
        x <= y ==> bounds.clamp(x) <= bounds.clamp(y),
{
}

} // verus!
