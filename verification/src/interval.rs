//! Closed ranges of reals, for ray parameters and for the sides of a box.

use crate::scalar::{value_le, value_lt, Scalar, Value};
use vstd::prelude::*;

verus! {

/// The range `[min, max]`. It is empty where `max < min`.
#[derive(Clone, Copy, Debug)]
pub struct Interval {
    pub min: Scalar,
    pub max: Scalar,
}

impl Interval {
    /// The range from `a` to `b`.
    pub fn new(a: Scalar, b: Scalar) -> (r: Self)
        ensures
            r == (Interval { min: a, max: b }),
    {
        Self { min: a, max: b }
    }

    /// The smallest range that holds both `a` and `b`.
    pub fn interval_new(a: Interval, b: Interval) -> (r: Self)
        ensures
            r == hull(a, b),
    {
        Self {
            min: if a.min.le(b.min) { a.min } else { b.min },
            max: if a.max.ge(b.max) { a.max } else { b.max },
        }
    }

    /// Whether `min <= x <= max`.
    pub fn contains(&self, x: Scalar) -> (r: bool)
        ensures
            r == self.holds(x),
    {
        self.min.le(x) && x.le(self.max)
    }

    /// Whether `min < x < max`.
    pub fn surrounds(&self, x: Scalar) -> (r: bool)
        ensures
            r == self.holds_inside(x),
    {
        self.min.lt(x) && x.lt(self.max)
    }

    /// `x`, moved to the nearer end of the range where it lies outside.
    pub fn clamp(&self, x: Scalar) -> (r: Scalar)
        ensures
            r == self.clamped(x),
    {
        if x.lt(self.min) {
            self.min
        } else if x.gt(self.max) {
            self.max
        } else {
            x
        }
    }

    /// The range that holds nothing: from plus infinity down to minus
    /// infinity.
    pub fn empty() -> (r: Self)
        ensures
            r.min@ == Value::PosInf,
            r.max@ == Value::NegInf,
            r == Interval::nothing(),
    {
        Self::new(Scalar::infinity(), Scalar::neg_infinity())
    }

    /// The range that holds every real: from minus infinity to plus
    /// infinity.
    pub fn universe() -> (r: Self)
        ensures
            r.min@ == Value::NegInf,
            r.max@ == Value::PosInf,
            r == Interval::everything(),
    {
        Self::new(Scalar::neg_infinity(), Scalar::infinity())
    }

    /// What [`Interval::contains`] decides.
    pub open spec fn holds(&self, x: Scalar) -> bool {
        value_le(self.min@, x@) && value_le(x@, self.max@)
    }

    /// What [`Interval::surrounds`] decides.
    pub open spec fn holds_inside(&self, x: Scalar) -> bool {
        value_lt(self.min@, x@) && value_lt(x@, self.max@)
    }

    /// What [`Interval::clamp`] returns.
    pub open spec fn clamped(&self, x: Scalar) -> Scalar {
        if value_lt(x@, self.min@) {
            self.min
        } else if value_lt(self.max@, x@) {
            self.max
        } else {
            x
        }
    }

    /// The empty range.
    pub open spec fn nothing() -> Interval {
        Interval {
            min: Scalar { bits: crate::scalar::INFINITY_BITS },
            max: Scalar { bits: 0xFFF0_0000_0000_0000 },
        }
    }

    /// The range of all reals.
    pub open spec fn everything() -> Interval {
        Interval {
            min: Scalar { bits: 0xFFF0_0000_0000_0000 },
            max: Scalar { bits: crate::scalar::INFINITY_BITS },
        }
    }
}

/// The smallest range that holds both `a` and `b`, as
/// [`Interval::interval_new`] picks its ends.
pub open spec fn hull(a: Interval, b: Interval) -> Interval {
    Interval {
        min: if value_le(a.min@, b.min@) { a.min } else { b.min },
        max: if value_le(b.max@, a.max@) { a.max } else { b.max },
    }
}

impl Default for Interval {
    /// The empty range.
    fn default() -> (r: Self)
        ensures
            r == Interval::nothing(),
    {
        Self::empty()
    }
}

} // verus!
