//! Double-precision measurements by their place in the order of numbers.

use vstd::prelude::*;

verus! {

/// A double-precision number by its place in the total order of such numbers: of two numbers, the
/// smaller has the smaller place. The bits of a number give its place, and back.
#[derive(Clone, Copy, Debug, PartialEq, Eq, Structural)]
pub struct Double {
    pub order: i64,
}

/// The place of positive infinity.
pub const POSITIVE_INFINITY: i64 = 0x7ff0_0000_0000_0000;

/// The place of negative infinity.
pub const NEGATIVE_INFINITY: i64 = -0x7ff0_0000_0000_0001;

impl Double {
    /// Whether this is a number. The places outside the infinities are those of NaNs.
    pub open spec fn is_number(self) -> bool {
        NEGATIVE_INFINITY <= self.order <= POSITIVE_INFINITY
    }

    /// The larger of two numbers. A NaN gives way to the other one.
    pub open spec fn spec_larger(self, other: Double) -> Double {
        if !self.is_number() {
            other
        } else if !other.is_number() || self.order >= other.order {
            self
        } else {
            other
        }
    }

    /// The smaller of two numbers. A NaN gives way to the other one.
    pub open spec fn spec_smaller(self, other: Double) -> Double {
        if !self.is_number() {
            other
        } else if !other.is_number() || self.order <= other.order {
            self
        } else {
            other
        }
    }

    fn counts(self) -> (result: bool)
        ensures
            result == self.is_number(),
    {
        NEGATIVE_INFINITY <= self.order && self.order <= POSITIVE_INFINITY
    }

    pub fn larger(self, other: Double) -> (result: Double)
        ensures
            result == self.spec_larger(other),
    {
        if !self.counts() {
            other
        } else if !other.counts() || self.order >= other.order {
            self
        } else {
            other
        }
    }

    pub fn smaller(self, other: Double) -> (result: Double)
        ensures
            result == self.spec_smaller(other),
    {
        if !self.counts() {
            other
        } else if !other.counts() || self.order <= other.order {
            self
        } else {
            other
        }
    }
}

/// Of two values the smaller and the larger are picked, and what is no number gives way.
pub proof fn lemma_one_of_two_is_picked(a: Double, b: Double)
    ensures
        a.spec_smaller(b) == a || a.spec_smaller(b) == b,
        a.spec_larger(b) == a || a.spec_larger(b) == b,
        a.is_number() && b.is_number() ==> a.spec_smaller(b).order <= a.order && a.spec_smaller(
            b,
        ).order <= b.order && a.spec_larger(b).order >= a.order && a.spec_larger(b).order >= b.order,
        !a.is_number() ==> a.spec_smaller(b) == b && a.spec_larger(b) == b,
        !b.is_number() && a.is_number() ==> a.spec_smaller(b) == a && a.spec_larger(b) == a,
{
}

} // verus!
