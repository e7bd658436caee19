//! Single-precision numbers by their IEEE 754 bit patterns.
//!
//! Receivers report positions and volumes as single-precision numbers. The decisions here need
//! their class and their order, which the bits give; arithmetic on them stays with the caller.

use vstd::prelude::*;

verus! {

/// A single-precision number.
#[derive(Clone, Copy, Debug, PartialEq, Eq, Structural)]
pub struct Single {
    pub bits: u32,
}

pub const INFINITY_BITS: u32 = 0x7f80_0000;

pub const ONE_BITS: u32 = 0x3f80_0000;

impl Single {
    /// The bits without the sign.
    pub open spec fn magnitude(self) -> int {
        self.bits as int % 0x8000_0000
    }

    pub open spec fn is_nan(self) -> bool {
        self.magnitude() > INFINITY_BITS
    }

    pub open spec fn is_finite(self) -> bool {
        self.magnitude() < INFINITY_BITS
    }

    /// A number that orders as the value does: of two values that are not NaN, the smaller has
    /// the smaller rank, and both zeros have the same.
    pub open spec fn rank(self) -> int {
        if self.bits >= 0x8000_0000 {
            -self.magnitude()
        } else {
            self.magnitude()
        }
    }

    /// Whether the value is a finite number and not below zero.
    pub fn is_finite_and_not_negative(self) -> (result: bool)
        ensures
            result == (self.is_finite() && self.rank() >= 0),
    {
        self.bits < INFINITY_BITS || self.bits == 0x8000_0000
    }

    /// Whether the value is a finite number above zero.
    pub fn is_finite_and_positive(self) -> (result: bool)
        ensures
            result == (self.is_finite() && self.rank() > 0),
    {
        0 < self.bits && self.bits < INFINITY_BITS
    }

    /// The value, but not below zero; zero in place of a NaN.
    pub open spec fn raised_to_zero(self) -> Single {
        if self.is_nan() || self.rank() <= 0 {
            Single { bits: 0 }
        } else {
            self
        }
    }

    pub fn at_least_zero(self) -> (result: Single)
        ensures
            result == self.raised_to_zero(),
    {
        if self.bits <= INFINITY_BITS {
            self
        } else {
            Single { bits: 0 }
        }
    }

    /// The smaller of two values that are not below zero; the other one where one is a NaN.
    pub open spec fn lowered_to(self, limit: Single) -> Single {
        if limit.is_nan() || (!self.is_nan() && self.rank() <= limit.rank()) {
            self
        } else {
            limit
        }
    }

    pub fn at_most(self, limit: Single) -> (result: Single)
        requires
            self.bits <= INFINITY_BITS,
            limit.bits <= INFINITY_BITS,
        ensures
            result == self.lowered_to(limit),
    {
        if self.bits <= limit.bits {
            self
        } else {
            limit
        }
    }

    /// The value brought into the range from zero to one. A NaN stays as it is, and so does
    /// negative zero.
    pub open spec fn in_unit_range(self) -> Single {
        if self.is_nan() {
            self
        } else if self.rank() < 0 {
            Single { bits: 0 }
        } else if self.rank() > ONE_BITS {
            Single { bits: ONE_BITS }
        } else {
            self
        }
    }

    pub fn clamp_to_unit(self) -> (result: Single)
        ensures
            result == self.in_unit_range(),
    {
        if self.bits < 0x8000_0000 {
            if ONE_BITS < self.bits && self.bits <= INFINITY_BITS {
                Single { bits: ONE_BITS }
            } else {
                self
            }
        } else if self.bits == 0x8000_0000 || self.bits > 0xff80_0000 {
            self
        } else {
            Single { bits: 0 }
        }
    }
}

/// A value is brought into the range from zero to one by moving it as little as needed: what lies
/// in the range stays, and the order of two values stays.
pub proof fn lemma_ranges_keep_the_order(value: Single, other: Single)
    requires
        !value.is_nan(),
        !other.is_nan(),
    ensures
        0 <= value.in_unit_range().rank() <= 0x3f80_0000,
        0 <= value.rank() <= 0x3f80_0000 ==> value.in_unit_range() == value,
        value.rank() < 0 ==> value.in_unit_range().bits == 0,
        value.rank() > 0x3f80_0000 ==> value.in_unit_range().bits == 0x3f80_0000,
        value.rank() <= other.rank() ==> value.in_unit_range().rank()
            <= other.in_unit_range().rank(),
{
}

/// A value is no number where every bit of its exponent is set and some bit of its fraction, and
/// finite where some bit of its exponent is not.
pub proof fn lemma_the_exponent_tells_the_kind(value: Single)
    ensures
        value.is_nan() <==> value.bits & 0x7f80_0000 == 0x7f80_0000 && value.bits & 0x007f_ffff != 0,
        value.is_finite() <==> value.bits & 0x7f80_0000 != 0x7f80_0000,
{
    let bits = value.bits;
    assert(bits % 0x8000_0000 > 0x7f80_0000 <==> bits & 0x7f80_0000 == 0x7f80_0000 && bits
        & 0x007f_ffff != 0) by (bit_vector);
    assert(bits % 0x8000_0000 < 0x7f80_0000 <==> bits & 0x7f80_0000 != 0x7f80_0000) by (bit_vector);
}

/// A value is lowered to the smaller of the two and raised to the larger one, and what is no
/// number gives way.
pub proof fn lemma_limits_pick_one_of_two(value: Single, limit: Single)
    ensures
        value.lowered_to(limit) == value || value.lowered_to(limit) == limit,
        !value.is_nan() && !limit.is_nan() ==> value.lowered_to(limit).rank() <= value.rank()
            && value.lowered_to(limit).rank() <= limit.rank(),
        limit.is_nan() ==> value.lowered_to(limit) == value,
        value.is_nan() && !limit.is_nan() ==> value.lowered_to(limit) == limit,
        value.is_nan() || value.rank() <= 0 ==> value.raised_to_zero().bits == 0,
        !value.is_nan() && value.rank() > 0 ==> value.raised_to_zero() == value,
{
}

} // verus!
