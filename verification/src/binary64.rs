//! Binary floating-point numbers as their bit patterns.
//!
//! Scores, weights and thresholds are stored and compared with fixed bounds,
//! but never computed with here. A [`Binary64`] holds the 64 bits of an IEEE 754
//! binary64 number; its order is read off the bits.

use vstd::prelude::*;

verus! {

/// A binary64 number, as its bits: the sign in the highest one, then eleven
/// bits of exponent and fifty-two of fraction.
#[derive(Debug, Clone, Copy, PartialEq, Eq, Hash, Structural)]
pub struct Binary64 {
    pub bits: u64,
}

/// The bits of positive infinity.
pub const INFINITY_BITS: u64 = 0x7ff0_0000_0000_0000;

/// The bits of negative zero: the sign alone.
pub const SIGN_BIT: u64 = 0x8000_0000_0000_0000;

/// The bits of one.
pub const ONE_BITS: u64 = 0x3ff0_0000_0000_0000;

impl Binary64 {
    /// Whether the number is negative or negative zero.
    pub open spec fn signed(self) -> bool {
        self.bits >= SIGN_BIT
    }

    /// The bits without the sign. Among numbers, a larger magnitude has larger
    /// bits.
    pub open spec fn magnitude(self) -> int {
        if self.signed() {
            self.bits - SIGN_BIT
        } else {
            self.bits as int
        }
    }

    /// Whether the bits are no number.
    pub open spec fn is_nan(self) -> bool {
        self.magnitude() > INFINITY_BITS
    }

    /// Whether the number is below zero. Negative zero is not.
    pub open spec fn below_zero(self) -> bool {
        self.signed() && 0 < self.magnitude() <= INFINITY_BITS
    }

    /// Whether the number lies between zero and one, both included.
    pub open spec fn in_unit(self) -> bool {
        self.magnitude() == 0 || (!self.signed() && self.magnitude() <= ONE_BITS)
    }

    /// Whether the bits are no number.
    pub fn nan(&self) -> (r: bool)
        ensures
            r == self.is_nan(),
    {
        if self.bits >= SIGN_BIT {
            self.bits - SIGN_BIT > INFINITY_BITS
        } else {
            self.bits > INFINITY_BITS
        }
    }

    /// Whether the number is below zero.
    pub fn negative(&self) -> (r: bool)
        ensures
            r == self.below_zero(),
    {
        self.bits > SIGN_BIT && self.bits - SIGN_BIT <= INFINITY_BITS
    }

    /// Whether the number lies between zero and one, both included.
    pub fn is_unit(&self) -> (r: bool)
        ensures
            r == self.in_unit(),
    {
        self.bits == SIGN_BIT || self.bits <= ONE_BITS
    }
}

/// The bits of one half.
pub const HALF_BITS: u64 = 0x3fe0_0000_0000_0000;

/// The bits of two.
pub const TWO_BITS: u64 = 0x4000_0000_0000_0000;

/// Two to the power of 52.
pub const FRACTION: u64 = 0x0010_0000_0000_0000;

/// One thousandth, rounded to binary64, in units of two to the power of minus
/// 53, rounded down.
pub const THOUSANDTH: u64 = 9_007_199_254_740;

impl Binary64 {
    /// A number from one half up to two, in units of two to the power of minus
    /// 53. In that range every number is a whole number of them.
    pub open spec fn scaled(self) -> int {
        if self.bits < ONE_BITS {
            FRACTION + (self.bits - HALF_BITS)
        } else {
            2 * (FRACTION + (self.bits - ONE_BITS))
        }
    }

    /// Whether the number differs from one by no more than a thousandth.
    pub open spec fn near_one(self) -> bool {
        &&& HALF_BITS <= self.bits < TWO_BITS
        &&& -THOUSANDTH <= self.scaled() - 2 * FRACTION <= THOUSANDTH
    }

    /// Whether the number differs from one by no more than a thousandth.
    pub fn is_near_one(&self) -> (r: bool)
        ensures
            r == self.near_one(),
    {
        if self.bits < HALF_BITS || self.bits >= TWO_BITS {
            return false;
        }
        let scaled: u64 = if self.bits < ONE_BITS {
            FRACTION + (self.bits - HALF_BITS)
        } else {
            2 * (FRACTION + (self.bits - ONE_BITS))
        };
        2 * FRACTION <= scaled + THOUSANDTH && scaled <= 2 * FRACTION + THOUSANDTH
    }
}

} // verus!
