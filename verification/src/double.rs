//! IEEE 754 binary64 numbers, held by their bit patterns.
//!
//! The container stores several quantities in this format (the centre of the
//! octree, the spacing, the GPS time range). The library stores, classifies and
//! orders such numbers; it never does arithmetic on them.

use vstd::prelude::*;

verus! {

/// Two to the power 52: the weight of the lowest exponent bit.
pub const EXPONENT_UNIT: u64 = 0x10_0000_0000_0000;

/// Two to the power 63: the weight of the sign bit.
pub const SIGN_UNIT: u64 = 0x8000_0000_0000_0000;

/// A binary64 number, as the 64 bits that encode it.
#[derive(Clone, Copy, Debug, PartialEq, Eq, Structural)]
pub struct Double {
    /// Sign (1 bit), biased exponent (11 bits), fraction (52 bits).
    pub bits: u64,
}

/// Three numbers: a position or a size along x, y and z.
#[derive(Clone, Copy, Debug, PartialEq, Eq, Structural)]
pub struct Vector {
    pub x: Double,
    pub y: Double,
    pub z: Double,
}

impl Double {
    /// The bits below the sign bit.
    pub open spec fn magnitude(self) -> int {
        self.bits as int % 0x8000_0000_0000_0000
    }

    /// Whether the sign bit is set.
    pub open spec fn negative(self) -> bool {
        self.bits >= 0x8000_0000_0000_0000
    }

    /// The biased exponent.
    pub open spec fn exponent(self) -> int {
        self.magnitude() / 0x10_0000_0000_0000
    }

    /// The fraction bits.
    pub open spec fn fraction(self) -> int {
        self.magnitude() % 0x10_0000_0000_0000
    }

    /// Not a number: all exponent bits set and a fraction that is not zero.
    pub open spec fn nan(self) -> bool {
        self.exponent() == 2047 && self.fraction() != 0
    }

    /// Neither zero, subnormal, infinite nor NaN.
    pub open spec fn normal(self) -> bool {
        self.exponent() != 0 && self.exponent() != 2047
    }

    /// Where the number stands among all numbers that are not NaN: the order
    /// of ranks is the order of the numbers, and both zeros have rank 0.
    pub open spec fn rank(self) -> int {
        if self.negative() {
            -self.magnitude()
        } else {
            self.magnitude()
        }
    }

    /// The comparison `self == other` of IEEE 754: false if either is NaN,
    /// and true of the two zeros.
    pub open spec fn spec_same(self, other: Double) -> bool {
        !self.nan() && !other.nan() && self.rank() == other.rank()
    }

    /// The comparison `self < other` of IEEE 754: false if either is NaN.
    pub open spec fn spec_lt(self, other: Double) -> bool {
        !self.nan() && !other.nan() && self.rank() < other.rank()
    }

    /// The number with these bits.
    pub fn from_bits(bits: u64) -> (d: Double)
        ensures
            d.bits == bits,
    {
        Double { bits }
    }

    /// The bits of the number.
    pub fn to_bits(&self) -> (bits: u64)
        ensures
            bits == self.bits,
    {
        self.bits
    }

    /// Positive zero.
    pub fn zero() -> (d: Double)
        ensures
            d.bits == 0,
            d.rank() == 0,
            !d.nan(),
    {
        Double { bits: 0 }
    }

    /// The largest finite number.
    pub fn max_value() -> (d: Double)
        ensures
            d.bits == 0x7FEF_FFFF_FFFF_FFFF,
            !d.nan(),
            forall|o: Double| o.exponent() != 2047 ==> o.rank() <= d.rank(),
    {
        Double { bits: 0x7FEF_FFFF_FFFF_FFFF }
    }

    /// The smallest finite number.
    pub fn min_value() -> (d: Double)
        ensures
            d.bits == 0xFFEF_FFFF_FFFF_FFFF,
            !d.nan(),
            forall|o: Double| o.exponent() != 2047 ==> d.rank() <= o.rank(),
    {
        Double { bits: 0xFFEF_FFFF_FFFF_FFFF }
    }

    fn magnitude_bits(&self) -> (m: u64)
        ensures
            m as int == self.magnitude(),
    {
        self.bits % SIGN_UNIT
    }

    /// Whether the number is NaN.
    pub fn is_nan(&self) -> (r: bool)
        ensures
            r == self.nan(),
    {
        let m = self.magnitude_bits();
        m / EXPONENT_UNIT == 2047 && m % EXPONENT_UNIT != 0
    }

    /// Whether the number is neither zero, subnormal, infinite nor NaN.
    pub fn is_normal(&self) -> (r: bool)
        ensures
            r == self.normal(),
    {
        let e = self.magnitude_bits() / EXPONENT_UNIT;
        e != 0 && e != 2047
    }

    fn rank_value(&self) -> (r: i128)
        ensures
            r as int == self.rank(),
    {
        let m = self.magnitude_bits();
        if self.bits >= SIGN_UNIT {
            -(m as i128)
        } else {
            m as i128
        }
    }

    /// The comparison `self < other` of IEEE 754.
    pub fn lt(&self, other: &Double) -> (r: bool)
        ensures
            r == self.spec_lt(*other),
    {
        !self.is_nan() && !other.is_nan() && self.rank_value() < other.rank_value()
    }

    /// The comparison `self == other` of IEEE 754.
    pub fn same(&self, other: &Double) -> (r: bool)
        ensures
            r == self.spec_same(*other),
    {
        !self.is_nan() && !other.is_nan() && self.rank_value() == other.rank_value()
    }

    /// The comparison `self > other` of IEEE 754.
    pub fn gt(&self, other: &Double) -> (r: bool)
        ensures
            r == other.spec_lt(*self),
    {
        other.lt(self)
    }
}

} // verus!
