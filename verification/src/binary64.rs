//! Binary64 values held by their bit patterns.
//!
//! The controller orders, stores and hands on latencies without computing with
//! them. A pattern is enough for that: two patterns that are not NaN compare as
//! sign and magnitude.
use vstd::prelude::*;

verus! {

/// The sign bit of a binary64 pattern.
pub const SIGN_BIT: u64 = 0x8000_0000_0000_0000;

/// The pattern of positive infinity. Larger magnitudes are NaN.
pub const INFINITE_BITS: u64 = 0x7ff0_0000_0000_0000;

/// The pattern of one.
pub const ONE_BITS: u64 = 0x3ff0_0000_0000_0000;

/// An IEEE 754 binary64 value, held as its 64-bit pattern.
///
/// Equality is equality of patterns.
#[derive(Debug, Clone, Copy, PartialEq, Eq, Structural)]
pub struct Binary64 {
    pub bits: u64,
}

impl Binary64 {
    /// The pattern without its sign.
    pub open spec fn magnitude(self) -> int {
        if self.bits >= SIGN_BIT {
            self.bits - SIGN_BIT
        } else {
            self.bits as int
        }
    }

    /// Whether the pattern stands for no number.
    pub open spec fn is_nan(self) -> bool {
        self.magnitude() > INFINITE_BITS
    }

    /// Where a value stands in the numeric order. Both zeros have rank zero.
    pub open spec fn rank(self) -> int {
        if self.bits >= SIGN_BIT {
            -self.magnitude()
        } else {
            self.magnitude()
        }
    }

    /// The numeric `<`, false where either side is NaN.
    pub open spec fn less(self, other: Self) -> bool {
        &&& !self.is_nan()
        &&& !other.is_nan()
        &&& self.rank() < other.rank()
    }

    /// The numeric `>=`, false where either side is NaN.
    pub open spec fn at_least(self, other: Self) -> bool {
        &&& !self.is_nan()
        &&& !other.is_nan()
        &&& self.rank() >= other.rank()
    }

    /// Whether the value is a number greater than zero.
    pub open spec fn positive(self) -> bool {
        Self::zero_value().less(self)
    }

    /// Whether the value is neither NaN nor an infinity.
    pub open spec fn finite(self) -> bool {
        self.magnitude() < INFINITE_BITS
    }

    /// Positive zero.
    pub open spec fn zero_value() -> Self {
        Binary64 { bits: 0 }
    }

    /// One.
    pub open spec fn one_value() -> Self {
        Binary64 { bits: ONE_BITS }
    }

    /// The value with the given pattern.
    pub fn from_bits(bits: u64) -> (r: Self)
        ensures
            r.bits == bits,
    {
        Binary64 { bits }
    }

    /// Positive zero.
    pub fn zero() -> (r: Self)
        ensures
            r == Self::zero_value(),
    {
        Binary64 { bits: 0 }
    }

    /// One.
    pub fn one() -> (r: Self)
        ensures
            r == Self::one_value(),
    {
        Binary64 { bits: ONE_BITS }
    }

    /// The pattern without its sign.
    fn unsigned(self) -> (r: u64)
        ensures
            r == self.magnitude(),
    {
        if self.bits >= SIGN_BIT {
            self.bits - SIGN_BIT
        } else {
            self.bits
        }
    }

    /// Whether `self` is numerically below `other`. NaN is below nothing.
    pub fn is_less(self, other: Self) -> (r: bool)
        ensures
            r == self.less(other),
    {
        let a: u64 = self.unsigned();
        let b: u64 = other.unsigned();
        if a > INFINITE_BITS || b > INFINITE_BITS {
            return false;
        }
        if self.bits >= SIGN_BIT {
            if other.bits >= SIGN_BIT {
                b < a
            } else {
                a > 0 || b > 0
            }
        } else {
            other.bits < SIGN_BIT && a < b
        }
    }

    /// Whether `self` is numerically at or above `other`. NaN never is.
    pub fn is_at_least(self, other: Self) -> (r: bool)
        ensures
            r == self.at_least(other),
    {
        let a: u64 = self.unsigned();
        let b: u64 = other.unsigned();
        a <= INFINITE_BITS && b <= INFINITE_BITS && !self.is_less(other)
    }

    /// Whether the value is a number greater than zero.
    pub fn is_positive(self) -> (r: bool)
        ensures
            r == self.positive(),
    {
        Self::zero().is_less(self)
    }

    /// Whether the value is neither NaN nor an infinity.
    pub fn is_finite(self) -> (r: bool)
        ensures
            r == self.finite(),
    {
        self.unsigned() < INFINITE_BITS
    }
}

/// Numeric `<` is a strict order, and `>=` is its negation on numbers.
pub proof fn law_less_is_a_strict_order(a: Binary64, b: Binary64, c: Binary64)
    ensures
        !a.less(a),
        a.less(b) ==> !b.less(a),
        a.less(b) && b.less(c) ==> a.less(c),
        !a.is_nan() && !b.is_nan() ==> (a.at_least(b) <==> !a.less(b)),
        a.is_nan() || b.is_nan() ==> !a.less(b) && !a.at_least(b),
{
}

/// Values greater than zero are ordered by their patterns.
pub proof fn law_positive_values_order_as_patterns(a: Binary64, b: Binary64)
    requires
        a.positive(),
        b.positive(),
    ensures
        a.less(b) <==> a.bits < b.bits,
        a.rank() == a.bits,
{
}

/// The order in terms of bit patterns. Patterns below the sign bit ascend, those
/// from it on descend, and the first kind stands above the second but for the two
/// zeros. A pattern beyond infinity, of either sign, is ordered with nothing.
pub proof fn law_order_of_patterns(a: Binary64, b: Binary64)
    ensures
        a.bits < 0x8000_0000_0000_0000 && b.bits < 0x8000_0000_0000_0000 ==> (a.less(b) <==> a.bits
            < b.bits <= 0x7ff0_0000_0000_0000),
        a.bits >= 0x8000_0000_0000_0000 && b.bits >= 0x8000_0000_0000_0000 ==> (a.less(b) <==> b.bits
            < a.bits <= 0xfff0_0000_0000_0000),
        a.bits >= 0x8000_0000_0000_0000 && b.bits < 0x8000_0000_0000_0000 ==> (a.less(b) <==> {
            &&& a.bits <= 0xfff0_0000_0000_0000
            &&& b.bits <= 0x7ff0_0000_0000_0000
            &&& !(a.bits == 0x8000_0000_0000_0000 && b.bits == 0)
        }),
        a.bits < 0x8000_0000_0000_0000 && b.bits >= 0x8000_0000_0000_0000 ==> !a.less(b),
        a.at_least(b) <==> {
            &&& a.bits % 0x8000_0000_0000_0000 <= 0x7ff0_0000_0000_0000
            &&& b.bits % 0x8000_0000_0000_0000 <= 0x7ff0_0000_0000_0000
            &&& !a.less(b)
        },
        a.positive() <==> 0 < a.bits <= 0x7ff0_0000_0000_0000,
        a.finite() <==> a.bits % 0x8000_0000_0000_0000 < 0x7ff0_0000_0000_0000,
        a.is_nan() <==> a.bits % 0x8000_0000_0000_0000 > 0x7ff0_0000_0000_0000,
        Binary64::zero_value().bits == 0,
        Binary64::one_value().bits == 0x3ff0_0000_0000_0000,
{
}

} // verus!
