//! Real numbers as IEEE-754 single-precision bit patterns, with the order
//! that the hardware gives them.

use vstd::prelude::*;

verus! {

/// Bit pattern of the sign bit.
pub const SIGN_BIT: u32 = 0x8000_0000u32;

/// Bit pattern of positive infinity: the largest magnitude that is a number.
pub const INFINITY_BITS: u32 = 0x7f80_0000u32;

/// Bit pattern of the largest finite value.
pub const MAX_BITS: u32 = 0x7f7f_ffffu32;

/// Bit pattern of `1.0`.
pub const ONE_BITS: u32 = 0x3f80_0000u32;

/// A single-precision real number, held as its bit pattern.
///
/// Two scalars are equal when their patterns are: the two zeros differ, and
/// a pattern that is not a number equals itself. Numbers are compared with
/// [`Scalar::lt`], [`Scalar::le`] and [`Scalar::same`].
#[derive(Clone, Copy, Debug, PartialEq, Eq, Structural)]
pub struct Scalar {
    pub bits: u32,
}

impl Scalar {
    /// Whether the sign bit is set.
    pub open spec fn negative(self) -> bool {
        self.bits >= SIGN_BIT
    }

    /// The bit pattern without its sign bit.
    pub open spec fn magnitude(self) -> int {
        if self.bits >= SIGN_BIT {
            self.bits - SIGN_BIT
        } else {
            self.bits as int
        }
    }

    /// Whether the pattern is not a number.
    pub open spec fn is_nan(self) -> bool {
        self.magnitude() > INFINITY_BITS
    }

    /// Position of the value on the number line: `a < b` as numbers exactly
    /// when `a.rank() < b.rank()`, for patterns that are numbers. Both zeros
    /// have rank 0.
    pub open spec fn rank(self) -> int {
        if self.negative() {
            -self.magnitude()
        } else {
            self.magnitude()
        }
    }

    /// Position of the pattern in the total order that puts negative zero
    /// just below positive zero. No two patterns share a position.
    pub open spec fn position(self) -> int {
        if self.negative() {
            -self.magnitude() - 1
        } else {
            self.magnitude()
        }
    }

    /// `self < other` as numbers; false when either is not a number.
    pub open spec fn lt_spec(self, other: Scalar) -> bool {
        !self.is_nan() && !other.is_nan() && self.rank() < other.rank()
    }

    /// `self <= other` as numbers; false when either is not a number.
    pub open spec fn le_spec(self, other: Scalar) -> bool {
        !self.is_nan() && !other.is_nan() && self.rank() <= other.rank()
    }

    /// `self == other` as numbers: the two zeros are the same number, and
    /// what is not a number is the same as nothing.
    pub open spec fn same_spec(self, other: Scalar) -> bool {
        !self.is_nan() && !other.is_nan() && self.rank() == other.rank()
    }

    /// The pattern with its sign bit flipped.
    pub open spec fn neg_spec(self) -> Scalar {
        if self.bits >= SIGN_BIT {
            Scalar { bits: (self.bits - SIGN_BIT) as u32 }
        } else {
            Scalar { bits: (self.bits + SIGN_BIT) as u32 }
        }
    }

    /// The smaller of two values. A pattern that is not a number gives way to
    /// the other argument; of the two zeros the negative one is the smaller.
    pub open spec fn min_spec(self, other: Scalar) -> Scalar {
        if self.is_nan() {
            other
        } else if other.is_nan() {
            self
        } else if self.position() <= other.position() {
            self
        } else {
            other
        }
    }

    /// The larger of two values. A pattern that is not a number gives way to
    /// the other argument; of the two zeros the positive one is the larger.
    pub open spec fn max_spec(self, other: Scalar) -> Scalar {
        if self.is_nan() {
            other
        } else if other.is_nan() {
            self
        } else if self.position() >= other.position() {
            self
        } else {
            other
        }
    }

    pub fn from_bits(bits: u32) -> (r: Scalar)
        ensures
            r.bits == bits,
    {
        Scalar { bits }
    }

    pub fn to_bits(self) -> (r: u32)
        ensures
            r == self.bits,
    {
        self.bits
    }

    /// Positive zero.
    pub fn zero() -> (r: Scalar)
        ensures
            r.bits == 0,
    {
        Scalar { bits: 0 }
    }

    /// The value `1.0`.
    pub fn one() -> (r: Scalar)
        ensures
            r.bits == ONE_BITS,
    {
        Scalar { bits: ONE_BITS }
    }

    /// The largest finite value.
    pub fn max_value() -> (r: Scalar)
        ensures
            r.bits == MAX_BITS,
    {
        Scalar { bits: MAX_BITS }
    }

    pub fn check_nan(self) -> (r: bool)
        ensures
            r == self.is_nan(),
    {
        self.abs().bits > INFINITY_BITS
    }

    /// Executable form of [`Scalar::rank`].
    pub fn rank_value(self) -> (r: i64)
        ensures
            r == self.rank(),
    {
        if self.bits >= SIGN_BIT {
            -((self.bits - SIGN_BIT) as i64)
        } else {
            self.bits as i64
        }
    }

    /// Executable form of [`Scalar::position`].
    pub fn position_value(self) -> (r: i64)
        ensures
            r == self.position(),
    {
        if self.bits >= SIGN_BIT {
            -((self.bits - SIGN_BIT) as i64) - 1
        } else {
            self.bits as i64
        }
    }

    pub fn lt(self, other: Scalar) -> (r: bool)
        ensures
            r == self.lt_spec(other),
    {
        !self.check_nan() && !other.check_nan() && self.rank_value() < other.rank_value()
    }

    pub fn le(self, other: Scalar) -> (r: bool)
        ensures
            r == self.le_spec(other),
    {
        !self.check_nan() && !other.check_nan() && self.rank_value() <= other.rank_value()
    }

    pub fn same(self, other: Scalar) -> (r: bool)
        ensures
            r == self.same_spec(other),
            r == (self.le_spec(other) && other.le_spec(self)),
    {
        !self.check_nan() && !other.check_nan() && self.rank_value() == other.rank_value()
    }

    pub fn gt(self, other: Scalar) -> (r: bool)
        ensures
            r == other.lt_spec(self),
    {
        other.lt(self)
    }

    pub fn ge(self, other: Scalar) -> (r: bool)
        ensures
            r == other.le_spec(self),
    {
        other.le(self)
    }

    pub fn neg(self) -> (r: Scalar)
        ensures
            r == self.neg_spec(),
            r.magnitude() == self.magnitude(),
            r.negative() != self.negative(),
            r.rank() == -self.rank(),
    {
        if self.bits >= SIGN_BIT {
            Scalar { bits: self.bits - SIGN_BIT }
        } else {
            Scalar { bits: self.bits + SIGN_BIT }
        }
    }

    pub fn abs(self) -> (r: Scalar)
        ensures
            r.bits == self.magnitude(),
            !r.negative(),
    {
        if self.bits >= SIGN_BIT {
            Scalar { bits: self.bits - SIGN_BIT }
        } else {
            self
        }
    }

    pub fn min(self, other: Scalar) -> (r: Scalar)
        ensures
            r == self.min_spec(other),
    {
        if self.check_nan() {
            other
        } else if other.check_nan() {
            self
        } else if self.position_value() <= other.position_value() {
            self
        } else {
            other
        }
    }

    pub fn max(self, other: Scalar) -> (r: Scalar)
        ensures
            r == self.max_spec(other),
    {
        if self.check_nan() {
            other
        } else if other.check_nan() {
            self
        } else if self.position_value() >= other.position_value() {
            self
        } else {
            other
        }
    }
}

/// Two patterns at the same position are the same pattern.
pub proof fn lemma_position_injective(a: Scalar, b: Scalar)
    requires
        a.position() == b.position(),
    ensures
        a == b,
{
}

/// The position order refines the numeric order: a smaller number stands at
/// a smaller position, and a smaller position is never a larger number.
pub proof fn lemma_position_refines_rank(a: Scalar, b: Scalar)
    ensures
        a.rank() < b.rank() ==> a.position() < b.position(),
        a.position() <= b.position() ==> a.rank() <= b.rank(),
{
}

} // verus!
