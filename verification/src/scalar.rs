//! Binary64 numbers as bit patterns, with the IEEE-754 ordering on them.

use vstd::arithmetic::power2::{lemma2_to64_rest, pow2};
use vstd::bits::lemma_u64_shr_is_div;
use vstd::prelude::*;

verus! {

/// The bit that holds the sign of a binary64 number.
pub const SIGN_BIT: u64 = 0x8000_0000_0000_0000;

/// The magnitude bits of an infinity; every larger magnitude is a NaN.
pub const INFINITY_BITS: u64 = 0x7ff0_0000_0000_0000;

/// The lowest bit of the exponent field, and the bit that a normal number's
/// significand has above its fraction.
pub const HIDDEN_BIT: u64 = 0x0010_0000_0000_0000;

/// The pattern of positive zero.
pub const ZERO_BITS: u64 = 0;

/// The pattern of one.
pub const ONE_BITS: u64 = 0x3ff0_0000_0000_0000;

/// An IEEE-754 binary64 number, held as its bit pattern.
///
/// `==` on this type compares patterns: it tells the two zeros apart and finds
/// a NaN equal to itself. The numeric comparisons are `lt`, `gt` and `ge`.
#[derive(Clone, Copy, Debug, PartialEq, Eq, Structural)]
pub struct Scalar {
    pub bits: u64,
}

/// Three numbers: a point, a direction or a colour.
#[derive(Clone, Copy, Debug, PartialEq, Eq, Structural)]
pub struct Vec3 {
    pub x: Scalar,
    pub y: Scalar,
    pub z: Scalar,
}

impl Vec3 {
    /// Whether each of the three is a number.
    pub open spec fn all_numbers(self) -> bool {
        !self.x.is_nan() && !self.y.is_nan() && !self.z.is_nan()
    }
}

impl Scalar {
    /// The pattern without its sign bit.
    pub open spec fn magnitude(self) -> u64 {
        if self.bits >= SIGN_BIT {
            (self.bits - SIGN_BIT) as u64
        } else {
            self.bits
        }
    }

    /// Whether the sign bit is set.
    pub open spec fn sign_negative(self) -> bool {
        self.bits >= SIGN_BIT
    }

    /// Whether the pattern encodes no number.
    pub open spec fn is_nan_spec(self) -> bool {
        self.magnitude() > INFINITY_BITS
    }

    /// The place of a number on the extended real line: an integer that grows
    /// with the number, and is 0 for both zeros.
    pub open spec fn rank(self) -> int {
        if self.sign_negative() {
            -(self.magnitude() as int)
        } else {
            self.magnitude() as int
        }
    }

    /// `self < other` as IEEE-754 has it: false when either side is a NaN.
    pub open spec fn lt_spec(self, other: Scalar) -> bool {
        !self.is_nan_spec() && !other.is_nan_spec() && self.rank() < other.rank()
    }

    /// `self > other` as IEEE-754 has it: false when either side is a NaN.
    pub open spec fn gt_spec(self, other: Scalar) -> bool {
        other.lt_spec(self)
    }

    /// `self >= other` as IEEE-754 has it: false when either side is a NaN.
    pub open spec fn ge_spec(self, other: Scalar) -> bool {
        !self.is_nan_spec() && !other.is_nan_spec() && self.rank() >= other.rank()
    }

    /// The power of two that a normal number's significand is scaled by,
    /// counted from the significand's highest bit.
    pub open spec fn exponent(self) -> int {
        self.magnitude() / HIDDEN_BIT - 1023
    }

    /// The significand of a normal number: its fraction under the hidden bit.
    pub open spec fn significand(self) -> int {
        self.magnitude() % HIDDEN_BIT + HIDDEN_BIT
    }

    /// The number as a byte, as a cast has it: its whole part, 0 for a NaN and
    /// for what lies below 0, 255 for what lies above.
    pub open spec fn to_byte_spec(self) -> u8 {
        if self.is_nan_spec() || self.sign_negative() || self.exponent() < 0 {
            0
        } else if self.exponent() >= 8 {
            255
        } else {
            (self.significand() / pow2((52 - self.exponent()) as nat) as int) as u8
        }
    }

    /// The number with the given pattern.
    pub open spec fn of(bits: u64) -> Scalar {
        Scalar { bits }
    }

    /// The number with the given pattern.
    #[verifier::when_used_as_spec(of)]
    pub fn from_bits(bits: u64) -> (s: Scalar)
        ensures
            s == Scalar::of(bits),
    {
        Scalar { bits }
    }

    /// The pattern of the number.
    pub fn to_bits(self) -> (bits: u64)
        ensures
            bits == self.bits,
    {
        self.bits
    }

    fn magnitude_bits(self) -> (m: u64)
        ensures
            m == self.magnitude(),
    {
        if self.bits >= SIGN_BIT {
            self.bits - SIGN_BIT
        } else {
            self.bits
        }
    }

    /// Whether the pattern encodes no number.
    #[verifier::when_used_as_spec(is_nan_spec)]
    pub fn is_nan(self) -> (b: bool)
        ensures
            b == self.is_nan_spec(),
    {
        self.magnitude_bits() > INFINITY_BITS
    }

    /// `self < other` as IEEE-754 has it.
    #[verifier::when_used_as_spec(lt_spec)]
    pub fn lt(self, other: Scalar) -> (b: bool)
        ensures
            b == self.lt_spec(other),
    {
        if self.is_nan() || other.is_nan() {
            return false;
        }
        let a: u64 = self.magnitude_bits();
        let c: u64 = other.magnitude_bits();
        if self.bits >= SIGN_BIT {
            if other.bits >= SIGN_BIT {
                a > c
            } else {
                a != 0 || c != 0
            }
        } else {
            if other.bits >= SIGN_BIT {
                false
            } else {
                a < c
            }
        }
    }

    /// `self > other` as IEEE-754 has it.
    #[verifier::when_used_as_spec(gt_spec)]
    pub fn gt(self, other: Scalar) -> (b: bool)
        ensures
            b == self.gt_spec(other),
    {
        other.lt(self)
    }

    /// The number as a byte, as a cast has it.
    #[verifier::when_used_as_spec(to_byte_spec)]
    pub fn to_byte(self) -> (b: u8)
        ensures
            b == self.to_byte_spec(),
    {
        if self.is_nan() || self.bits >= SIGN_BIT {
            return 0;
        }
        let field: u64 = self.bits / HIDDEN_BIT;
        if field < 1023 {
            return 0;
        }
        if field >= 1031 {
            return 255;
        }
        let significand: u64 = self.bits % HIDDEN_BIT + HIDDEN_BIT;
        let shift: u64 = 1075 - field;
        proof {
            lemma_u64_shr_is_div(significand, shift);
            lemma_whole_part_is_byte(significand, shift);
        }
        (significand >> shift) as u8
    }

    /// `self >= other` as IEEE-754 has it.
    #[verifier::when_used_as_spec(ge_spec)]
    pub fn ge(self, other: Scalar) -> (b: bool)
        ensures
            b == self.ge_spec(other),
    {
        if self.is_nan() || other.is_nan() {
            return false;
        }
        !self.lt(other)
    }
}

/// A significand of 53 bits, scaled down by 45 bits or more, fits a byte.
proof fn lemma_whole_part_is_byte(significand: u64, shift: u64)
    requires
        significand < 2 * HIDDEN_BIT,
        45 <= shift <= 52,
    ensures
        (significand as int) / (pow2(shift as nat) as int) < 256,
{
    lemma2_to64_rest();
    if shift == 45 {
        assert(pow2(shift as nat) == 0x2000_0000_0000);
        assert((significand as int) / 0x2000_0000_0000 < 256);
    } else if shift == 46 {
        assert(pow2(shift as nat) == 0x4000_0000_0000);
        assert((significand as int) / 0x4000_0000_0000 < 256);
    } else if shift == 47 {
        assert(pow2(shift as nat) == 0x8000_0000_0000);
        assert((significand as int) / 0x8000_0000_0000 < 256);
    } else if shift == 48 {
        assert(pow2(shift as nat) == 0x1_0000_0000_0000);
        assert((significand as int) / 0x1_0000_0000_0000 < 256);
    } else if shift == 49 {
        assert(pow2(shift as nat) == 0x2_0000_0000_0000);
        assert((significand as int) / 0x2_0000_0000_0000 < 256);
    } else if shift == 50 {
        assert(pow2(shift as nat) == 0x4_0000_0000_0000);
        assert((significand as int) / 0x4_0000_0000_0000 < 256);
    } else if shift == 51 {
        assert(pow2(shift as nat) == 0x8_0000_0000_0000);
        assert((significand as int) / 0x8_0000_0000_0000 < 256);
    } else {
        assert(pow2(shift as nat) == 0x10_0000_0000_0000);
        assert((significand as int) / 0x10_0000_0000_0000 < 256);
    }
}

/// `<` on numbers is a strict order that the two zeros share a place in.
pub proof fn lemma_lt_strict(a: Scalar, b: Scalar, c: Scalar)
    ensures
        !a.lt(a),
        a.lt(b) ==> !b.lt(a),
        a.lt(b) && b.lt(c) ==> a.lt(c),
        a.magnitude() == 0 && b.magnitude() == 0 ==> !a.lt(b) && !b.lt(a),
{
}

} // verus!
