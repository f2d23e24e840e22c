//! Sums, differences, products and quotients of single-precision numbers, and
//! the conversion of counts, done on bit patterns.
//!
//! Each result is the exact one rounded to the nearest number, a tie to the
//! even bit pattern, with the zeros, infinities and NaNs of IEEE 754: bit for
//! bit what the operators of the single-precision type give, but for a result
//! that is no number, of which the machine leaves open which NaN it is and
//! which is here always the same one.

use vstd::prelude::*;
use vstd::arithmetic::power2::lemma_pow2_strictly_increases;
use vstd::arithmetic::power2::pow2;
use crate::rounding::infinity;
use crate::rounding::lemma_pow2_adds_to;
use crate::rounding::power_of_two;
use crate::rounding::round_ratio;
use crate::rounding::rounded;
use crate::scalar::Scalar;
use crate::scalar::FRACTION_RANGE;
use crate::scalar::INFINITY_BITS;
use crate::scalar::NAN_BITS;
use crate::scalar::SIGN_BIT;
use crate::scalar::ZERO_BITS;

verus! {

/// The exponent index of the smallest positive number's unit: a number of
/// significand `s` and exponent index `e` is `s * 2^(e - 149)`.
pub const UNIT_EXPONENT: i32 = 149;

/// The gap between exponent indices from which the smaller operand of a sum
/// is too small to move it: the sum is the larger operand.
pub const FAR_GAP: i32 = 40;

/// The NaN that arithmetic yields.
pub open spec fn nan() -> Scalar {
    Scalar { bits: NAN_BITS }
}

/// The zero of the given sign.
pub open spec fn zero(negative: bool) -> Scalar {
    Scalar { bits: if negative { SIGN_BIT } else { ZERO_BITS } }
}

fn make_nan() -> (made: Scalar)
    ensures
        made == nan(),
{
    Scalar { bits: NAN_BITS }
}

fn make_zero(negative: bool) -> (made: Scalar)
    ensures
        made == zero(negative),
{
    if negative {
        Scalar { bits: SIGN_BIT }
    } else {
        Scalar { bits: ZERO_BITS }
    }
}

fn make_infinity(negative: bool) -> (made: Scalar)
    ensures
        made == infinity(negative),
{
    if negative {
        Scalar { bits: SIGN_BIT + INFINITY_BITS }
    } else {
        Scalar { bits: INFINITY_BITS }
    }
}

impl Scalar {
    /// The number of the opposite sign.
    pub open spec fn negated(self) -> Scalar {
        Scalar {
            bits: if self.bits >= SIGN_BIT {
                (self.bits - SIGN_BIT) as u32
            } else {
                (self.bits + SIGN_BIT) as u32
            },
        }
    }

    /// The single-precision number nearest to a count.
    pub open spec fn of_count(count: nat) -> Scalar {
        if count == 0 {
            zero(false)
        } else {
            rounded(false, count, 1, UNIT_EXPONENT as int)
        }
    }

    /// The product of two numbers, rounded to the nearest. A NaN operand and
    /// the product of a zero and an infinity give the NaN.
    pub open spec fn mul_of(self, other: Scalar) -> Scalar {
        let negative = self.is_negative() != other.is_negative();
        if self.is_nan() || other.is_nan() {
            nan()
        } else if self.is_infinite() || other.is_infinite() {
            if self.is_zero() || other.is_zero() {
                nan()
            } else {
                infinity(negative)
            }
        } else if self.is_zero() || other.is_zero() {
            zero(negative)
        } else {
            rounded(
                negative,
                self.significand() * other.significand(),
                1,
                self.exponent() + other.exponent() - UNIT_EXPONENT,
            )
        }
    }

    /// The quotient of two numbers, rounded to the nearest. A NaN operand, a
    /// zero by a zero and an infinity by an infinity give the NaN; any other
    /// number by a zero gives an infinity.
    pub open spec fn div_of(self, other: Scalar) -> Scalar {
        let negative = self.is_negative() != other.is_negative();
        if self.is_nan() || other.is_nan() {
            nan()
        } else if self.is_infinite() {
            if other.is_infinite() {
                nan()
            } else {
                infinity(negative)
            }
        } else if other.is_infinite() {
            zero(negative)
        } else if other.is_zero() {
            if self.is_zero() {
                nan()
            } else {
                infinity(negative)
            }
        } else if self.is_zero() {
            zero(negative)
        } else {
            rounded(
                negative,
                self.significand(),
                other.significand(),
                self.exponent() - other.exponent() + UNIT_EXPONENT,
            )
        }
    }

    /// The sum of two finite numbers other than zero, rounded to the nearest:
    /// `self` is the one of the greater magnitude bits. A sum of exactly zero
    /// is the positive zero.
    pub open spec fn aligned_sum_of(self, small: Scalar) -> Scalar {
        let gap = self.exponent() - small.exponent();
        if gap >= FAR_GAP {
            self
        } else if self.is_negative() == small.is_negative() {
            rounded(
                self.is_negative(),
                self.significand() * pow2(gap as nat) + small.significand(),
                1,
                small.exponent(),
            )
        } else if self.significand() * pow2(gap as nat) == small.significand() {
            zero(false)
        } else {
            rounded(
                self.is_negative(),
                (self.significand() * pow2(gap as nat) - small.significand()) as nat,
                1,
                small.exponent(),
            )
        }
    }

    /// The sum of two numbers, rounded to the nearest. A NaN operand and the sum
    /// of the two infinities give the NaN; the sum of two zeros is negative only
    /// where both are.
    pub open spec fn add_of(self, other: Scalar) -> Scalar {
        if self.is_nan() || other.is_nan() {
            nan()
        } else if self.is_infinite() {
            if other.is_infinite() && self.is_negative() != other.is_negative() {
                nan()
            } else {
                self
            }
        } else if other.is_infinite() {
            other
        } else if self.is_zero() {
            if other.is_zero() {
                zero(self.is_negative() && other.is_negative())
            } else {
                other
            }
        } else if other.is_zero() {
            self
        } else if self.magnitude_bits() >= other.magnitude_bits() {
            self.aligned_sum_of(other)
        } else {
            other.aligned_sum_of(self)
        }
    }

    /// The difference of two numbers, rounded to the nearest: the sum of the
    /// first and the second negated.
    pub open spec fn sub_of(self, other: Scalar) -> Scalar {
        self.add_of(other.negated())
    }

    /// The significand and the exponent index of a finite number.
    fn parts(self) -> (parts: (u64, i32))
        requires
            self.magnitude_bits() < INFINITY_BITS,
        ensures
            parts.0 == self.significand(),
            parts.1 == self.exponent(),
            parts.0 < 2 * FRACTION_RANGE,
            0 <= parts.1 <= 253,
            parts.1 > 0 ==> parts.0 >= FRACTION_RANGE,
            parts.0 == 0 <==> self.is_zero(),
    {
        let b: u32 = self.bits % SIGN_BIT;
        if b < 2 * FRACTION_RANGE {
            (b as u64, 0)
        } else {
            ((FRACTION_RANGE + b % FRACTION_RANGE) as u64, (b / FRACTION_RANGE) as i32 - 1)
        }
    }

    /// The number of the opposite sign.
    pub fn negate(self) -> (opposite: Scalar)
        ensures
            opposite == self.negated(),
    {
        if self.bits >= SIGN_BIT {
            Scalar { bits: self.bits - SIGN_BIT }
        } else {
            Scalar { bits: self.bits + SIGN_BIT }
        }
    }

    /// The single-precision number nearest to a count, as the conversion of an
    /// unsigned integer gives it.
    pub fn from_count(count: usize) -> (nearest: Scalar)
        ensures
            nearest == Scalar::of_count(count as nat),
    {
        if count == 0 {
            make_zero(false)
        } else {
            round_ratio(false, count as u64, 1, UNIT_EXPONENT)
        }
    }

    /// The product of two numbers, as `*` of the single-precision type gives it.
    #[verifier::rlimit(50)]
    pub fn mul(self, other: Scalar) -> (product: Scalar)
        ensures
            product == self.mul_of(other),
    {
        let negative = (self.bits >= SIGN_BIT) != (other.bits >= SIGN_BIT);
        let mine: u32 = self.bits % SIGN_BIT;
        let theirs: u32 = other.bits % SIGN_BIT;
        if mine > INFINITY_BITS || theirs > INFINITY_BITS {
            make_nan()
        } else if mine == INFINITY_BITS || theirs == INFINITY_BITS {
            if mine == 0 || theirs == 0 {
                make_nan()
            } else {
                make_infinity(negative)
            }
        } else if mine == 0 || theirs == 0 {
            make_zero(negative)
        } else {
            let (s1, e1) = self.parts();
            let (s2, e2) = other.parts();
            assert(0 < s1 * s2 < 0x1_0000_0000_0000) by (nonlinear_arith)
                requires
                    0 < s1 < 0x0100_0000,
                    0 < s2 < 0x0100_0000,
            ;
            round_ratio(negative, s1 * s2, 1, e1 + e2 - UNIT_EXPONENT)
        }
    }

    /// The quotient of two numbers, as `/` of the single-precision type gives it.
    #[verifier::rlimit(50)]
    pub fn div(self, other: Scalar) -> (quotient: Scalar)
        ensures
            quotient == self.div_of(other),
    {
        let negative = (self.bits >= SIGN_BIT) != (other.bits >= SIGN_BIT);
        let mine: u32 = self.bits % SIGN_BIT;
        let theirs: u32 = other.bits % SIGN_BIT;
        if mine > INFINITY_BITS || theirs > INFINITY_BITS {
            make_nan()
        } else if mine == INFINITY_BITS {
            if theirs == INFINITY_BITS {
                make_nan()
            } else {
                make_infinity(negative)
            }
        } else if theirs == INFINITY_BITS {
            make_zero(negative)
        } else if theirs == 0 {
            if mine == 0 {
                make_nan()
            } else {
                make_infinity(negative)
            }
        } else if mine == 0 {
            make_zero(negative)
        } else {
            let (s1, e1) = self.parts();
            let (s2, e2) = other.parts();
            round_ratio(negative, s1, s2, e1 - e2 + UNIT_EXPONENT)
        }
    }

    /// The sum of two finite numbers other than zero, of which `self` has the
    /// greater magnitude bits.
    #[verifier::rlimit(50)]
    fn aligned_sum(self, small: Scalar) -> (sum: Scalar)
        requires
            0 < small.magnitude_bits() <= self.magnitude_bits() < INFINITY_BITS,
        ensures
            sum == self.aligned_sum_of(small),
    {
        let (s1, e1) = self.parts();
        let (s2, e2) = small.parts();
        let negative = self.bits >= SIGN_BIT;
        let gap: i32 = e1 - e2;
        if gap >= FAR_GAP {
            return self;
        }
        let factor: u128 = power_of_two(gap as u32);
        proof {
            if gap < 39 {
                lemma_pow2_strictly_increases(gap as nat, 39);
            }
            lemma_pow2_adds_to(39, 32, 7);
            vstd::arithmetic::power2::lemma2_to64();
            if gap > 0 {
                lemma_pow2_strictly_increases(0, gap as nat);
            }
        }
        assert(s1 * factor < 0x0100_0000 * 0x80_0000_0000) by (nonlinear_arith)
            requires
                s1 < 0x0100_0000,
                factor <= 0x80_0000_0000,
        ;
        assert(s1 * factor >= s2) by (nonlinear_arith)
            requires
                (gap == 0 && factor == 1 && s1 >= s2) || (factor >= 2 && s1 >= 0x0080_0000 && s2
                    < 0x0100_0000),
        ;
        let raised: u64 = (s1 as u128 * factor) as u64;
        if negative == (small.bits >= SIGN_BIT) {
            round_ratio(negative, raised + s2, 1, e2)
        } else if raised == s2 {
            make_zero(false)
        } else {
            round_ratio(negative, raised - s2, 1, e2)
        }
    }

    /// The sum of two numbers, as `+` of the single-precision type gives it.
    #[verifier::rlimit(50)]
    pub fn add(self, other: Scalar) -> (sum: Scalar)
        ensures
            sum == self.add_of(other),
    {
        let mine: u32 = self.bits % SIGN_BIT;
        let theirs: u32 = other.bits % SIGN_BIT;
        if mine > INFINITY_BITS || theirs > INFINITY_BITS {
            make_nan()
        } else if mine == INFINITY_BITS {
            if theirs == INFINITY_BITS && (self.bits >= SIGN_BIT) != (other.bits >= SIGN_BIT) {
                make_nan()
            } else {
                self
            }
        } else if theirs == INFINITY_BITS {
            other
        } else if mine == 0 {
            if theirs == 0 {
                make_zero(self.bits >= SIGN_BIT && other.bits >= SIGN_BIT)
            } else {
                other
            }
        } else if theirs == 0 {
            self
        } else if mine >= theirs {
            self.aligned_sum(other)
        } else {
            other.aligned_sum(self)
        }
    }

    /// The difference of two numbers, as `-` of the single-precision type gives
    /// it.
    pub fn sub(self, other: Scalar) -> (difference: Scalar)
        ensures
            difference == self.sub_of(other),
    {
        self.add(other.negate())
    }
}

} // verus!
