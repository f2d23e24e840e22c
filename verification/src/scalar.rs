//! Single-precision numbers as bit patterns: what a pattern stands for, and
//! the order of the numbers.

use vstd::prelude::*;
use vstd::arithmetic::power2::lemma_pow2_adds;
use vstd::arithmetic::power2::lemma_pow2_pos;
use vstd::arithmetic::power2::lemma_pow2_strictly_increases;
use vstd::arithmetic::power2::lemma_pow2_unfold;
use vstd::arithmetic::power2::pow2;

verus! {

/// The sign bit of a bit pattern; the bits below it hold the magnitude.
pub const SIGN_BIT: u32 = 0x8000_0000;

/// The magnitude bits of an infinity; greater magnitude bits belong to a NaN.
pub const INFINITY_BITS: u32 = 0x7F80_0000;

/// Two to the power of the width of the fraction field.
pub const FRACTION_RANGE: u32 = 0x0080_0000;

/// Bit pattern of the NaN that arithmetic yields.
pub const NAN_BITS: u32 = 0x7FC0_0000;

/// Bit pattern of `0.0`.
pub const ZERO_BITS: u32 = 0x0000_0000;

/// Bit pattern of `1.0`.
pub const ONE_BITS: u32 = 0x3F80_0000;

/// Bit pattern of `-1.0`.
pub const MINUS_ONE_BITS: u32 = 0xBF80_0000;

/// Bit pattern of `2.0`.
pub const TWO_BITS: u32 = 0x4000_0000;

/// Bit pattern of `0.75`.
pub const THREE_QUARTERS_BITS: u32 = 0x3F40_0000;

/// Bit pattern of the single-precision number nearest to one tenth.
pub const ONE_TENTH_BITS: u32 = 0x3DCC_CCCD;

/// A single-precision number, held as its IEEE-754 bit pattern: the sign bit,
/// eight bits of biased exponent and twenty-three bits of fraction.
///
/// Two scalars are equal when their bit patterns are: `0.0` and `-0.0` differ,
/// and a NaN equals itself. Their order by value is [`Scalar::less_than`].
///
/// In contracts a number is its [`Scalar::value`], an integer of units of
/// 2^-149: every finite single-precision number is a whole number of them.
#[derive(Clone, Copy, Debug, PartialEq, Eq, Hash, Structural)]
pub struct Scalar {
    pub bits: u32,
}

impl Scalar {
    /// The scalar with the given bit pattern.
    pub fn from_bits(bits: u32) -> (s: Scalar)
        ensures
            s.bits == bits,
    {
        Scalar { bits }
    }

    /// The bit pattern of this scalar.
    pub fn to_bits(self) -> (bits: u32)
        ensures
            bits == self.bits,
    {
        self.bits
    }

    /// The bits below the sign bit: biased exponent and fraction.
    pub open spec fn magnitude_bits(self) -> u32 {
        (self.bits % SIGN_BIT) as u32
    }

    /// Whether the sign bit is set.
    pub open spec fn is_negative(self) -> bool {
        self.bits >= SIGN_BIT
    }

    /// Whether this is not a number.
    pub open spec fn is_nan(self) -> bool {
        self.magnitude_bits() > INFINITY_BITS
    }

    /// Whether this is a number other than an infinity.
    pub open spec fn is_finite(self) -> bool {
        self.magnitude_bits() < INFINITY_BITS
    }

    /// Whether this is one of the two zeros.
    pub open spec fn is_zero(self) -> bool {
        self.magnitude_bits() == 0
    }

    /// Whether this is one of the two infinities.
    pub open spec fn is_infinite(self) -> bool {
        self.magnitude_bits() == INFINITY_BITS
    }

    /// The significand of a finite number: its magnitude is the significand
    /// times two to the power of its exponent index, in units of 2^-149.
    pub open spec fn significand(self) -> nat {
        let b = self.magnitude_bits();
        if b < 2 * FRACTION_RANGE {
            b as nat
        } else {
            (FRACTION_RANGE + b % FRACTION_RANGE) as nat
        }
    }

    /// The exponent index of a finite number: zero below the second binade.
    pub open spec fn exponent(self) -> int {
        let b = self.magnitude_bits();
        if b < 2 * FRACTION_RANGE {
            0
        } else {
            b / FRACTION_RANGE - 1
        }
    }

    /// The absolute value of a number, in units of 2^-149, the smallest positive
    /// single-precision number. An infinity counts as 2^128, the power of two
    /// above every finite number. Meaningless for a NaN.
    pub open spec fn magnitude(self) -> nat {
        let exponent = self.magnitude_bits() / FRACTION_RANGE;
        let fraction = self.magnitude_bits() % FRACTION_RANGE;
        if exponent == 0 {
            fraction as nat
        } else {
            (FRACTION_RANGE + fraction) as nat * pow2((exponent - 1) as nat)
        }
    }

    /// The number that a bit pattern stands for, in units of 2^-149; both zeros
    /// are 0. Meaningless for a NaN.
    pub open spec fn value(self) -> int {
        if self.is_negative() {
            -(self.magnitude() as int)
        } else {
            self.magnitude() as int
        }
    }

    /// The smaller of two numbers. A NaN yields to the other operand; of two
    /// equal numbers, such as the two zeros, the first is taken.
    pub open spec fn min_of(self, other: Scalar) -> Scalar {
        if self.is_nan() {
            other
        } else if other.is_nan() {
            self
        } else if other.value() < self.value() {
            other
        } else {
            self
        }
    }

    /// Whether this is not a number.
    pub fn not_a_number(self) -> (nan: bool)
        ensures
            nan == self.is_nan(),
    {
        self.bits % SIGN_BIT > INFINITY_BITS
    }

    /// Whether this is one of the two zeros.
    pub fn vanishes(self) -> (zero: bool)
        ensures
            zero == self.is_zero(),
    {
        self.bits % SIGN_BIT == 0
    }

    /// Whether this is a number other than an infinity.
    pub fn finite(self) -> (finite: bool)
        ensures
            finite == self.is_finite(),
    {
        self.bits % SIGN_BIT < INFINITY_BITS
    }

    /// Whether this is less than `other`, as `<` of the single-precision type
    /// tells it: by value, so that the two zeros are equal, and never where
    /// either is a NaN.
    pub fn less_than(self, other: Scalar) -> (less: bool)
        ensures
            less == (!self.is_nan() && !other.is_nan() && self.value() < other.value()),
    {
        let mine: u32 = self.bits % SIGN_BIT;
        let theirs: u32 = other.bits % SIGN_BIT;
        if mine > INFINITY_BITS || theirs > INFINITY_BITS {
            return false;
        }
        proof {
            lemma_magnitude_order(self, other);
            lemma_magnitude_order(other, self);
        }
        if self.bits >= SIGN_BIT {
            if other.bits >= SIGN_BIT {
                theirs < mine
            } else {
                mine != 0 || theirs != 0
            }
        } else {
            if other.bits >= SIGN_BIT {
                false
            } else {
                mine < theirs
            }
        }
    }

    /// The smaller of two numbers, as `min` of the single-precision type gives
    /// it: a NaN yields to the other operand.
    pub fn min(self, other: Scalar) -> (least: Scalar)
        ensures
            least == self.min_of(other),
    {
        if self.not_a_number() {
            other
        } else if other.not_a_number() {
            self
        } else if other.less_than(self) {
            other
        } else {
            self
        }
    }

    /// Byte `k` of the little-endian encoding of a bit pattern.
    pub open spec fn le_byte_of(bits: u32, k: int) -> u8 {
        if k == 0 {
            (bits & 0xff) as u8
        } else if k == 1 {
            ((bits >> 8) & 0xff) as u8
        } else if k == 2 {
            ((bits >> 16) & 0xff) as u8
        } else {
            ((bits >> 24) & 0xff) as u8
        }
    }

    /// The four bytes of this scalar, least significant first.
    pub open spec fn le_bytes(self) -> Seq<u8> {
        seq![
            Self::le_byte_of(self.bits, 0),
            Self::le_byte_of(self.bits, 1),
            Self::le_byte_of(self.bits, 2),
            Self::le_byte_of(self.bits, 3),
        ]
    }

    /// Appends the little-endian encoding of this scalar to `out`.
    pub fn push_le_bytes(self, out: &mut Vec<u8>)
        ensures
            final(out)@ == old(out)@ + self.le_bytes(),
    {
        let bits: u32 = self.bits;
        let b0: u8 = (bits & 0xff) as u8;
        let b1: u8 = ((bits >> 8) & 0xff) as u8;
        let b2: u8 = ((bits >> 16) & 0xff) as u8;
        let b3: u8 = ((bits >> 24) & 0xff) as u8;
        out.push(b0);
        out.push(b1);
        out.push(b2);
        out.push(b3);
        assert(out@ =~= old(out)@ + self.le_bytes());
    }
}

/// Among numbers, the magnitude grows with the magnitude bits: the order of the
/// bit patterns below the sign bit is the order of the absolute values.
pub proof fn lemma_magnitude_order(a: Scalar, b: Scalar)
    requires
        !a.is_nan(),
        !b.is_nan(),
    ensures
        a.magnitude_bits() < b.magnitude_bits() <==> a.magnitude() < b.magnitude(),
        a.magnitude_bits() == b.magnitude_bits() <==> a.magnitude() == b.magnitude(),
        a.magnitude_bits() == 0 <==> a.magnitude() == 0,
{
    lemma_magnitude_increases(a, b);
    lemma_magnitude_increases(b, a);
    let zero = Scalar { bits: ZERO_BITS };
    assert(zero.magnitude() == 0);
    lemma_magnitude_increases(zero, a);
}

#[verifier::rlimit(50)]
proof fn lemma_magnitude_increases(a: Scalar, b: Scalar)
    requires
        !a.is_nan(),
        !b.is_nan(),
    ensures
        a.magnitude_bits() < b.magnitude_bits() ==> a.magnitude() < b.magnitude(),
{
    let ea = a.magnitude_bits() / FRACTION_RANGE;
    let fa = a.magnitude_bits() % FRACTION_RANGE;
    let eb = b.magnitude_bits() / FRACTION_RANGE;
    let fb = b.magnitude_bits() % FRACTION_RANGE;
    if a.magnitude_bits() < b.magnitude_bits() {
        assert(ea <= eb);
        assert(eb >= 1 || ea == eb);
        if ea == eb {
            assert(fa < fb);
            if ea != 0 {
                let p = pow2((ea - 1) as nat);
                lemma_pow2_pos((ea - 1) as nat);
                assert((FRACTION_RANGE + fa) * p < (FRACTION_RANGE + fb) * p) by (nonlinear_arith)
                    requires
                        fa < fb,
                        p > 0,
                ;
            }
        } else {
            let q = pow2((eb - 1) as nat);
            lemma_pow2_pos((eb - 1) as nat);
            assert(FRACTION_RANGE * q <= (FRACTION_RANGE + fb) * q) by (nonlinear_arith)
                requires
                    fb >= 0,
                    q > 0,
            ;
            if ea == 0 {
                assert(FRACTION_RANGE * 1 <= FRACTION_RANGE * q) by (nonlinear_arith)
                    requires
                        q >= 1,
                ;
            } else {
                let p = pow2((ea - 1) as nat);
                lemma_pow2_pos((ea - 1) as nat);
                lemma_pow2_unfold(ea as nat);
                if ea < eb - 1 {
                    lemma_pow2_strictly_increases(ea as nat, (eb - 1) as nat);
                }
                assert((FRACTION_RANGE + fa) * p < FRACTION_RANGE * q) by (nonlinear_arith)
                    requires
                        fa < FRACTION_RANGE,
                        FRACTION_RANGE == 0x0080_0000,
                        2 * p <= q,
                        p > 0,
                ;
            }
        }
    }
}

/// The magnitude of a number below the second binade is its magnitude bits.
pub proof fn lemma_small_magnitude(t: Scalar)
    requires
        t.magnitude_bits() < 2 * FRACTION_RANGE,
    ensures
        t.magnitude() == t.magnitude_bits(),
{
    let b = t.magnitude_bits();
    if b < FRACTION_RANGE {
        assert(b / FRACTION_RANGE == 0);
    } else {
        assert(b / FRACTION_RANGE == 1);
        assert(b % FRACTION_RANGE == b - FRACTION_RANGE);
        assert(pow2(0) == 1) by {
            vstd::arithmetic::power2::lemma2_to64();
        }
        assert(((b / FRACTION_RANGE) - 1) as nat == 0);
        assert(t.magnitude() == (FRACTION_RANGE + b % FRACTION_RANGE) as nat * pow2(0));
    }
}

/// The magnitude of a finite number from its exponent field and significand.
pub proof fn lemma_normal_magnitude(t: Scalar, exponent: nat, significand: nat)
    requires
        1 <= exponent < 255,
        FRACTION_RANGE <= significand < 2 * FRACTION_RANGE,
        t.magnitude_bits() == exponent * FRACTION_RANGE + significand - FRACTION_RANGE,
    ensures
        t.magnitude() == significand * pow2((exponent - 1) as nat),
{
    let b = t.magnitude_bits();
    let f = (significand - FRACTION_RANGE) as nat;
    assert(b == exponent * 0x0080_0000 + f);
    assert(b / 0x0080_0000 == exponent && b % 0x0080_0000 == f) by {
        vstd::arithmetic::div_mod::lemma_fundamental_div_mod_converse(
            b as int,
            0x0080_0000,
            exponent as int,
            f as int,
        );
    }
}

/// A number whose exponent field is at least `floor` has a magnitude that is a
/// multiple of the spacing of the numbers at that exponent.
pub proof fn lemma_magnitude_on_grid(t: Scalar, floor: nat) -> (k: nat)
    requires
        t.is_finite(),
        1 <= floor,
        t.magnitude_bits() >= floor * FRACTION_RANGE,
    ensures
        t.magnitude() == k * pow2((floor - 1) as nat),
{
    let e = (t.magnitude_bits() / FRACTION_RANGE) as nat;
    let sig = (FRACTION_RANGE + t.magnitude_bits() % FRACTION_RANGE) as nat;
    assert(e >= floor);
    lemma_pow2_adds((e - floor) as nat, (floor - 1) as nat);
    let up = pow2((e - floor) as nat);
    let g = pow2((floor - 1) as nat);
    assert(pow2((e - 1) as nat) == up * g);
    assert(sig * (up * g) == (sig * up) * g) by (nonlinear_arith);
    sig * up
}

/// The magnitude of a finite number is its significand times two to the power
/// of its exponent index.
pub proof fn lemma_parts(a: Scalar)
    requires
        a.is_finite(),
    ensures
        a.magnitude() == a.significand() * pow2(a.exponent() as nat),
        a.significand() < 2 * FRACTION_RANGE,
        0 <= a.exponent() <= 253,
        a.significand() == 0 <==> a.is_zero(),
{
    let b = a.magnitude_bits();
    if b < 2 * FRACTION_RANGE {
        lemma_small_magnitude(a);
        assert(pow2(0) == 1) by {
            vstd::arithmetic::power2::lemma2_to64();
        }
        assert(a.significand() * pow2(0) == a.significand()) by (nonlinear_arith)
            requires
                pow2(0) == 1,
        ;
    } else {
        let field = (b / FRACTION_RANGE) as nat;
        assert(b == field * FRACTION_RANGE + b % FRACTION_RANGE);
        lemma_normal_magnitude(a, field, a.significand());
        assert(a.exponent() == field - 1);
    }
}

/// The smaller of two numbers is one of them and exceeds neither; it does not
/// depend on the order of the operands, but for which of two equal numbers is
/// taken.
pub proof fn lemma_min_is_least(a: Scalar, b: Scalar)
    requires
        !a.is_nan(),
        !b.is_nan(),
    ensures
        a.min_of(b) == a || a.min_of(b) == b,
        a.min_of(b).value() <= a.value(),
        a.min_of(b).value() <= b.value(),
        a.min_of(b).value() == b.min_of(a).value(),
{
}

/// The bit pattern is recovered from the four bytes of its encoding.
pub proof fn lemma_le_bytes_determine_bits(a: Scalar, b: Scalar)
    requires
        a.le_bytes() == b.le_bytes(),
    ensures
        a == b,
{
    let x = a.bits;
    let y = b.bits;
    assert(a.le_bytes()[0] == b.le_bytes()[0]);
    assert(a.le_bytes()[1] == b.le_bytes()[1]);
    assert(a.le_bytes()[2] == b.le_bytes()[2]);
    assert(a.le_bytes()[3] == b.le_bytes()[3]);
    assert(x == y) by (bit_vector)
        requires
            (x & 0xff) as u8 == (y & 0xff) as u8,
            ((x >> 8) & 0xff) as u8 == ((y >> 8) & 0xff) as u8,
            ((x >> 16) & 0xff) as u8 == ((y >> 16) & 0xff) as u8,
            ((x >> 24) & 0xff) as u8 == ((y >> 24) & 0xff) as u8,
    ;
}

} // verus!
