//! What the arithmetic means: each finite result is the number nearest to the
//! exact one, and where two are equally near, the one with the even bit
//! pattern.
//!
//! Values are integers of units of 2^-149. Where an exact result is no whole
//! number of units, both sides of a comparison are multiplied by a common
//! factor, which each law names.

use vstd::prelude::*;
use vstd::arithmetic::power2::lemma_pow2_pos;
use vstd::arithmetic::power2::pow2;
use vstd::arithmetic::power2::lemma_pow2_strictly_increases;
use vstd::arithmetic::power2::lemma_pow2_unfold;
use crate::arithmetic::zero;
use crate::arithmetic::FAR_GAP;
use crate::arithmetic::UNIT_EXPONENT;
use crate::scalar::lemma_magnitude_on_grid;
use crate::scalar::lemma_magnitude_order;
use crate::rounding::lemma_pow2_adds_to;
use crate::rounding::lemma_rounded_sign;
use crate::rounding::rounded;
use crate::rounding::rounded_bits;
use crate::nearest::exact_denominator;
use crate::nearest::exact_numerator;
use crate::nearest::lemma_rounded_is_nearest;
use crate::nearest::lemma_rounded_overflow;
use crate::nearest::overflow_edge;
use crate::rounding::distance;
use crate::scalar::lemma_normal_magnitude;
use crate::scalar::lemma_parts;
use crate::scalar::Scalar;
use crate::scalar::FRACTION_RANGE;
use crate::scalar::ONE_BITS;
use crate::scalar::THREE_QUARTERS_BITS;
use crate::scalar::TWO_BITS;
use crate::scalar::INFINITY_BITS;
use crate::scalar::ZERO_BITS;

verus! {

/// The smallest positive number, 2^-149, is the unit of values; this is how
/// many units make one.
pub open spec fn units_in_one() -> nat {
    pow2(UNIT_EXPONENT as nat)
}

/// A target of the given sign and size.
pub open spec fn signed(negative: bool, size: nat) -> int {
    if negative {
        -(size as int)
    } else {
        size as int
    }
}

/// Distances scale with a common factor.
pub proof fn lemma_distance_times(x: int, y: int, w: nat)
    ensures
        distance(x * w, y * w) == distance(x, y) * w,
{
    assert(x * w - y * w == (x - y) * w) by (nonlinear_arith);
    assert(y * w - x * w == (y - x) * w) by (nonlinear_arith);
    assert(x >= y ==> x * w >= y * w) by (nonlinear_arith);
    assert(x < y ==> x * w <= y * w) by (nonlinear_arith);
}

/// From magnitudes to values, and from the ratio's own denominator to a
/// multiple of it: a number that is nearest in magnitude to `a / b`, and has
/// the sign of the target, is nearest in value to the target `a * w` over
/// `b * w`.
#[verifier::rlimit(50)]
pub proof fn lemma_nearest_in_value(
    r: Scalar,
    t: Scalar,
    negative: bool,
    a: nat,
    b: nat,
    w: nat,
)
    requires
        r.is_finite(),
        t.is_finite(),
        r.is_negative() == negative,
        b > 0,
        w > 0,
        distance((r.magnitude() * b) as int, a as int) <= distance(
            (t.magnitude() * b) as int,
            a as int,
        ),
        distance((r.magnitude() * b) as int, a as int) == distance(
            (t.magnitude() * b) as int,
            a as int,
        ) && t.magnitude() != r.magnitude() ==> r.bits % 2 == 0,
        distance((r.magnitude() * b) as int, a as int) <= a,
        distance((r.magnitude() * b) as int, a as int) == a && r.magnitude() != 0 ==> r.bits % 2
            == 0,
    ensures
        distance(r.value() * (b * w), signed(negative, a * w)) <= distance(
            t.value() * (b * w),
            signed(negative, a * w),
        ),
        distance(r.value() * (b * w), signed(negative, a * w)) == distance(
            t.value() * (b * w),
            signed(negative, a * w),
        ) && t.value() != r.value() ==> r.bits % 2 == 0,
{
    let big = r.magnitude() as int;
    let other = t.magnitude() as int;
    let a = a as int;
    let b = b as int;
    let w = w as int;
    let mine = distance(big * b, a);
    let theirs = distance(other * b, a);
    lemma_distance_times(big * b, a, w as nat);
    lemma_distance_times(other * b, a, w as nat);
    assert((big * b) * w == big * (b * w)) by (nonlinear_arith);
    assert((other * b) * w == other * (b * w)) by (nonlinear_arith);
    assert((-big) * (b * w) == -(big * (b * w))) by (nonlinear_arith);
    assert((-other) * (b * w) == -(other * (b * w))) by (nonlinear_arith);
    assert(mine * w <= theirs * w) by (nonlinear_arith)
        requires
            mine <= theirs,
            w >= 0,
    ;
    assert(mine * w <= a * w) by (nonlinear_arith)
        requires
            mine <= a,
            w >= 0,
    ;
    assert(other * (b * w) >= 0) by (nonlinear_arith)
        requires
            other >= 0,
            b > 0,
            w > 0,
    ;
    assert(a * w >= 0) by (nonlinear_arith)
        requires
            a >= 0,
            w > 0,
    ;
    let target = signed(negative, (a * w) as nat);
    // The distance of the result, whatever its sign.
    assert(distance(r.value() * (b * w), target) == mine * w);
    if t.is_negative() == negative {
        assert(distance(t.value() * (b * w), target) == theirs * w);
        if mine * w == theirs * w {
            assert(mine == theirs) by (nonlinear_arith)
                requires
                    mine * w == theirs * w,
                    w > 0,
            ;
        }
    } else {
        // On the other side of zero.
        assert(distance(t.value() * (b * w), target) == other * (b * w) + a * w);
        if mine * w == other * (b * w) + a * w && t.value() != r.value() {
            assert(mine * w == a * w);
            assert(mine == a) by (nonlinear_arith)
                requires
                    mine * w == a * w,
                    w > 0,
            ;
            assert(other * (b * w) == 0);
            assert(other == 0) by (nonlinear_arith)
                requires
                    other * (b * w) == 0,
                    b > 0,
                    w > 0,
                    other >= 0,
            ;
            assert(big != 0);
        }
    }
}

/// A ratio rounded to a finite number of the given sign, compared in value
/// with any finite number: the rounded one is nearest to the target `a * w`
/// over `b * w`, where `a / b` is the ratio `(n / d) * 2^p`.
pub proof fn lemma_rounded_is_nearest_in_value(
    negative: bool,
    n: nat,
    d: nat,
    p: int,
    w: nat,
    t: Scalar,
)
    requires
        0 < n < 0x1_0000_0000_0000_0000,
        0 < d < 0x0100_0000,
        rounded_bits(n, d, p) < INFINITY_BITS,
        t.is_finite(),
        w > 0,
    ensures
        rounded(negative, n, d, p).is_finite(),
        rounded(negative, n, d, p).is_negative() == negative,
        distance(
            rounded(negative, n, d, p).value() * (exact_denominator(d, p) * w),
            signed(negative, exact_numerator(n, p) * w),
        ) <= distance(
            t.value() * (exact_denominator(d, p) * w),
            signed(negative, exact_numerator(n, p) * w),
        ),
        distance(
            rounded(negative, n, d, p).value() * (exact_denominator(d, p) * w),
            signed(negative, exact_numerator(n, p) * w),
        ) == distance(
            t.value() * (exact_denominator(d, p) * w),
            signed(negative, exact_numerator(n, p) * w),
        ) && t.value() != rounded(negative, n, d, p).value() ==> rounded(negative, n, d, p).bits
            % 2 == 0,
{
    let r = rounded(negative, n, d, p);
    let plain = Scalar { bits: rounded_bits(n, d, p) };
    let zero = Scalar { bits: ZERO_BITS };
    assert(r.magnitude_bits() == rounded_bits(n, d, p));
    assert(plain.magnitude_bits() == rounded_bits(n, d, p));
    assert(r.magnitude() == plain.magnitude());
    assert(r.bits % 2 == plain.bits % 2);
    assert(zero.magnitude() == 0);
    lemma_rounded_is_nearest(n, d, p, t);
    lemma_rounded_is_nearest(n, d, p, zero);
    let a = exact_numerator(n, p);
    let b = exact_denominator(d, p);
    assert(b > 0) by {
        lemma_pow2_pos((-p) as nat);
        assert(d * pow2((-p) as nat) > 0) by (nonlinear_arith)
            requires
                d > 0,
                pow2((-p) as nat) > 0,
        ;
    }
    assert(0 * b == 0);
    lemma_nearest_in_value(r, t, negative, a, b, w);
}

/// The product of two signed sizes has the product of the sizes as its size and
/// is negative where one of the two is.
proof fn lemma_signed_product(first: bool, x: nat, second: bool, y: nat)
    ensures
        signed(first, x) * signed(second, y) == signed(first != second, x * y),
{
    let x = x as int;
    let y = y as int;
    assert((-x) * y == -(x * y)) by (nonlinear_arith);
    assert(x * (-y) == -(x * y)) by (nonlinear_arith);
    assert((-x) * (-y) == x * y) by (nonlinear_arith);
}

/// The exact product of two finite numbers other than zero as the ratio that
/// is rounded: the significands' product, scaled by `w` to the product of the
/// magnitudes over 2^149.
#[verifier::rlimit(50)]
proof fn lemma_product_scale(a: Scalar, b: Scalar) -> (w: nat)
    requires
        a.is_finite(),
        b.is_finite(),
        !a.is_zero(),
        !b.is_zero(),
    ensures
        w > 0,
        0 < a.significand() * b.significand() < 0x1_0000_0000_0000,
        exact_denominator(1, a.exponent() + b.exponent() - UNIT_EXPONENT) * w == units_in_one(),
        exact_numerator(
            a.significand() * b.significand(),
            a.exponent() + b.exponent() - UNIT_EXPONENT,
        ) * w == a.magnitude() * b.magnitude(),
        a.value() * b.value() == signed(
            a.is_negative() != b.is_negative(),
            a.magnitude() * b.magnitude(),
        ),
{
    lemma_parts(a);
    lemma_parts(b);
    let sa = a.significand();
    let sb = b.significand();
    let ea = a.exponent() as nat;
    let eb = b.exponent() as nat;
    let n = sa * sb;
    let p = ea + eb - UNIT_EXPONENT;
    assert(0 < n < 0x1_0000_0000_0000) by (nonlinear_arith)
        requires
            n == sa * sb,
            0 < sa < 0x0100_0000,
            0 < sb < 0x0100_0000,
    ;
    let both = pow2(ea + eb);
    lemma_pow2_adds_to(ea + eb, ea, eb);
    let w = if p >= 0 {
        units_in_one()
    } else {
        both
    };
    lemma_pow2_pos(UNIT_EXPONENT as nat);
    if p >= 0 {
        lemma_pow2_adds_to(ea + eb, p as nat, UNIT_EXPONENT as nat);
        assert((n * pow2(p as nat)) * w == n * both) by (nonlinear_arith)
            requires
                both == pow2(p as nat) * w,
        ;
        assert(1 * w == w);
    } else {
        lemma_pow2_adds_to(UNIT_EXPONENT as nat, (-p) as nat, ea + eb);
        assert((1 * pow2((-p) as nat)) * w == units_in_one()) by (nonlinear_arith)
            requires
                units_in_one() == pow2((-p) as nat) * w,
        ;
    }
    let ma = a.magnitude();
    let mb = b.magnitude();
    assert(ma * mb == n * both) by (nonlinear_arith)
        requires
            ma == sa * pow2(ea),
            mb == sb * pow2(eb),
            both == pow2(ea) * pow2(eb),
            n == sa * sb,
    ;
    lemma_signed_product(a.is_negative(), ma, b.is_negative(), mb);
    w
}

/// The product of two finite numbers other than zero, where it is finite, is
/// the number nearest to their exact product: no finite number `t` is nearer,
/// and where another is equally near, the product has the even bit pattern.
/// Values are in units of 2^-149, so that the exact product of two values is
/// 2^149 times the value it stands for.
pub proof fn lemma_product_is_nearest(a: Scalar, b: Scalar, t: Scalar)
    requires
        a.is_finite(),
        b.is_finite(),
        !a.is_zero(),
        !b.is_zero(),
        a.mul_of(b).is_finite(),
        t.is_finite(),
    ensures
        distance(a.mul_of(b).value() * units_in_one(), a.value() * b.value()) <= distance(
            t.value() * units_in_one(),
            a.value() * b.value(),
        ),
        distance(a.mul_of(b).value() * units_in_one(), a.value() * b.value()) == distance(
            t.value() * units_in_one(),
            a.value() * b.value(),
        ) && t.value() != a.mul_of(b).value() ==> a.mul_of(b).bits % 2 == 0,
{
    let negative = a.is_negative() != b.is_negative();
    let n = a.significand() * b.significand();
    let p = a.exponent() + b.exponent() - UNIT_EXPONENT;
    let w = lemma_product_scale(a, b);
    lemma_rounded_sign(negative, n, 1, p);
    lemma_rounded_is_nearest_in_value(negative, n, 1, p, w, t);
}

/// The product of two finite numbers other than zero is an infinity exactly
/// where the exact product reaches the middle between the greatest finite
/// number and the power of two above it.
pub proof fn lemma_product_overflow(a: Scalar, b: Scalar)
    requires
        a.is_finite(),
        b.is_finite(),
        !a.is_zero(),
        !b.is_zero(),
    ensures
        !a.mul_of(b).is_nan(),
        a.mul_of(b).is_negative() == (a.is_negative() != b.is_negative()),
        a.mul_of(b).is_infinite() <==> 2 * (a.magnitude() * b.magnitude()) >= overflow_edge()
            * units_in_one(),
{
    let negative = a.is_negative() != b.is_negative();
    let n = a.significand() * b.significand();
    let p = a.exponent() + b.exponent() - UNIT_EXPONENT;
    let w = lemma_product_scale(a, b);
    lemma_rounded_sign(negative, n, 1, p);
    lemma_rounded_overflow(n, 1, p);
    lemma_overflow_in_scale(exact_numerator(n, p), exact_denominator(1, p), w);
}

/// Whether a ratio reaches the edge does not depend on its scale.
proof fn lemma_overflow_in_scale(a: nat, b: nat, w: nat)
    requires
        w > 0,
    ensures
        2 * a >= overflow_edge() * b <==> 2 * (a * w) >= overflow_edge() * (b * w),
{
    let edge = overflow_edge();
    assert(2 * (a * w) == (2 * a) * w) by (nonlinear_arith);
    assert(edge * (b * w) == (edge * b) * w) by (nonlinear_arith);
    if 2 * a >= edge * b {
        assert((2 * a) * w >= (edge * b) * w) by (nonlinear_arith)
            requires
                2 * a >= edge * b,
                w > 0,
        ;
    } else {
        assert((2 * a) * w < (edge * b) * w) by (nonlinear_arith)
            requires
                2 * a < edge * b,
                w > 0,
        ;
    }
}

/// The exact quotient of two finite numbers other than zero as the ratio that
/// is rounded: the significands' ratio, scaled by `w` to 2^149 times the
/// dividend's magnitude over the divisor's.
#[verifier::rlimit(50)]
proof fn lemma_quotient_scale(a: Scalar, b: Scalar) -> (w: nat)
    requires
        a.is_finite(),
        b.is_finite(),
        !a.is_zero(),
        !b.is_zero(),
    ensures
        w > 0,
        0 < a.significand() < 0x0100_0000,
        0 < b.significand() < 0x0100_0000,
        exact_denominator(b.significand(), a.exponent() - b.exponent() + UNIT_EXPONENT) * w
            == b.magnitude(),
        exact_numerator(a.significand(), a.exponent() - b.exponent() + UNIT_EXPONENT) * w
            == a.magnitude() * units_in_one(),
{
    lemma_parts(a);
    lemma_parts(b);
    let sa = a.significand();
    let sb = b.significand();
    let ea = a.exponent() as nat;
    let eb = b.exponent() as nat;
    let p = ea - eb + UNIT_EXPONENT;
    let unit = units_in_one();
    let raised = pow2(ea + UNIT_EXPONENT as nat);
    lemma_pow2_adds_to(ea + UNIT_EXPONENT as nat, ea, UNIT_EXPONENT as nat);
    let w = if p >= 0 {
        pow2(eb)
    } else {
        raised
    };
    lemma_pow2_pos(eb);
    if p >= 0 {
        lemma_pow2_adds_to(ea + UNIT_EXPONENT as nat, p as nat, eb);
        assert((sa * pow2(p as nat)) * w == sa * raised) by (nonlinear_arith)
            requires
                raised == pow2(p as nat) * w,
        ;
    } else {
        lemma_pow2_adds_to(eb, (-p) as nat, ea + UNIT_EXPONENT as nat);
        assert((sb * pow2((-p) as nat)) * w == sb * pow2(eb)) by (nonlinear_arith)
            requires
                pow2(eb) == pow2((-p) as nat) * w,
        ;
    }
    assert(exact_denominator(sb, p) * w == b.magnitude());
    assert(exact_numerator(sa, p) * w == sa * raised);
    assert(sa * raised == a.magnitude() * unit) by (nonlinear_arith)
        requires
            a.magnitude() == sa * pow2(ea),
            raised == pow2(ea) * unit,
    ;
    w
}

/// The quotient of two finite numbers other than zero, where it is finite, is
/// the number nearest to their exact quotient: no finite number `t` is nearer,
/// and where another is equally near, the quotient has the even bit pattern.
/// Values are compared after multiplying by the magnitude of the divisor, to
/// stay among integers: a result times the divisor against 2^149 times the
/// dividend.
pub proof fn lemma_quotient_is_nearest(a: Scalar, b: Scalar, t: Scalar)
    requires
        a.is_finite(),
        b.is_finite(),
        !a.is_zero(),
        !b.is_zero(),
        a.div_of(b).is_finite(),
        t.is_finite(),
    ensures
        distance(
            a.div_of(b).value() * b.magnitude(),
            signed(a.is_negative() != b.is_negative(), a.magnitude() * units_in_one()),
        ) <= distance(
            t.value() * b.magnitude(),
            signed(a.is_negative() != b.is_negative(), a.magnitude() * units_in_one()),
        ),
        distance(
            a.div_of(b).value() * b.magnitude(),
            signed(a.is_negative() != b.is_negative(), a.magnitude() * units_in_one()),
        ) == distance(
            t.value() * b.magnitude(),
            signed(a.is_negative() != b.is_negative(), a.magnitude() * units_in_one()),
        ) && t.value() != a.div_of(b).value() ==> a.div_of(b).bits % 2 == 0,
{
    let negative = a.is_negative() != b.is_negative();
    let p = a.exponent() - b.exponent() + UNIT_EXPONENT;
    let w = lemma_quotient_scale(a, b);
    lemma_rounded_sign(negative, a.significand(), b.significand(), p);
    lemma_rounded_is_nearest_in_value(negative, a.significand(), b.significand(), p, w, t);
}

/// The quotient of two finite numbers other than zero is an infinity exactly
/// where the exact quotient reaches the middle between the greatest finite
/// number and the power of two above it.
pub proof fn lemma_quotient_overflow(a: Scalar, b: Scalar)
    requires
        a.is_finite(),
        b.is_finite(),
        !a.is_zero(),
        !b.is_zero(),
    ensures
        !a.div_of(b).is_nan(),
        a.div_of(b).is_negative() == (a.is_negative() != b.is_negative()),
        a.div_of(b).is_infinite() <==> 2 * (a.magnitude() * units_in_one()) >= overflow_edge()
            * b.magnitude(),
{
    let negative = a.is_negative() != b.is_negative();
    let p = a.exponent() - b.exponent() + UNIT_EXPONENT;
    let w = lemma_quotient_scale(a, b);
    lemma_rounded_sign(negative, a.significand(), b.significand(), p);
    lemma_rounded_overflow(a.significand(), b.significand(), p);
    lemma_overflow_in_scale(
        exact_numerator(a.significand(), p),
        exact_denominator(b.significand(), p),
        w,
    );
}

/// The number that a count converts to is the nearest to the count: no finite
/// number `t` is nearer, and where another is equally near, the result has the
/// even bit pattern. A count is always within reach of the finite numbers.
pub proof fn lemma_count_is_nearest(count: nat, t: Scalar)
    requires
        count < 0x1_0000_0000_0000_0000,
        t.is_finite(),
    ensures
        Scalar::of_count(count).is_finite(),
        !Scalar::of_count(count).is_negative(),
        distance(Scalar::of_count(count).value(), (count * units_in_one()) as int) <= distance(
            t.value(),
            (count * units_in_one()) as int,
        ),
        distance(Scalar::of_count(count).value(), (count * units_in_one()) as int) == distance(
            t.value(),
            (count * units_in_one()) as int,
        ) && t.value() != Scalar::of_count(count).value() ==> Scalar::of_count(count).bits % 2
            == 0,
{
    let unit = units_in_one();
    lemma_pow2_pos(UNIT_EXPONENT as nat);
    if count == 0 {
        let zero = Scalar::of_count(0);
        assert(zero.magnitude() == 0);
        assert(0 * unit == 0);
    } else {
        let p = UNIT_EXPONENT as int;
        lemma_rounded_sign(false, count, 1, p);
        crate::rounding::lemma_raised(count, 1);
        crate::rounding::lemma_rounded_quotient(count, 1, p);
        assert(crate::rounding::binade_index(count, 1, p) <= 189);
        assert(rounded_bits(count, 1, p) < INFINITY_BITS);
        lemma_rounded_is_nearest_in_value(false, count, 1, p, 1, t);
        let r = rounded(false, count, 1, p);
        assert(exact_denominator(1, p) * 1 == 1);
        assert(exact_numerator(count, p) * 1 == count * unit);
        assert(r.value() * 1 == r.value());
        assert(t.value() * 1 == t.value());
    }
}

/// A zero times a finite number is a zero.
pub proof fn lemma_zero_product(a: Scalar, b: Scalar)
    requires
        a.is_zero(),
        b.is_finite(),
    ensures
        a.mul_of(b).is_zero(),
{
}

/// A zero by a finite number other than zero is a zero.
pub proof fn lemma_zero_quotient(a: Scalar, b: Scalar)
    requires
        a.is_zero(),
        b.is_finite(),
        !b.is_zero(),
    ensures
        a.div_of(b).is_zero(),
{
}

/// Adding a zero to a number leaves its value.
#[verifier::rlimit(50)]
pub proof fn lemma_sum_with_zero(a: Scalar, b: Scalar)
    requires
        !a.is_nan(),
        b.is_zero(),
    ensures
        !a.add_of(b).is_nan(),
        a.add_of(b).value() == a.value(),
{
    let none = Scalar { bits: ZERO_BITS };
    assert(none.magnitude() == 0);
    lemma_magnitude_order(b, none);
    if a.is_zero() {
        lemma_magnitude_order(a, none);
        lemma_magnitude_order(a.add_of(b), none);
    }
}

/// Halving a number gives a number.
pub proof fn lemma_half_is_a_number(a: Scalar)
    requires
        !a.is_nan(),
    ensures
        !a.div_of(Scalar { bits: TWO_BITS }).is_nan(),
{
    let two = Scalar { bits: TWO_BITS };
    assert(two.magnitude_bits() == TWO_BITS);
    if a.is_finite() && !a.is_zero() {
        lemma_quotient_overflow(a, two);
    }
}

/// Whether the sum of two numbers is exact: finite and of the value of the sum.
pub open spec fn is_exact_sum(a: Scalar, b: Scalar) -> bool {
    a.add_of(b).is_finite() && a.add_of(b).value() == a.value() + b.value()
}

/// Whether the difference of two numbers is exact.
pub open spec fn is_exact_difference(a: Scalar, b: Scalar) -> bool {
    a.sub_of(b).is_finite() && a.sub_of(b).value() == a.value() - b.value()
}

/// Whether the product of two numbers is exact. The product of two values is
/// 2^149 times the value it stands for.
pub open spec fn is_exact_product(a: Scalar, b: Scalar) -> bool {
    a.mul_of(b).is_finite() && a.mul_of(b).value() * units_in_one() == a.value() * b.value()
}

/// Whether the quotient of two numbers is exact.
pub open spec fn is_exact_quotient(a: Scalar, b: Scalar) -> bool {
    a.div_of(b).is_finite() && a.div_of(b).value() * b.value() == a.value() * units_in_one()
}

/// Whether a count is a single-precision number.
pub open spec fn is_exact_count(count: nat) -> bool {
    Scalar::of_count(count).value() == count * units_in_one()
}

/// The values of the constants of the layout, in units of 2^-149: one is 2^149
/// units, two is twice and three quarters is three quarters of that.
pub proof fn lemma_constant_values()
    ensures
        (Scalar { bits: ONE_BITS }).value() == units_in_one(),
        (Scalar { bits: TWO_BITS }).value() == 2 * units_in_one(),
        4 * (Scalar { bits: THREE_QUARTERS_BITS }).value() == 3 * units_in_one(),
        (Scalar { bits: THREE_QUARTERS_BITS }).value() == 3 * pow2(147),
        units_in_one() == 4 * pow2(147),
        units_in_one() > 0,
{
    let one = Scalar { bits: ONE_BITS };
    let two = Scalar { bits: TWO_BITS };
    let part = Scalar { bits: THREE_QUARTERS_BITS };
    lemma_normal_magnitude(one, 127, FRACTION_RANGE as nat);
    lemma_normal_magnitude(two, 128, FRACTION_RANGE as nat);
    lemma_normal_magnitude(part, 126, 0x00C0_0000);
    assert(pow2(23) == 0x0080_0000 && pow2(22) == 0x0040_0000 && pow2(2) == 4) by {
        vstd::arithmetic::power2::lemma2_to64();
    }
    lemma_pow2_adds_to(149, 23, 126);
    lemma_pow2_adds_to(150, 23, 127);
    lemma_pow2_unfold(150);
    lemma_pow2_adds_to(147, 22, 125);
    lemma_pow2_adds_to(149, 2, 147);
    assert(0x00C0_0000 * pow2(125) == 3 * (0x0040_0000 * pow2(125))) by (nonlinear_arith);
    lemma_pow2_pos(149);
}

/// Three quarters of a finite number is finite: scaling down cannot overflow.
#[verifier::rlimit(50)]
pub proof fn lemma_three_quarters_is_finite(width: Scalar)
    requires
        width.is_finite(),
    ensures
        (Scalar { bits: THREE_QUARTERS_BITS }).mul_of(width).is_finite(),
        (Scalar { bits: THREE_QUARTERS_BITS }).mul_of(width).is_negative() == width.is_negative(),
{
    let part = Scalar { bits: THREE_QUARTERS_BITS };
    assert(part.magnitude_bits() == THREE_QUARTERS_BITS);
    assert(part.significand() == 0x00C0_0000);
    assert(part.exponent() == 125);
    if !width.is_zero() {
        lemma_parts(width);
        let sw = width.significand();
        let ew = width.exponent();
        let n = 0x00C0_0000 * sw;
        let p = 125 + ew - UNIT_EXPONENT;
        assert(0 < n < 0x00C0_0000 * 0x0100_0000) by (nonlinear_arith)
            requires
                n == 0x00C0_0000 * sw,
                0 < sw < 0x0100_0000,
        ;
        lemma_rounded_sign(width.is_negative(), n, 1, p);
        crate::nearest::lemma_rounded_overflow(n, 1, p);
        let last = pow2(253);
        lemma_pow2_pos(253);
        lemma_pow2_adds_to(253, 24, 229);
        assert(pow2(24) == 0x0100_0000) by {
            vstd::arithmetic::power2::lemma2_to64();
        }
        if p >= 0 {
            let up = pow2(p as nat);
            lemma_pow2_pos(p as nat);
            if p < 229 {
                lemma_pow2_strictly_increases(p as nat, 229);
            }
            assert(2 * (n * up) < (0x01FF_FFFF * last) * 1) by (nonlinear_arith)
                requires
                    n < 0x00C0_0000 * 0x0100_0000,
                    0 < up <= pow2(229),
                    last == 0x0100_0000 * pow2(229),
            ;
        } else {
            let down = pow2((-p) as nat);
            lemma_pow2_pos((-p) as nat);
            assert(2 * n < (0x01FF_FFFF * last) * (1 * down)) by (nonlinear_arith)
                requires
                    n < 0x00C0_0000 * 0x0100_0000,
                    down >= 1,
                    last == 0x0100_0000 * pow2(229),
                    pow2(229) >= 1,
            ;
        }
    }
}

/// Three quarters of a finite number is the number nearest to three quarters
/// of its value: no finite number `t` is nearer, and where another is equally
/// near, the result has the even bit pattern. Values are compared fourfold, to
/// stay among integers.
#[verifier::rlimit(50)]
pub proof fn lemma_three_quarters_is_nearest(width: Scalar, t: Scalar)
    requires
        width.is_finite(),
        t.is_finite(),
    ensures
        distance(4 * (Scalar { bits: THREE_QUARTERS_BITS }).mul_of(width).value(), 3 * width.value())
            <= distance(4 * t.value(), 3 * width.value()),
        distance(4 * (Scalar { bits: THREE_QUARTERS_BITS }).mul_of(width).value(), 3 * width.value())
            == distance(4 * t.value(), 3 * width.value()) && t.value() != (Scalar {
            bits: THREE_QUARTERS_BITS,
        }).mul_of(width).value() ==> (Scalar { bits: THREE_QUARTERS_BITS }).mul_of(width).bits % 2
            == 0,
{
    let part = Scalar { bits: THREE_QUARTERS_BITS };
    let r = part.mul_of(width);
    lemma_three_quarters_is_finite(width);
    lemma_constant_values();
    if width.is_zero() {
        let none = Scalar { bits: ZERO_BITS };
        assert(none.magnitude() == 0);
        lemma_magnitude_order(width, none);
        lemma_magnitude_order(r, none);
    } else {
        assert(part.magnitude_bits() == THREE_QUARTERS_BITS);
        lemma_product_is_nearest(part, width, t);
        let quarter = pow2(147);
        lemma_pow2_pos(147);
        let w = width.value();
        assert(r.value() * units_in_one() == (4 * r.value()) * quarter) by (nonlinear_arith)
            requires
                units_in_one() == 4 * quarter,
        ;
        assert(t.value() * units_in_one() == (4 * t.value()) * quarter) by (nonlinear_arith)
            requires
                units_in_one() == 4 * quarter,
        ;
        assert(part.value() * w == (3 * w) * quarter) by (nonlinear_arith)
            requires
                part.value() == 3 * quarter,
        ;
        lemma_distance_times(4 * r.value(), 3 * w, quarter);
        lemma_distance_times(4 * t.value(), 3 * w, quarter);
        let mine = distance(4 * r.value(), 3 * w);
        let theirs = distance(4 * t.value(), 3 * w);
        assert(mine <= theirs) by (nonlinear_arith)
            requires
                mine * quarter <= theirs * quarter,
                quarter > 0,
        ;
        if mine == theirs {
            assert(mine * quarter == theirs * quarter);
        }
    }
}

/// Around a number of the second binade or above, the numbers lie at least
/// half a grid step apart: any finite number of another value differs from it
/// by two to the power of its exponent index, halved, or more.
#[verifier::rlimit(50)]
pub proof fn lemma_spacing(big: Scalar, t: Scalar)
    requires
        big.is_finite(),
        t.is_finite(),
        big.exponent() >= 1,
        t.value() != big.value(),
    ensures
        distance(t.value(), big.value()) >= pow2((big.exponent() - 1) as nat),
{
    lemma_parts(big);
    let e = big.exponent() as nat;
    let s = big.significand();
    let half = pow2((e - 1) as nat);
    lemma_pow2_pos((e - 1) as nat);
    lemma_pow2_unfold(e);
    let mine = big.magnitude() as int;
    let other = t.magnitude() as int;
    assert(s >= FRACTION_RANGE);
    assert(mine == (2 * s) * half) by (nonlinear_arith)
        requires
            mine == s * (2 * half),
    ;
    assert(mine >= 0x0100_0000 * half) by (nonlinear_arith)
        requires
            mine == (2 * s) * half,
            s >= 0x0080_0000,
            half > 0,
    ;
    if t.is_negative() != big.is_negative() {
        assert(distance(t.value(), big.value()) == other + mine);
    } else if t.magnitude_bits() >= e * FRACTION_RANGE {
        let k = lemma_magnitude_on_grid(t, e) as int;
        assert(other != mine);
        assert(k != 2 * s);
        if k > 2 * s {
            assert(k * half - (2 * s) * half >= half) by (nonlinear_arith)
                requires
                    k >= 2 * s + 1,
                    half > 0,
            ;
        } else {
            assert((2 * s) * half - k * half >= half) by (nonlinear_arith)
                requires
                    k + 1 <= 2 * s,
                    half > 0,
            ;
        }
    } else {
        let least = Scalar { bits: (e * FRACTION_RANGE) as u32 };
        lemma_normal_magnitude(least, e, FRACTION_RANGE as nat);
        lemma_magnitude_order(t, least);
        assert(other < 0x0080_0000 * half);
    }
}

/// The sum of two finite numbers other than zero, the first of the greater
/// magnitude bits, where it is finite, is the number nearest to their exact
/// sum.
#[verifier::rlimit(50)]
proof fn lemma_aligned_sum_is_nearest(big: Scalar, small: Scalar, t: Scalar)
    requires
        0 < small.magnitude_bits() <= big.magnitude_bits() < INFINITY_BITS,
        big.aligned_sum_of(small).is_finite(),
        t.is_finite(),
    ensures
        distance(big.aligned_sum_of(small).value(), big.value() + small.value()) <= distance(
            t.value(),
            big.value() + small.value(),
        ),
        distance(big.aligned_sum_of(small).value(), big.value() + small.value()) == distance(
            t.value(),
            big.value() + small.value(),
        ) && t.value() != big.aligned_sum_of(small).value() ==> big.aligned_sum_of(small).bits
            % 2 == 0,
{
    lemma_parts(big);
    lemma_parts(small);
    let sb = big.significand();
    let ss = small.significand();
    let eb = big.exponent() as nat;
    let es = small.exponent() as nat;
    let gap = (eb - es) as nat;
    let low = pow2(es);
    lemma_pow2_pos(es);
    let mb = big.magnitude() as int;
    let ms = small.magnitude() as int;
    assert(eb >= es);
    if gap >= FAR_GAP {
        // The smaller operand is below a quarter of the spacing around the larger.
        let half = pow2((eb - 1) as nat);
        lemma_pow2_adds_to(25 + es, 25, es);
        assert(pow2(25) == 0x0200_0000) by {
            vstd::arithmetic::power2::lemma2_to64();
        }
        lemma_pow2_strictly_increases(25 + es, (eb - 1) as nat);
        assert(2 * ms < half) by (nonlinear_arith)
            requires
                ms == ss * low,
                ss < 0x0100_0000,
                0x0200_0000 * low < half,
                low > 0,
        ;
        assert(distance(big.value(), big.value() + small.value()) == ms);
        if t.value() != big.value() {
            lemma_spacing(big, t);
        }
    } else {
        let step = pow2(gap);
        lemma_pow2_pos(gap);
        lemma_pow2_adds_to(eb, gap, es);
        if gap < 39 {
            lemma_pow2_strictly_increases(gap, 39);
        }
        assert(pow2(39) == 0x80_0000_0000) by {
            lemma_pow2_adds_to(39, 32, 7);
            vstd::arithmetic::power2::lemma2_to64();
        }
        assert(pow2(0) == 1) by {
            vstd::arithmetic::power2::lemma2_to64();
        }
        if gap > 0 {
            lemma_pow2_strictly_increases(0, gap);
        }
        let raised = sb * step;
        assert(raised < 0x0100_0000 * 0x80_0000_0000) by (nonlinear_arith)
            requires
                raised == sb * step,
                sb < 0x0100_0000,
                step <= 0x80_0000_0000,
        ;
        assert(raised >= ss) by (nonlinear_arith)
            requires
                raised == sb * step,
                (gap == 0 && step == 1 && sb >= ss) || (step >= 2 && sb >= 0x0080_0000 && ss
                    < 0x0100_0000),
        ;
        assert(mb == raised * low) by (nonlinear_arith)
            requires
                mb == sb * pow2(eb),
                pow2(eb) == step * low,
                raised == sb * step,
        ;
        let negative = big.is_negative();
        if negative == small.is_negative() {
            let n = raised + ss;
            assert(n * low == mb + ms) by (nonlinear_arith)
                requires
                    n == raised + ss,
                    mb == raised * low,
                    ms == ss * low,
            ;
            lemma_rounded_sign(negative, n, 1, es as int);
            lemma_rounded_is_nearest_in_value(negative, n, 1, es as int, 1, t);
            let r = rounded(negative, n, 1, es as int);
            assert(exact_denominator(1, es as int) * 1 == 1);
            assert(exact_numerator(n, es as int) * 1 == n * low);
            assert(r.value() * 1 == r.value());
            assert(t.value() * 1 == t.value());
        } else if raised == ss {
            assert(mb == ms);
            assert(zero(false).value() == 0) by {
                assert(zero(false).magnitude() == 0);
            }
        } else {
            let n = (raised - ss) as nat;
            assert(n * low == mb - ms) by (nonlinear_arith)
                requires
                    n == raised - ss,
                    mb == raised * low,
                    ms == ss * low,
            ;
            lemma_rounded_sign(negative, n, 1, es as int);
            lemma_rounded_is_nearest_in_value(negative, n, 1, es as int, 1, t);
            let r = rounded(negative, n, 1, es as int);
            assert(exact_denominator(1, es as int) * 1 == 1);
            assert(exact_numerator(n, es as int) * 1 == n * low);
            assert(r.value() * 1 == r.value());
            assert(t.value() * 1 == t.value());
        }
    }
}

/// No finite number reaches the edge beyond which ratios round to an infinity.
pub proof fn lemma_finite_bound(a: Scalar)
    requires
        a.is_finite(),
    ensures
        a.magnitude() <= 0x00FF_FFFF * pow2(253),
        2 * a.magnitude() < overflow_edge(),
{
    lemma_parts(a);
    let s = a.significand();
    let e = a.exponent() as nat;
    let last = pow2(253);
    lemma_pow2_pos(e);
    if e < 253 {
        lemma_pow2_strictly_increases(e, 253);
    }
    assert(s * pow2(e) <= 0x00FF_FFFF * last) by (nonlinear_arith)
        requires
            s <= 0x00FF_FFFF,
            0 < pow2(e) <= last,
    ;
}

/// The sum of two finite numbers other than zero, the first of the greater
/// magnitude bits, is an infinity exactly where the exact sum reaches the edge.
#[verifier::rlimit(50)]
proof fn lemma_aligned_sum_overflow(big: Scalar, small: Scalar)
    requires
        0 < small.magnitude_bits() <= big.magnitude_bits() < INFINITY_BITS,
    ensures
        !big.aligned_sum_of(small).is_nan(),
        big.aligned_sum_of(small).is_infinite() <==> 2 * distance(
            big.value() + small.value(),
            0,
        ) >= overflow_edge(),
{
    lemma_parts(big);
    lemma_parts(small);
    lemma_finite_bound(big);
    let sb = big.significand();
    let ss = small.significand();
    let eb = big.exponent() as nat;
    let es = small.exponent() as nat;
    let gap = (eb - es) as nat;
    let low = pow2(es);
    lemma_pow2_pos(es);
    lemma_pow2_pos(253);
    let mb = big.magnitude() as int;
    let ms = small.magnitude() as int;
    lemma_magnitude_order(small, big);
    assert(ms <= mb);
    if gap >= FAR_GAP {
        let half = pow2((eb - 1) as nat);
        lemma_pow2_adds_to(25 + es, 25, es);
        assert(pow2(25) == 0x0200_0000) by {
            vstd::arithmetic::power2::lemma2_to64();
        }
        lemma_pow2_strictly_increases(25 + es, (eb - 1) as nat);
        assert(2 * ms < half) by (nonlinear_arith)
            requires
                ms == ss * low,
                ss < 0x0100_0000,
                0x0200_0000 * low < half,
                low > 0,
        ;
        lemma_pow2_strictly_increases((eb - 1) as nat, 253);
        assert(overflow_edge() == 0x01FF_FFFE * pow2(253) + pow2(253)) by (nonlinear_arith)
            requires
                overflow_edge() == 0x01FF_FFFF * pow2(253),
        ;
    } else {
        let step = pow2(gap);
        lemma_pow2_pos(gap);
        lemma_pow2_adds_to(eb, gap, es);
        if gap < 39 {
            lemma_pow2_strictly_increases(gap, 39);
        }
        assert(pow2(39) == 0x80_0000_0000) by {
            lemma_pow2_adds_to(39, 32, 7);
            vstd::arithmetic::power2::lemma2_to64();
        }
        assert(pow2(0) == 1) by {
            vstd::arithmetic::power2::lemma2_to64();
        }
        if gap > 0 {
            lemma_pow2_strictly_increases(0, gap);
        }
        let raised = sb * step;
        assert(raised < 0x0100_0000 * 0x80_0000_0000) by (nonlinear_arith)
            requires
                raised == sb * step,
                sb < 0x0100_0000,
                step <= 0x80_0000_0000,
        ;
        assert(raised >= ss) by (nonlinear_arith)
            requires
                raised == sb * step,
                (gap == 0 && step == 1 && sb >= ss) || (step >= 2 && sb >= 0x0080_0000 && ss
                    < 0x0100_0000),
        ;
        assert(mb == raised * low) by (nonlinear_arith)
            requires
                mb == sb * pow2(eb),
                pow2(eb) == step * low,
                raised == sb * step,
        ;
        let negative = big.is_negative();
        if negative == small.is_negative() {
            let n = raised + ss;
            assert(n * low == mb + ms) by (nonlinear_arith)
                requires
                    n == raised + ss,
                    mb == raised * low,
                    ms == ss * low,
            ;
            lemma_rounded_sign(negative, n, 1, es as int);
            lemma_rounded_overflow(n, 1, es as int);
            assert(overflow_edge() * 1 == overflow_edge());
        } else if raised == ss {
            assert(mb == ms);
            assert(overflow_edge() > 0) by (nonlinear_arith)
                requires
                    overflow_edge() == 0x01FF_FFFF * pow2(253),
                    pow2(253) > 0,
            ;
        } else {
            let n = (raised - ss) as nat;
            assert(n * low == mb - ms) by (nonlinear_arith)
                requires
                    n == raised - ss,
                    mb == raised * low,
                    ms == ss * low,
            ;
            lemma_rounded_sign(negative, n, 1, es as int);
            lemma_rounded_overflow(n, 1, es as int);
            assert(overflow_edge() * 1 == overflow_edge());
        }
    }
}

/// The sum of two finite numbers is a number, and an infinity exactly where
/// the exact sum reaches the middle between the greatest finite number and the
/// power of two above it.
#[verifier::rlimit(50)]
pub proof fn lemma_sum_overflow(a: Scalar, b: Scalar)
    requires
        a.is_finite(),
        b.is_finite(),
    ensures
        !a.add_of(b).is_nan(),
        a.add_of(b).is_infinite() <==> 2 * distance(a.value() + b.value(), 0) >= overflow_edge(),
{
    let none = Scalar { bits: ZERO_BITS };
    assert(none.magnitude() == 0);
    lemma_finite_bound(a);
    lemma_finite_bound(b);
    if a.is_zero() || b.is_zero() {
        lemma_magnitude_order(a, none);
        lemma_magnitude_order(b, none);
    } else if a.magnitude_bits() >= b.magnitude_bits() {
        lemma_aligned_sum_overflow(a, b);
    } else {
        lemma_aligned_sum_overflow(b, a);
    }
}

/// The difference of two finite numbers is a number, and an infinity exactly
/// where the exact difference reaches the middle between the greatest finite
/// number and the power of two above it.
pub proof fn lemma_difference_overflow(a: Scalar, b: Scalar)
    requires
        a.is_finite(),
        b.is_finite(),
    ensures
        !a.sub_of(b).is_nan(),
        a.sub_of(b).is_infinite() <==> 2 * distance(a.value() - b.value(), 0) >= overflow_edge(),
{
    let opposite = b.negated();
    assert(opposite.magnitude_bits() == b.magnitude_bits());
    assert(opposite.magnitude() == b.magnitude());
    assert(opposite.value() == -b.value());
    lemma_sum_overflow(a, opposite);
}

/// The sum of two finite numbers, where it is finite, is the number nearest to
/// their exact sum: no finite number `t` is nearer, and where another is
/// equally near, the sum has the even bit pattern.
#[verifier::rlimit(50)]
pub proof fn lemma_sum_is_nearest(a: Scalar, b: Scalar, t: Scalar)
    requires
        a.is_finite(),
        b.is_finite(),
        a.add_of(b).is_finite(),
        t.is_finite(),
    ensures
        distance(a.add_of(b).value(), a.value() + b.value()) <= distance(
            t.value(),
            a.value() + b.value(),
        ),
        distance(a.add_of(b).value(), a.value() + b.value()) == distance(
            t.value(),
            a.value() + b.value(),
        ) && t.value() != a.add_of(b).value() ==> a.add_of(b).bits % 2 == 0,
{
    let none = Scalar { bits: ZERO_BITS };
    assert(none.magnitude() == 0);
    if a.is_zero() || b.is_zero() {
        lemma_magnitude_order(a, none);
        lemma_magnitude_order(b, none);
        if a.is_zero() && b.is_zero() {
            let r = a.add_of(b);
            lemma_magnitude_order(r, none);
        }
    } else if a.magnitude_bits() >= b.magnitude_bits() {
        lemma_aligned_sum_is_nearest(a, b, t);
    } else {
        lemma_aligned_sum_is_nearest(b, a, t);
    }
}

/// The difference of two finite numbers, where it is finite, is the number
/// nearest to their exact difference: no finite number `t` is nearer, and
/// where another is equally near, the difference has the even bit pattern.
pub proof fn lemma_difference_is_nearest(a: Scalar, b: Scalar, t: Scalar)
    requires
        a.is_finite(),
        b.is_finite(),
        a.sub_of(b).is_finite(),
        t.is_finite(),
    ensures
        distance(a.sub_of(b).value(), a.value() - b.value()) <= distance(
            t.value(),
            a.value() - b.value(),
        ),
        distance(a.sub_of(b).value(), a.value() - b.value()) == distance(
            t.value(),
            a.value() - b.value(),
        ) && t.value() != a.sub_of(b).value() ==> a.sub_of(b).bits % 2 == 0,
{
    let opposite = b.negated();
    assert(opposite.magnitude_bits() == b.magnitude_bits());
    assert(opposite.magnitude() == b.magnitude());
    assert(opposite.value() == -b.value());
    lemma_sum_is_nearest(a, opposite, t);
}

} // verus!
