//! Rounding a ratio to the nearest single-precision number.
//!
//! A ratio `(n / d) * 2^p` is first raised: numerator and divisor are scaled by
//! powers of two into fixed binades, which shows the binade of the ratio
//! itself. The significand is then the ratio in steps of that binade's grid,
//! rounded to the nearest integer.

use vstd::prelude::*;
use vstd::arithmetic::power2::lemma_pow2_pos;
use vstd::arithmetic::power2::lemma_pow2_strictly_increases;
use vstd::arithmetic::power2::lemma_pow2_unfold;
use vstd::arithmetic::power2::pow2;
use crate::scalar::Scalar;
use crate::scalar::FRACTION_RANGE;
use crate::scalar::INFINITY_BITS;
use crate::scalar::SIGN_BIT;

verus! {

/// How far apart two integers are.
pub open spec fn distance(a: int, b: int) -> nat {
    if a >= b {
        (a - b) as nat
    } else {
        (b - a) as nat
    }
}

/// The integer nearest to `n / d`; where two are equally near, the even one.
pub open spec fn round_half_even(n: nat, d: nat) -> nat
    recommends
        d > 0,
{
    let q = n / d;
    let r = n % d;
    if 2 * r > d || (2 * r == d && q % 2 == 1) {
        q + 1
    } else {
        q
    }
}

/// How many binary digits a number has: none for zero.
pub open spec fn bit_length(n: nat) -> nat
    decreases n,
{
    if n == 0 {
        0
    } else {
        1 + bit_length(n / 2)
    }
}

/// A positive number lies between the powers of two that its length names.
pub proof fn lemma_bit_length_bounds(n: nat)
    requires
        n > 0,
    ensures
        bit_length(n) >= 1,
        pow2((bit_length(n) - 1) as nat) <= n < pow2(bit_length(n)),
    decreases n,
{
    if n == 1 {
        assert(bit_length(1) == 1) by {
            assert(bit_length(0) == 0);
            assert(1nat / 2 == 0);
        }
        vstd::arithmetic::power2::lemma2_to64();
    } else {
        lemma_bit_length_bounds(n / 2);
        let k = bit_length(n / 2);
        lemma_pow2_unfold(k);
        lemma_pow2_unfold((k + 1) as nat);
    }
}

/// Two to the power of `k`.
pub fn power_of_two(k: u32) -> (power: u128)
    requires
        k <= 120,
    ensures
        power == pow2(k as nat),
{
    let mut power: u128 = 1;
    let mut i: u32 = 0;
    proof {
        vstd::arithmetic::power2::lemma2_to64();
    }
    while i < k
        invariant
            i <= k <= 120,
            power == pow2(i as nat),
        decreases k - i,
    {
        proof {
            lemma_pow2_unfold((i + 1) as nat);
            if i + 1 < 120 {
                lemma_pow2_strictly_increases((i + 1) as nat, 120);
            }
            lemma_pow2_strictly_increases(120, 127);
            lemma_power_127();
        }
        power = power * 2;
        i = i + 1;
    }
    power
}

proof fn lemma_power_127()
    ensures
        pow2(127) == 0x8000_0000_0000_0000_0000_0000_0000_0000,
{
    vstd::arithmetic::power2::lemma2_to64();
    vstd::arithmetic::power2::lemma_pow2_adds(64, 63);
    vstd::arithmetic::power2::lemma_pow2_adds(32, 31);
    assert(pow2(63) == 0x8000_0000_0000_0000) by {
        assert(pow2(32) * pow2(31) == 0x8000_0000_0000_0000);
    }
    assert(pow2(64) * pow2(63) == 0x8000_0000_0000_0000_0000_0000_0000_0000);
}

/// How many binary digits a number has.
pub fn length_of(n: u64) -> (length: u32)
    ensures
        length == bit_length(n as nat),
        length <= 64,
{
    let mut rest: u64 = n;
    let mut length: u32 = 0;
    proof {
        vstd::arithmetic::power2::lemma2_to64();
    }
    while rest != 0
        invariant
            length + bit_length(rest as nat) == bit_length(n as nat),
            rest as nat * pow2(length as nat) <= n,
            length <= 64,
        decreases rest,
    {
        proof {
            let unit = pow2(length as nat);
            lemma_pow2_pos(length as nat);
            assert(unit <= rest * unit) by (nonlinear_arith)
                requires
                    rest >= 1,
                    unit >= 0,
            ;
            if length >= 64 {
                vstd::arithmetic::power2::lemma2_to64();
                if length > 64 {
                    lemma_pow2_strictly_increases(64, length as nat);
                }
                assert(false);
            }
            lemma_pow2_unfold((length + 1) as nat);
            assert((rest / 2) * (2 * unit) <= rest * unit) by (nonlinear_arith)
                requires
                    (rest / 2) * 2 <= rest,
                    unit >= 0,
            ;
        }
        rest = rest / 2;
        length = length + 1;
    }
    length
}

/// The integer nearest to `n / d`; where two are equally near, the even one.
pub fn nearest_quotient(n: u128, d: u128) -> (q: u128)
    requires
        d > 0,
    ensures
        q == round_half_even(n as nat, d as nat),
{
    let floor: u128 = n / d;
    let rest: u128 = n % d;
    proof {
        assert(n == d * floor + rest) by {
            vstd::arithmetic::div_mod::lemma_fundamental_div_mod(n as int, d as int);
        }
        assert(floor <= n) by {
            vstd::arithmetic::div_mod::lemma_div_nonincreasing(n as int, d as int);
        }
    }
    if rest > d - rest || (rest == d - rest && floor % 2 == 1) {
        proof {
            assert(floor < n) by (nonlinear_arith)
                requires
                    n == d * floor + rest,
                    rest > 0,
                    d > 0,
                    floor >= 0,
            ;
        }
        floor + 1
    } else {
        floor
    }
}

/// A numerator scaled by a power of two into the binade of 2^63.
pub open spec fn raised_numerator(n: nat) -> nat {
    n * pow2((64 - bit_length(n)) as nat)
}

/// A divisor scaled by a power of two into the binade of 2^23.
pub open spec fn raised_divisor(d: nat) -> nat {
    d * pow2((24 - bit_length(d)) as nat)
}

/// The power of two by which the raised ratio must be scaled to give back
/// `(n / d) * 2^p`.
pub open spec fn raised_scale(n: nat, d: nat, p: int) -> int {
    p - (64 - bit_length(n)) + (24 - bit_length(d))
}

/// The exponent index of the binade in which `(n / d) * 2^p` lies, in units of
/// 2^-149: zero for all that lies below the second binade.
pub open spec fn binade_index(n: nat, d: nat, p: int) -> int {
    let log = if raised_numerator(n) >= raised_divisor(d) * pow2(40) {
        raised_scale(n, d, p) + 40
    } else {
        raised_scale(n, d, p) + 39
    };
    if log > 23 {
        log - 23
    } else {
        0
    }
}

/// The magnitude bits of the single-precision number nearest to `(n / d) * 2^p`
/// units of 2^-149, a tie going to the even bit pattern; those of an infinity
/// where that number would exceed every finite one.
pub open spec fn rounded_bits(n: nat, d: nat, p: int) -> u32
    recommends
        0 < n < 0x1_0000_0000_0000_0000,
        0 < d < 0x0100_0000,
{
    let index = binade_index(n, d, p);
    if index >= 254 {
        INFINITY_BITS
    } else {
        (index * FRACTION_RANGE + round_half_even(
            raised_numerator(n),
            raised_divisor(d) * pow2((index - raised_scale(n, d, p)) as nat),
        )) as u32
    }
}

/// The single-precision number of the given sign nearest to `(n / d) * 2^p`
/// units of 2^-149.
pub open spec fn rounded(negative: bool, n: nat, d: nat, p: int) -> Scalar {
    Scalar {
        bits: if negative {
            (SIGN_BIT + rounded_bits(n, d, p)) as u32
        } else {
            rounded_bits(n, d, p)
        },
    }
}

/// The raised numerator and divisor lie in their binades.
#[verifier::rlimit(50)]
pub proof fn lemma_raised(n: nat, d: nat)
    requires
        0 < n < 0x1_0000_0000_0000_0000,
        0 < d < 0x0100_0000,
    ensures
        1 <= bit_length(n) <= 64,
        1 <= bit_length(d) <= 24,
        0x8000_0000_0000_0000 <= raised_numerator(n) < 0x1_0000_0000_0000_0000,
        0x0080_0000 <= raised_divisor(d) < 0x0100_0000,
{
    vstd::arithmetic::power2::lemma2_to64();
    lemma_pow2_adds_to(63, 32, 31);
    lemma_bit_length_bounds(n);
    lemma_bit_length_bounds(d);
    let ln = bit_length(n);
    let ld = bit_length(d);
    if ln > 64 {
        lemma_pow2_strictly_increases(64, (ln - 1) as nat);
    }
    if ld > 24 {
        lemma_pow2_strictly_increases(24, (ld - 1) as nat);
    }
    let up = pow2((64 - ln) as nat);
    lemma_pow2_adds_to(64, ln, (64 - ln) as nat);
    lemma_pow2_adds_to(63, (ln - 1) as nat, (64 - ln) as nat);
    assert(pow2((ln - 1) as nat) * up <= n * up < pow2(ln) * up) by (nonlinear_arith)
        requires
            pow2((ln - 1) as nat) <= n < pow2(ln),
            up > 0,
    ;
    let down = pow2((24 - ld) as nat);
    lemma_pow2_adds_to(24, ld, (24 - ld) as nat);
    lemma_pow2_adds_to(23, (ld - 1) as nat, (24 - ld) as nat);
    assert(pow2((ld - 1) as nat) * down <= d * down < pow2(ld) * down) by (nonlinear_arith)
        requires
            pow2((ld - 1) as nat) <= d < pow2(ld),
            down > 0,
    ;
}

/// Powers of two multiply by adding exponents.
pub proof fn lemma_pow2_adds_to(sum: nat, a: nat, b: nat)
    requires
        sum == a + b,
    ensures
        pow2(sum) == pow2(a) * pow2(b),
        pow2(a) > 0,
        pow2(b) > 0,
{
    vstd::arithmetic::power2::lemma_pow2_adds(a, b);
    lemma_pow2_pos(a);
    lemma_pow2_pos(b);
}

/// The rounded quotient stays within one binade above its index, and vanishes
/// where the grid is coarse enough.
#[verifier::rlimit(50)]
pub proof fn lemma_rounded_quotient(n: nat, d: nat, p: int)
    requires
        0 < n < 0x1_0000_0000_0000_0000,
        0 < d < 0x0100_0000,
    ensures
        binade_index(n, d, p) - raised_scale(n, d, p) >= 16,
        round_half_even(
            raised_numerator(n),
            raised_divisor(d) * pow2((binade_index(n, d, p) - raised_scale(n, d, p)) as nat),
        ) <= 0x0100_0000,
        binade_index(n, d, p) - raised_scale(n, d, p) >= 42 ==> round_half_even(
            raised_numerator(n),
            raised_divisor(d) * pow2((binade_index(n, d, p) - raised_scale(n, d, p)) as nat),
        ) == 0,
        binade_index(n, d, p) > 0 ==> round_half_even(
            raised_numerator(n),
            raised_divisor(d) * pow2((binade_index(n, d, p) - raised_scale(n, d, p)) as nat),
        ) >= 0x0080_0000,
        binade_index(n, d, p) > 0 ==> raised_numerator(n) >= 0x0080_0000 * (raised_divisor(d)
            * pow2((binade_index(n, d, p) - raised_scale(n, d, p)) as nat)),
        raised_divisor(d) * pow2((binade_index(n, d, p) - raised_scale(n, d, p)) as nat) > 0,
        raised_numerator(n) < 0x0100_0000 * (raised_divisor(d) * pow2(
            (binade_index(n, d, p) - raised_scale(n, d, p)) as nat,
        )),
{
    lemma_raised(n, d);
    vstd::arithmetic::power2::lemma2_to64();
    let top = raised_numerator(n);
    let bottom = raised_divisor(d);
    let scale = raised_scale(n, d, p);
    let index = binade_index(n, d, p);
    let shift = (index - scale) as nat;
    let factor = pow2(shift);
    let divisor = bottom * factor;
    lemma_pow2_pos(shift);
    assert(pow2(40) == 0x100_0000_0000) by {
        lemma_pow2_adds_to(40, 32, 8);
    }
    assert(pow2(41) == 0x200_0000_0000) by {
        lemma_pow2_adds_to(41, 32, 9);
    }
    assert(pow2(42) == 0x400_0000_0000) by {
        lemma_pow2_adds_to(42, 32, 10);
    }
    assert(divisor > 0) by (nonlinear_arith)
        requires
            divisor == bottom * factor,
            bottom > 0,
            factor > 0,
    ;
    let floor = top / divisor;
    let rest = top % divisor;
    assert(top == divisor * floor + rest && 0 <= rest < divisor) by {
        vstd::arithmetic::div_mod::lemma_fundamental_div_mod(top as int, divisor as int);
        vstd::arithmetic::div_mod::lemma_mod_bound(top as int, divisor as int);
    }
    // Below the upper edge of the binade.
    if top >= bottom * pow2(40) {
        assert(shift >= 17);
        if shift > 17 {
            lemma_pow2_strictly_increases(17, shift);
        }
        assert(0x0100_0000 * divisor > top) by (nonlinear_arith)
            requires
                divisor == bottom * factor,
                factor >= 0x2_0000,
                bottom >= 0x0080_0000,
                top < 0x1_0000_0000_0000_0000,
        ;
    } else {
        assert(shift >= 16);
        if shift > 16 {
            lemma_pow2_strictly_increases(16, shift);
        }
        assert(0x0100_0000 * divisor > top) by (nonlinear_arith)
            requires
                divisor == bottom * factor,
                factor >= 0x1_0000,
                top < bottom * 0x100_0000_0000,
        ;
    }
    assert(floor < 0x0100_0000) by (nonlinear_arith)
        requires
            top == divisor * floor + rest,
            0 <= rest,
            0x0100_0000 * divisor > top,
            divisor > 0,
            floor >= 0,
    ;
    if shift >= 42 {
        if shift > 42 {
            lemma_pow2_strictly_increases(42, shift);
        }
        assert(divisor > 2 * top) by (nonlinear_arith)
            requires
                divisor == bottom * factor,
                factor >= 0x400_0000_0000,
                bottom >= 0x0080_0000,
                top < 0x1_0000_0000_0000_0000,
        ;
        assert(floor == 0) by (nonlinear_arith)
            requires
                top == divisor * floor + rest,
                0 <= rest,
                divisor > 2 * top,
                top >= 0,
                floor >= 0,
        ;
    }
    if index > 0 {
        // At or above the lower edge of the binade.
        if top >= bottom * pow2(40) {
            assert(shift == 17);
            assert(factor == 0x2_0000);
            assert(top >= 0x0080_0000 * divisor) by (nonlinear_arith)
                requires
                    divisor == bottom * 0x2_0000,
                    top >= bottom * 0x100_0000_0000,
            ;
        } else {
            assert(shift == 16);
            assert(factor == 0x1_0000);
            assert(top >= 0x0080_0000 * divisor) by (nonlinear_arith)
                requires
                    divisor == bottom * 0x1_0000,
                    bottom < 0x0100_0000,
                    top >= 0x8000_0000_0000_0000,
            ;
        }
        assert(floor >= 0x0080_0000) by (nonlinear_arith)
            requires
                top == divisor * floor + rest,
                rest < divisor,
                top >= 0x0080_0000 * divisor,
                divisor > 0,
                floor >= 0,
        ;
    }
}

/// The rounded number has the sign asked for and the rounded magnitude bits,
/// which are those of a number or of an infinity.
pub proof fn lemma_rounded_sign(negative: bool, n: nat, d: nat, p: int)
    requires
        0 < n < 0x1_0000_0000_0000_0000,
        0 < d < 0x0100_0000,
    ensures
        rounded_bits(n, d, p) <= INFINITY_BITS,
        rounded(negative, n, d, p).magnitude_bits() == rounded_bits(n, d, p),
        rounded(negative, n, d, p).is_negative() == negative,
        !rounded(negative, n, d, p).is_nan(),
{
    lemma_rounded_quotient(n, d, p);
}

/// The infinity of the given sign.
pub open spec fn infinity(negative: bool) -> Scalar {
    Scalar { bits: if negative { (SIGN_BIT + INFINITY_BITS) as u32 } else { INFINITY_BITS } }
}

/// Rounds `(n / d) * 2^p` units of 2^-149 to the nearest single-precision
/// number of the given sign.
#[verifier::rlimit(50)]
pub fn round_ratio(negative: bool, n: u64, d: u64, p: i32) -> (nearest: Scalar)
    requires
        0 < n,
        0 < d < 0x0100_0000,
        -1000 <= p <= 1000,
    ensures
        nearest == rounded(negative, n as nat, d as nat, p as int),
        nearest.magnitude_bits() == rounded_bits(n as nat, d as nat, p as int),
        nearest.magnitude_bits() <= INFINITY_BITS,
        nearest.is_negative() == negative,
{
    let length_n = length_of(n);
    let length_d = length_of(d);
    proof {
        lemma_raised(n as nat, d as nat);
        lemma_rounded_quotient(n as nat, d as nat, p as int);
        vstd::arithmetic::power2::lemma2_to64();
        lemma_pow2_adds_to(40, 32, 8);
    }
    let top: u128 = (n as u128) * power_of_two(64 - length_n);
    let bottom: u128 = (d as u128) * power_of_two(24 - length_d);
    let scale: i32 = p - (64 - length_n as i32) + (24 - length_d as i32);
    let edge: u128 = power_of_two(40);
    assert(bottom * edge < 0x1_0000_0000_0000_0000) by (nonlinear_arith)
        requires
            bottom < 0x0100_0000,
            edge == 0x100_0000_0000,
    ;
    let log: i32 = if top >= bottom * edge {
        scale + 40
    } else {
        scale + 39
    };
    let index: i32 = if log > 23 {
        log - 23
    } else {
        0
    };
    let sign: u32 = if negative {
        SIGN_BIT
    } else {
        0
    };
    if index >= 254 {
        return Scalar { bits: sign + INFINITY_BITS };
    }
    let shift: i32 = index - scale;
    let quotient: u128 = if shift >= 42 {
        0
    } else {
        let factor: u128 = power_of_two(shift as u32);
        proof {
            lemma_pow2_strictly_increases(shift as nat, 42);
            lemma_pow2_adds_to(42, 32, 10);
            lemma_pow2_pos(shift as nat);
        }
        assert(0 < bottom * factor < 0x1_0000_0000_0000_0000_0000) by (nonlinear_arith)
            requires
                0 < bottom < 0x0100_0000,
                0 < factor < 0x400_0000_0000,
        ;
        nearest_quotient(top, bottom * factor)
    };
    Scalar { bits: sign + ((index as u32) * FRACTION_RANGE + (quotient as u32)) }
}

} // verus!
