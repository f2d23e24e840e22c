//! What rounding means: the rounded number is the nearest, a ratio beyond the
//! finite numbers rounds to an infinity, and what a ratio rounds to can be told
//! from the binade in which it lies.

use vstd::prelude::*;
use vstd::arithmetic::power2::lemma_pow2_pos;
use vstd::arithmetic::power2::pow2;
use crate::rounding::binade_index;
use crate::rounding::lemma_pow2_adds_to;
use crate::rounding::lemma_raised;
use crate::rounding::lemma_rounded_quotient;
use crate::rounding::raised_divisor;
use crate::rounding::raised_numerator;
use crate::rounding::raised_scale;
use crate::rounding::bit_length;
use crate::rounding::rounded_bits;
use crate::rounding::distance;
use crate::rounding::round_half_even;
use crate::scalar::lemma_magnitude_order;
use crate::scalar::Scalar;
use crate::scalar::FRACTION_RANGE;
use crate::scalar::INFINITY_BITS;

verus! {

/// Rounding to the nearest integer leaves no integer nearer: `round_half_even`
/// of `n / d` is at least as near to `n / d` as any integer `k`, and where `k` is
/// another integer equally near, it is even.
pub proof fn lemma_round_half_even_is_nearest(n: nat, d: nat, k: int)
    requires
        d > 0,
    ensures
        distance((d * round_half_even(n, d)) as int, n as int) <= distance(d * k, n as int),
        distance((d * round_half_even(n, d)) as int, n as int) == distance(d * k, n as int) && k
            != round_half_even(n, d) ==> round_half_even(n, d) % 2 == 0,
{
    let f = (n / d) as int;
    let r = (n % d) as int;
    assert(n == d * f + r && 0 <= r < d) by {
        vstd::arithmetic::div_mod::lemma_fundamental_div_mod(n as int, d as int);
        vstd::arithmetic::div_mod::lemma_mod_bound(n as int, d as int);
    }
    let q = round_half_even(n, d) as int;
    assert(d * (f + 1) == d * f + d) by (nonlinear_arith);
    assert(q == f || q == f + 1);
    if k <= f - 1 {
        assert(d * k <= d * f - d) by (nonlinear_arith)
            requires
                k <= f - 1,
                d > 0,
        ;
    } else if k == f {
    } else if k == f + 1 {
    } else {
        assert(d * k >= d * f + 2 * d) by (nonlinear_arith)
            requires
                k >= f + 2,
                d > 0,
        ;
    }
}

/// The step from integers to a grid: where `a / b` is `top / divisor` grid
/// steps, the nearest integer to `top / divisor` names the nearest grid point.
pub proof fn lemma_nearest_grid_point(
    a: nat,
    b: nat,
    top: nat,
    divisor: nat,
    grid: nat,
    q: nat,
    k: nat,
)
    requires
        b > 0,
        divisor > 0,
        grid > 0,
        a * divisor == top * (grid * b),
        q == round_half_even(top, divisor),
    ensures
        distance(((q * grid) * b) as int, a as int) <= distance(((k * grid) * b) as int, a as int),
        distance(((q * grid) * b) as int, a as int) == distance(((k * grid) * b) as int, a as int)
            && k != q ==> q % 2 == 0,
{
    let u = grid * b;
    assert(u > 0) by (nonlinear_arith)
        requires
            u == grid * b,
            grid > 0,
            b > 0,
    ;
    lemma_round_half_even_is_nearest(top, divisor, k as int);
    let dq = distance((divisor * q) as int, top as int);
    let dk = distance((divisor * k) as int, top as int);
    let mine = distance(((q * grid) * b) as int, a as int);
    let theirs = distance(((k * grid) * b) as int, a as int);
    lemma_scaled_distance(q, grid, b, a, divisor, top);
    lemma_scaled_distance(k, grid, b, a, divisor, top);
    assert(mine * divisor == dq * u);
    assert(theirs * divisor == dk * u);
    assert(dq * u <= dk * u) by (nonlinear_arith)
        requires
            dq <= dk,
            u >= 0,
    ;
    assert(mine <= theirs) by (nonlinear_arith)
        requires
            mine * divisor <= theirs * divisor,
            divisor > 0,
    ;
    if mine == theirs && k != q {
        assert(dq == dk) by (nonlinear_arith)
            requires
                dq * u == dk * u,
                u > 0,
        ;
    }
}

/// The distance of a grid point from `a / b`, scaled to integers.
proof fn lemma_scaled_distance(k: nat, grid: nat, b: nat, a: nat, divisor: nat, top: nat)
    requires
        b > 0,
        divisor > 0,
        grid > 0,
        a * divisor == top * (grid * b),
    ensures
        distance(((k * grid) * b) as int, a as int) * divisor == distance(
            (divisor * k) as int,
            top as int,
        ) * (grid * b),
{
    let u = (grid * b) as int;
    assert(u > 0) by (nonlinear_arith)
        requires
            u == grid * b,
            grid > 0,
            b > 0,
    ;
    let point = ((k * grid) * b) as int;
    let scaled = (divisor * k) as int;
    let a = a as int;
    let top = top as int;
    let divisor = divisor as int;
    assert(point * divisor == scaled * u) by (nonlinear_arith)
        requires
            point == (k * grid) * b,
            u == grid * b,
            scaled == divisor * k,
    ;
    assert(a * divisor == top * u);
    if point >= a {
        assert(point * divisor >= a * divisor) by (nonlinear_arith)
            requires
                point >= a,
                divisor > 0,
        ;
        assert(scaled >= top) by (nonlinear_arith)
            requires
                scaled * u >= top * u,
                u > 0,
        ;
        assert((point - a) * divisor == (scaled - top) * u) by (nonlinear_arith)
            requires
                point * divisor == scaled * u,
                a * divisor == top * u,
        ;
    } else {
        assert(point * divisor < a * divisor) by (nonlinear_arith)
            requires
                point < a,
                divisor > 0,
        ;
        assert(scaled < top) by (nonlinear_arith)
            requires
                scaled * u < top * u,
                u > 0,
        ;
        assert((a - point) * divisor == (top - scaled) * u) by (nonlinear_arith)
            requires
                point * divisor == scaled * u,
                a * divisor == top * u,
        ;
    }
}

/// The numerator of `(n / d) * 2^p` as a ratio of integers.
pub open spec fn exact_numerator(n: nat, p: int) -> nat {
    if p >= 0 {
        n * pow2(p as nat)
    } else {
        n
    }
}

/// The denominator of `(n / d) * 2^p` as a ratio of integers.
pub open spec fn exact_denominator(d: nat, p: int) -> nat {
    if p >= 0 {
        d
    } else {
        d * pow2((-p) as nat)
    }
}

/// The ratio in grid steps: `(n / d) * 2^p` is the raised numerator over the
/// raised divisor, scaled to the grid of the binade, times the grid.
#[verifier::rlimit(50)]
proof fn lemma_ratio_on_grid(n: nat, d: nat, p: int)
    requires
        0 < n < 0x1_0000_0000_0000_0000,
        0 < d < 0x0100_0000,
    ensures
        exact_numerator(n, p) * (raised_divisor(d) * pow2(
            (binade_index(n, d, p) - raised_scale(n, d, p)) as nat,
        )) == raised_numerator(n) * (pow2(binade_index(n, d, p) as nat) * exact_denominator(d, p)),
        exact_denominator(d, p) > 0,
{
    lemma_raised(n, d);
    lemma_rounded_quotient(n, d, p);
    let index = binade_index(n, d, p) as nat;
    let scale = raised_scale(n, d, p);
    let shift = (index - scale) as nat;
    let un = (64 - bit_length(n)) as nat;
    let ud = (24 - bit_length(d)) as nat;
    let up = if p >= 0 { p as nat } else { 0 };
    let down = if p >= 0 { 0 } else { (-p) as nat };
    let power_up = pow2(up);
    let power_divisor = pow2(ud);
    let power_shift = pow2(shift);
    let power_numerator = pow2(un);
    let power_grid = pow2(index);
    let power_down = pow2(down);
    assert(pow2(0) == 1) by {
        vstd::arithmetic::power2::lemma2_to64();
    }
    lemma_pow2_pos(down);
    // Both products of powers are two to the same power.
    let total = up + ud + shift;
    assert(total == un + index + down);
    lemma_pow2_adds_to(up + ud, up, ud);
    lemma_pow2_adds_to(total, up + ud, shift);
    lemma_pow2_adds_to(un + index, un, index);
    lemma_pow2_adds_to(total, un + index, down);
    assert((power_up * power_divisor) * power_shift == (power_numerator * power_grid) * power_down);
    let a = exact_numerator(n, p);
    let b = exact_denominator(d, p);
    if p >= 0 {
        assert(d * power_down == d) by (nonlinear_arith)
            requires
                power_down == 1,
        ;
    } else {
        assert(n * power_up == n) by (nonlinear_arith)
            requires
                power_up == 1,
        ;
    }
    assert(a == n * power_up);
    assert(b == d * power_down);
    assert(b > 0) by (nonlinear_arith)
        requires
            b == d * power_down,
            d > 0,
            power_down > 0,
    ;
    let left = (n * power_up) * ((d * power_divisor) * power_shift);
    let right = (n * power_numerator) * (power_grid * (d * power_down));
    assert(left == (n * d) * ((power_up * power_divisor) * power_shift)) by (nonlinear_arith)
        requires
            left == (n * power_up) * ((d * power_divisor) * power_shift),
    ;
    assert(right == (n * d) * ((power_numerator * power_grid) * power_down)) by (nonlinear_arith)
        requires
            right == (n * power_numerator) * (power_grid * (d * power_down)),
    ;
}

/// The magnitude of the rounded number: its quotient in grid steps.
proof fn lemma_rounded_magnitude(r: Scalar, index: nat, q: nat)
    requires
        index < 254,
        q <= 2 * FRACTION_RANGE,
        index > 0 ==> q >= FRACTION_RANGE,
        r.magnitude_bits() == index * FRACTION_RANGE + q,
        r.magnitude_bits() < INFINITY_BITS,
    ensures
        r.magnitude() == q * pow2(index),
{
    assert(pow2(0) == 1 && pow2(1) == 2) by {
        vstd::arithmetic::power2::lemma2_to64();
    }
    if q == 2 * FRACTION_RANGE {
        // The quotient reached the next binade.
        crate::scalar::lemma_normal_magnitude(r, index + 2, FRACTION_RANGE as nat);
        vstd::arithmetic::power2::lemma_pow2_unfold(index + 1);
        assert(FRACTION_RANGE * (2 * pow2(index)) == q * pow2(index)) by (nonlinear_arith)
            requires
                q == 2 * FRACTION_RANGE,
        ;
    } else if index == 0 {
        crate::scalar::lemma_small_magnitude(r);
    } else {
        crate::scalar::lemma_normal_magnitude(r, index + 1, q);
    }
}

/// A ratio that rounds to a finite number rounds to the nearest: with
/// `r` the number of magnitude bits `rounded_bits(n, d, p)`, no finite number
/// `t` has a magnitude nearer to `(n / d) * 2^p` units of 2^-149, and where
/// another magnitude is equally near, `r` has the even bit pattern. Magnitudes
/// are compared after multiplying by the ratio's denominator, to stay among
/// integers.
#[verifier::rlimit(50)]
pub proof fn lemma_rounded_is_nearest(n: nat, d: nat, p: int, t: Scalar)
    requires
        0 < n < 0x1_0000_0000_0000_0000,
        0 < d < 0x0100_0000,
        rounded_bits(n, d, p) < INFINITY_BITS,
        t.is_finite(),
    ensures
        distance(
            ((Scalar { bits: rounded_bits(n, d, p) }).magnitude() * exact_denominator(d, p)) as int,
            exact_numerator(n, p) as int,
        ) <= distance(
            (t.magnitude() * exact_denominator(d, p)) as int,
            exact_numerator(n, p) as int,
        ),
        distance(
            ((Scalar { bits: rounded_bits(n, d, p) }).magnitude() * exact_denominator(d, p)) as int,
            exact_numerator(n, p) as int,
        ) == distance(
            (t.magnitude() * exact_denominator(d, p)) as int,
            exact_numerator(n, p) as int,
        ) && t.magnitude() != (Scalar { bits: rounded_bits(n, d, p) }).magnitude()
            ==> rounded_bits(n, d, p) % 2 == 0,
{
    lemma_raised(n, d);
    lemma_rounded_quotient(n, d, p);
    lemma_ratio_on_grid(n, d, p);
    let r = Scalar { bits: rounded_bits(n, d, p) };
    let index = binade_index(n, d, p) as nat;
    let top = raised_numerator(n);
    let divisor = raised_divisor(d) * pow2((index - raised_scale(n, d, p)) as nat);
    let q = round_half_even(top, divisor);
    let grid = pow2(index);
    lemma_pow2_pos(index);
    let a = exact_numerator(n, p);
    let b = exact_denominator(d, p);
    assert(r.bits == index * FRACTION_RANGE + q);
    assert(r.magnitude_bits() == r.bits);
    lemma_rounded_magnitude(r, index, q);
    let other = t.magnitude();
    if index == 0 {
        assert(pow2(0) == 1) by {
            vstd::arithmetic::power2::lemma2_to64();
        }
        assert(other == other * grid);
        lemma_nearest_grid_point(a, b, top, divisor, grid, q, other);
    } else if t.magnitude_bits() >= (index + 1) * FRACTION_RANGE {
        let k = crate::scalar::lemma_magnitude_on_grid(t, index + 1);
        lemma_nearest_grid_point(a, b, top, divisor, grid, q, k);
        if k != q {
        } else {
            assert(other == r.magnitude());
        }
    } else {
        // Below the binade of the result, whose least number is no nearer than
        // the result.
        let least = Scalar { bits: ((index + 1) * FRACTION_RANGE) as u32 };
        crate::scalar::lemma_normal_magnitude(least, index + 1, FRACTION_RANGE as nat);
        lemma_magnitude_order(t, least);
        let edge = FRACTION_RANGE * grid;
        assert(other < edge);
        lemma_nearest_grid_point(a, b, top, divisor, grid, q, FRACTION_RANGE as nat);
        assert(a >= edge * b) by (nonlinear_arith)
            requires
                a * divisor == top * (grid * b),
                top >= 0x0080_0000 * divisor,
                divisor > 0,
                edge == 0x0080_0000 * grid,
                grid > 0,
                b > 0,
        ;
        assert(other * b < edge * b) by (nonlinear_arith)
            requires
                other < edge,
                b > 0,
        ;
    }
}

/// Ratios of the same size round to the same integer.
#[verifier::rlimit(50)]
pub proof fn lemma_round_half_even_of_equal_ratios(n1: nat, d1: nat, n2: nat, d2: nat)
    requires
        d1 > 0,
        d2 > 0,
        n1 * d2 == n2 * d1,
    ensures
        round_half_even(n1, d1) == round_half_even(n2, d2),
{
    let q1 = round_half_even(n1, d1) as int;
    let q2 = round_half_even(n2, d2) as int;
    lemma_round_half_even_is_nearest(n1, d1, q2);
    lemma_round_half_even_is_nearest(n2, d2, q1);
    let n1 = n1 as int;
    let n2 = n2 as int;
    let d1 = d1 as int;
    let d2 = d2 as int;
    let mine_first = distance(d1 * q1, n1);
    let other_first = distance(d1 * q2, n1);
    let mine_second = distance(d2 * q2, n2);
    let other_second = distance(d2 * q1, n2);
    lemma_cross_distance(q1, n1, d1, n2, d2);
    lemma_cross_distance(q2, n1, d1, n2, d2);
    // Each is at least as near as the other, in both scales.
    assert(mine_first * d2 == other_second * d1);
    assert(other_first * d2 == mine_second * d1);
    assert(mine_second * d1 <= other_second * d1) by (nonlinear_arith)
        requires
            mine_second <= other_second,
            d1 > 0,
    ;
    assert(mine_first * d2 <= other_first * d2) by (nonlinear_arith)
        requires
            mine_first <= other_first,
            d2 > 0,
    ;
    assert(mine_first == other_first) by (nonlinear_arith)
        requires
            mine_first * d2 == other_first * d2,
            d2 > 0,
    ;
    assert(mine_second == other_second) by (nonlinear_arith)
        requires
            mine_second * d1 == other_second * d1,
            d1 > 0,
    ;
    if q1 != q2 {
        // Two integers equally near to one ratio are neighbours, and not both even.
        assert(q1 % 2 == 0);
        assert(q2 % 2 == 0);
        let f = n1 / d1;
        let r = n1 % d1;
        assert(n1 == d1 * f + r && 0 <= r < d1) by {
            vstd::arithmetic::div_mod::lemma_fundamental_div_mod(n1, d1);
            vstd::arithmetic::div_mod::lemma_mod_bound(n1, d1);
        }
        assert(d1 * (f + 1) == d1 * f + d1) by (nonlinear_arith);
        assert(q1 == f || q1 == f + 1);
        assert(2 * mine_first <= d1);
        if q2 <= f - 1 {
            assert(d1 * q2 <= d1 * f - d1) by (nonlinear_arith)
                requires
                    q2 <= f - 1,
                    d1 > 0,
            ;
        } else if q2 >= f + 2 {
            assert(d1 * q2 >= d1 * f + 2 * d1) by (nonlinear_arith)
                requires
                    q2 >= f + 2,
                    d1 > 0,
            ;
        }
        assert(q2 == f || q2 == f + 1);
    }
}

/// The distance of an integer from a ratio, in the scale of an equal ratio.
proof fn lemma_cross_distance(k: int, n1: int, d1: int, n2: int, d2: int)
    requires
        d1 > 0,
        d2 > 0,
        n1 * d2 == n2 * d1,
    ensures
        distance(d1 * k, n1) * d2 == distance(d2 * k, n2) * d1,
{
    assert((d1 * k) * d2 == (d2 * k) * d1) by (nonlinear_arith);
    if d1 * k >= n1 {
        assert((d1 * k) * d2 >= n1 * d2) by (nonlinear_arith)
            requires
                d1 * k >= n1,
                d2 > 0,
        ;
        assert(d2 * k >= n2) by (nonlinear_arith)
            requires
                (d2 * k) * d1 >= n2 * d1,
                d1 > 0,
        ;
        assert((d1 * k - n1) * d2 == (d2 * k - n2) * d1) by (nonlinear_arith)
            requires
                (d1 * k) * d2 == (d2 * k) * d1,
                n1 * d2 == n2 * d1,
        ;
    } else {
        assert((d1 * k) * d2 < n1 * d2) by (nonlinear_arith)
            requires
                d1 * k < n1,
                d2 > 0,
        ;
        assert(d2 * k < n2) by (nonlinear_arith)
            requires
                (d2 * k) * d1 < n2 * d1,
                d1 > 0,
        ;
        assert((n1 - d1 * k) * d2 == (n2 - d2 * k) * d1) by (nonlinear_arith)
            requires
                (d1 * k) * d2 == (d2 * k) * d1,
                n1 * d2 == n2 * d1,
        ;
    }
}

/// The numerator of `(n / d) * 2^p` in steps of the grid of exponent index
/// `index`.
pub open spec fn grid_numerator(n: nat, p: int, index: nat) -> nat {
    if index <= p {
        n * pow2((p - index) as nat)
    } else {
        n
    }
}

/// The denominator of `(n / d) * 2^p` in steps of the grid of exponent index
/// `index`.
pub open spec fn grid_denominator(d: nat, p: int, index: nat) -> nat {
    if index <= p {
        d
    } else {
        d * pow2((index - p) as nat)
    }
}

/// How to tell what a ratio rounds to: where the ratio lies in the binade of
/// exponent index `index` (for the index zero: below the second binade), it
/// rounds to the number of that index whose significand is the nearest integer
/// to the ratio in steps of that binade's grid.
#[verifier::rlimit(50)]
pub proof fn lemma_rounded_bits_from_parts(n: nat, d: nat, p: int, index: nat)
    requires
        0 < n < 0x1_0000_0000_0000_0000,
        0 < d < 0x0100_0000,
        index < 254,
        grid_numerator(n, p, index) < 0x0100_0000 * grid_denominator(d, p, index),
        index > 0 ==> 0x0080_0000 * grid_denominator(d, p, index) <= grid_numerator(n, p, index),
    ensures
        rounded_bits(n, d, p) == index * FRACTION_RANGE + round_half_even(
            grid_numerator(n, p, index),
            grid_denominator(d, p, index),
        ),
{
    lemma_raised(n, d);
    lemma_rounded_quotient(n, d, p);
    lemma_ratio_on_grid(n, d, p);
    let found = binade_index(n, d, p) as nat;
    let top = raised_numerator(n) as int;
    let divisor = (raised_divisor(d) * pow2((found - raised_scale(n, d, p)) as nat)) as int;
    let a = exact_numerator(n, p) as int;
    let b = exact_denominator(d, p) as int;
    let theirs = pow2(found) as int;
    let mine = pow2(index) as int;
    lemma_pow2_pos(found);
    lemma_pow2_pos(index);
    let up = grid_numerator(n, p, index) as int;
    let down = grid_denominator(d, p, index) as int;
    // The ratio in steps of the grid of `index`.
    assert(a * down == up * (mine * b) && down > 0) by {
        let n = n as int;
        let d = d as int;
        if index <= p {
            let low = pow2((p - index) as nat) as int;
            lemma_pow2_adds_to(p as nat, (p - index) as nat, index);
            assert((n * pow2(p as nat)) * d == (n * low) * (mine * d)) by (nonlinear_arith)
                requires
                    pow2(p as nat) == low * mine,
            ;
        } else if p >= 0 {
            let high = pow2((index - p) as nat) as int;
            lemma_pow2_adds_to(index, p as nat, (index - p) as nat);
            assert((n * pow2(p as nat)) * (d * high) == n * (mine * d)) by (nonlinear_arith)
                requires
                    mine == pow2(p as nat) * high,
            ;
            assert(d * high > 0) by (nonlinear_arith)
                requires
                    d > 0,
                    high > 0,
            ;
        } else {
            let high = pow2((index - p) as nat) as int;
            let back = pow2((-p) as nat) as int;
            lemma_pow2_adds_to((index - p) as nat, index, (-p) as nat);
            lemma_pow2_pos((index - p) as nat);
            assert(n * (d * high) == n * (mine * (d * back))) by (nonlinear_arith)
                requires
                    high == mine * back,
            ;
            assert(d * high > 0) by (nonlinear_arith)
                requires
                    d > 0,
                    high > 0,
            ;
        }
    }
    let unit_theirs = theirs * b;
    let unit_mine = mine * b;
    assert(unit_theirs > 0 && unit_mine > 0) by (nonlinear_arith)
        requires
            unit_theirs == theirs * b,
            unit_mine == mine * b,
            theirs > 0,
            mine > 0,
            b > 0,
    ;
    // Where the ratio lies, by either grid.
    assert(a < 0x0100_0000 * unit_theirs) by (nonlinear_arith)
        requires
            a * divisor == top * unit_theirs,
            top < 0x0100_0000 * divisor,
            divisor > 0,
            unit_theirs > 0,
    ;
    assert(a < 0x0100_0000 * unit_mine) by (nonlinear_arith)
        requires
            a * down == up * unit_mine,
            up < 0x0100_0000 * down,
            down > 0,
            unit_mine > 0,
    ;
    if found > index {
        vstd::arithmetic::power2::lemma_pow2_unfold(found);
        if found - 1 > index {
            vstd::arithmetic::power2::lemma_pow2_strictly_increases(index, (found - 1) as nat);
        }
        assert(a >= 0x0080_0000 * unit_theirs) by (nonlinear_arith)
            requires
                a * divisor == top * unit_theirs,
                top >= 0x0080_0000 * divisor,
                divisor > 0,
                unit_theirs > 0,
        ;
        assert(unit_theirs >= 2 * unit_mine) by (nonlinear_arith)
            requires
                unit_theirs == theirs * b,
                unit_mine == mine * b,
                theirs >= 2 * mine,
                b > 0,
        ;
        assert(false);
    }
    if found < index {
        vstd::arithmetic::power2::lemma_pow2_unfold(index);
        if index - 1 > found {
            vstd::arithmetic::power2::lemma_pow2_strictly_increases(found, (index - 1) as nat);
        }
        assert(a >= 0x0080_0000 * unit_mine) by (nonlinear_arith)
            requires
                a * down == up * unit_mine,
                up >= 0x0080_0000 * down,
                down > 0,
                unit_mine > 0,
        ;
        assert(unit_mine >= 2 * unit_theirs) by (nonlinear_arith)
            requires
                unit_theirs == theirs * b,
                unit_mine == mine * b,
                mine >= 2 * theirs,
                b > 0,
        ;
        assert(false);
    }
    assert(found == index);
    // The same ratio in both forms.
    assert(top * down == up * divisor) by (nonlinear_arith)
        requires
            a * divisor == top * unit_mine,
            a * down == up * unit_mine,
            unit_mine > 0,
    ;
    lemma_round_half_even_of_equal_ratios(top as nat, divisor as nat, up as nat, down as nat);
}

/// Twice the least magnitude that rounds to an infinity, in units of 2^-149:
/// the greatest finite magnitude and half a step more, doubled.
pub open spec fn overflow_edge() -> nat {
    0x01FF_FFFF * pow2(253)
}

/// A ratio rounds to an infinity exactly where it reaches the middle between
/// the greatest finite number and the power of two above it.
#[verifier::rlimit(50)]
pub proof fn lemma_rounded_overflow(n: nat, d: nat, p: int)
    requires
        0 < n < 0x1_0000_0000_0000_0000,
        0 < d < 0x0100_0000,
    ensures
        rounded_bits(n, d, p) == INFINITY_BITS <==> 2 * exact_numerator(n, p) >= overflow_edge()
            * exact_denominator(d, p),
{
    lemma_raised(n, d);
    lemma_rounded_quotient(n, d, p);
    lemma_ratio_on_grid(n, d, p);
    let index = binade_index(n, d, p) as nat;
    let top = raised_numerator(n) as int;
    let divisor = (raised_divisor(d) * pow2((index - raised_scale(n, d, p)) as nat)) as int;
    let q = round_half_even(top as nat, divisor as nat) as int;
    let grid = pow2(index) as int;
    let last = pow2(253) as int;
    lemma_pow2_pos(index);
    lemma_pow2_pos(253);
    let a = exact_numerator(n, p) as int;
    let b = exact_denominator(d, p) as int;
    let u = grid * b;
    assert(u > 0) by (nonlinear_arith)
        requires
            u == grid * b,
            grid > 0,
            b > 0,
    ;
    assert(a * divisor == top * u);
    let edge = overflow_edge() as int;
    if index <= 252 {
        if index < 252 {
            vstd::arithmetic::power2::lemma_pow2_strictly_increases(index, 252);
        }
        vstd::arithmetic::power2::lemma_pow2_unfold(253);
        assert(a < 0x0100_0000 * u) by (nonlinear_arith)
            requires
                a * divisor == top * u,
                top < 0x0100_0000 * divisor,
                divisor > 0,
                u > 0,
        ;
        assert(0x0100_0000 * u <= 0x0080_0000 * (last * b)) by (nonlinear_arith)
            requires
                u == grid * b,
                2 * grid <= last,
                b > 0,
        ;
        assert(edge * b == 0x01FF_FFFF * (last * b)) by (nonlinear_arith)
            requires
                edge == 0x01FF_FFFF * last,
        ;
        assert(last * b > 0) by (nonlinear_arith)
            requires
                last > 0,
                b > 0,
        ;
    } else if index == 253 {
        let f = top / divisor;
        let rest = top % divisor;
        assert(top == divisor * f + rest && 0 <= rest < divisor) by {
            vstd::arithmetic::div_mod::lemma_fundamental_div_mod(top, divisor);
            vstd::arithmetic::div_mod::lemma_mod_bound(top, divisor);
        }
        assert(f < 0x0100_0000) by (nonlinear_arith)
            requires
                top == divisor * f + rest,
                0 <= rest,
                top < 0x0100_0000 * divisor,
                divisor > 0,
                f >= 0,
        ;
        // The quotient reaches 2^24 exactly where the ratio reaches the edge.
        assert(divisor * 0x00FF_FFFF == 0x00FF_FFFF * divisor) by (nonlinear_arith);
        if 2 * top >= 0x01FF_FFFF * divisor {
            assert(f >= 0x00FF_FFFF) by (nonlinear_arith)
                requires
                    top == divisor * f + rest,
                    rest < divisor,
                    2 * top >= 0x01FF_FFFF * divisor,
                    divisor > 0,
                    f >= 0,
            ;
            assert(q == 0x0100_0000);
        } else {
            if f == 0x00FF_FFFF {
                assert(2 * rest < divisor);
            }
            assert(q < 0x0100_0000);
        }
        assert((2 * a) * divisor == (2 * top) * u) by (nonlinear_arith)
            requires
                a * divisor == top * u,
        ;
        assert((edge * b) * divisor == (0x01FF_FFFF * divisor) * u) by (nonlinear_arith)
            requires
                edge == 0x01FF_FFFF * grid,
                u == grid * b,
        ;
        if 2 * top >= 0x01FF_FFFF * divisor {
            assert((2 * top) * u >= (0x01FF_FFFF * divisor) * u) by (nonlinear_arith)
                requires
                    2 * top >= 0x01FF_FFFF * divisor,
                    u > 0,
            ;
            assert(2 * a >= edge * b) by (nonlinear_arith)
                requires
                    (2 * a) * divisor >= (edge * b) * divisor,
                    divisor > 0,
            ;
        } else {
            assert((2 * top) * u < (0x01FF_FFFF * divisor) * u) by (nonlinear_arith)
                requires
                    2 * top < 0x01FF_FFFF * divisor,
                    u > 0,
            ;
            assert(2 * a < edge * b) by (nonlinear_arith)
                requires
                    (2 * a) * divisor < (edge * b) * divisor,
                    divisor > 0,
            ;
        }
    } else {
        if index > 254 {
            vstd::arithmetic::power2::lemma_pow2_strictly_increases(254, index);
        }
        vstd::arithmetic::power2::lemma_pow2_unfold(254);
        assert(a >= 0x0080_0000 * u) by (nonlinear_arith)
            requires
                a * divisor == top * u,
                top >= 0x0080_0000 * divisor,
                divisor > 0,
                u > 0,
        ;
        assert(0x0080_0000 * u >= 0x0100_0000 * (last * b)) by (nonlinear_arith)
            requires
                u == grid * b,
                grid >= 2 * last,
                b > 0,
        ;
        assert(edge * b == 0x01FF_FFFF * (last * b)) by (nonlinear_arith)
            requires
                edge == 0x01FF_FFFF * last,
        ;
        assert(last * b > 0) by (nonlinear_arith)
            requires
                last > 0,
                b > 0,
        ;
    }
}

} // verus!
