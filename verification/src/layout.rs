//! Where the elements stand: a vertical row at one tenth of the canvas width,
//! evenly spaced over an extent that is centred on the canvas, and the numbers
//! that follow from it.
//!
//! All arithmetic is that of single-precision numbers, rounded at each step.

use vstd::prelude::*;
use crate::laws::is_exact_count;
use crate::laws::is_exact_difference;
use crate::laws::is_exact_product;
use crate::laws::is_exact_quotient;
use crate::laws::is_exact_sum;
use crate::laws::lemma_constant_values;
use crate::laws::lemma_count_is_nearest;
use crate::laws::lemma_difference_is_nearest;
use crate::laws::lemma_difference_overflow;
use crate::laws::lemma_finite_bound;
use crate::laws::lemma_half_is_a_number;
use crate::laws::lemma_sum_with_zero;
use crate::laws::lemma_zero_product;
use crate::laws::lemma_zero_quotient;
use crate::laws::lemma_three_quarters_is_finite;
use crate::laws::lemma_three_quarters_is_nearest;
use crate::laws::units_in_one;
use vstd::arithmetic::power2::pow2;
use crate::arithmetic::UNIT_EXPONENT;
use crate::nearest::lemma_rounded_bits_from_parts;
use crate::rounding::distance;
use crate::rounding::round_half_even;
use crate::rounding::rounded;
use crate::rounding::rounded_bits;
use crate::scalar::lemma_magnitude_order;
use crate::scalar::Scalar;
use crate::scalar::ONE_BITS;
use crate::scalar::ONE_TENTH_BITS;
use crate::scalar::THREE_QUARTERS_BITS;
use crate::scalar::TWO_BITS;
use crate::scalar::ZERO_BITS;

verus! {

/// The fewest elements that can be laid out: with one element there is no
/// interval to divide the extent by.
pub const MIN_ELEMENT_COUNT: usize = 2;

/// The number of intervals between `count` elements, as a single-precision
/// number: the count converted, less one.
pub open spec fn intervals_of(count: nat) -> Scalar {
    Scalar::of_count(count).sub_of(Scalar { bits: ONE_BITS })
}

/// The wavelength that belongs to `count` elements spread over an extent of
/// `zoom` with the given spacing: `zoom / (count - 1) / spacing`, each step
/// rounded.
pub open spec fn wavelength_of(zoom: Scalar, count: nat, spacing: Scalar) -> Scalar {
    zoom.div_of(intervals_of(count)).div_of(spacing)
}

/// The lower end of the extent: `(1 - zoom) / 2`, each step rounded.
pub open spec fn lower_end_of(zoom: Scalar) -> Scalar {
    (Scalar { bits: ONE_BITS }).sub_of(zoom).div_of(Scalar { bits: TWO_BITS })
}

/// The height of element `index` of `count` elements spread evenly over an
/// extent of `zoom` centred on the canvas:
/// `(1 - zoom) / 2 + index * zoom / (count - 1)`, each step rounded.
pub open spec fn height_of(index: nat, count: nat, zoom: Scalar) -> Scalar {
    lower_end_of(zoom).add_of(Scalar::of_count(index).mul_of(zoom).div_of(intervals_of(count)))
}

/// The heights of `count` elements, from the lowest.
pub open spec fn heights_of(count: nat, zoom: Scalar) -> Seq<Scalar> {
    Seq::new(count, |index: int| height_of(index as nat, count, zoom))
}

/// The side of the square canvas in a view of the given size: the smaller of
/// three quarters of the width and the height.
pub open spec fn square_side_of(width: Scalar, height: Scalar) -> Scalar {
    (Scalar { bits: THREE_QUARTERS_BITS }).mul_of(width).min_of(height)
}

/// The horizontal coordinate that every element shares: one tenth of the canvas
/// width.
pub open spec fn element_x() -> Scalar {
    Scalar { bits: ONE_TENTH_BITS }
}

/// The positions of the elements as the shader reads them: for each element its
/// horizontal coordinate, which is the same for all, then its height.
pub open spec fn element_positions(heights: Seq<Scalar>) -> Seq<Scalar> {
    Seq::new(
        2 * heights.len(),
        |k: int|
            if k % 2 == 0 {
                element_x()
            } else {
                heights[k / 2]
            },
    )
}

/// The number of intervals between `count` elements.
pub fn intervals(count: usize) -> (number: Scalar)
    ensures
        number == intervals_of(count as nat),
{
    Scalar::from_count(count).sub(Scalar::from_bits(ONE_BITS))
}

/// The wavelength that belongs to `count` elements spread over an extent of
/// `zoom` with the given spacing.
pub fn wavelength(zoom: Scalar, count: usize, spacing: Scalar) -> (length: Scalar)
    ensures
        length == wavelength_of(zoom, count as nat, spacing),
{
    zoom.div(intervals(count)).div(spacing)
}

/// The heights of `count` elements spread evenly over an extent of `zoom`
/// centred on the canvas.
pub fn element_heights(count: usize, zoom: Scalar) -> (heights: Vec<Scalar>)
    ensures
        heights@ == heights_of(count as nat, zoom),
{
    let one = Scalar::from_bits(ONE_BITS);
    let two = Scalar::from_bits(TWO_BITS);
    let base = one.sub(zoom).div(two);
    let between = intervals(count);
    let mut heights: Vec<Scalar> = Vec::new();
    let mut index: usize = 0;
    while index < count
        invariant
            index <= count,
            base == lower_end_of(zoom),
            between == intervals_of(count as nat),
            heights@ == Seq::new(index as nat, |i: int| height_of(i as nat, count as nat, zoom)),
        decreases count - index,
    {
        let height = base.add(Scalar::from_count(index).mul(zoom).div(between));
        heights.push(height);
        proof {
            assert(heights@ =~= Seq::new(
                (index + 1) as nat,
                |i: int| height_of(i as nat, count as nat, zoom),
            ));
        }
        index = index + 1;
    }
    heights
}

/// The side of the square canvas in a view of the given size.
pub fn square_side(width: Scalar, height: Scalar) -> (side: Scalar)
    ensures
        side == square_side_of(width, height),
{
    Scalar::from_bits(THREE_QUARTERS_BITS).mul(width).min(height)
}

/// Lays out the elements' positions from their heights.
pub fn interleave_positions(heights: &Vec<Scalar>) -> (positions: Vec<Scalar>)
    ensures
        positions@ == element_positions(heights@),
{
    let x = Scalar::from_bits(ONE_TENTH_BITS);
    let mut positions: Vec<Scalar> = Vec::new();
    let mut i: usize = 0;
    while i < heights.len()
        invariant
            i <= heights.len(),
            x == element_x(),
            positions@ == element_positions(heights@.subrange(0, i as int)),
        decreases heights.len() - i,
    {
        positions.push(x);
        positions.push(heights[i]);
        proof {
            let head = heights@.subrange(0, i as int);
            let next = heights@.subrange(0, i + 1);
            assert(positions@ =~= element_positions(next)) by {
                assert forall|k: int| 0 <= k < 2 * (i + 1) implies positions@[k]
                    == element_positions(next)[k] by {
                    if k < 2 * i {
                        assert(positions@[k] == element_positions(head)[k]);
                        assert(next[k / 2] == head[k / 2]);
                    }
                }
            }
        }
        i = i + 1;
    }
    assert(heights@.subrange(0, i as int) =~= heights@);
    positions
}

/// Between two or more elements there is an interval: the number of intervals
/// is a positive number, so that nothing is divided by zero.
#[verifier::rlimit(50)]
pub proof fn lemma_intervals_are_positive(count: nat)
    requires
        MIN_ELEMENT_COUNT <= count < 0x1_0000_0000_0000_0000,
    ensures
        intervals_of(count).is_finite(),
        !intervals_of(count).is_zero(),
        intervals_of(count).value() > 0,
{
    lemma_constant_values();
    let one = Scalar { bits: ONE_BITS };
    let two = Scalar { bits: TWO_BITS };
    let u = units_in_one() as int;
    let converted = Scalar::of_count(count);
    lemma_count_is_nearest(count, two);
    assert(count * u >= 2 * u) by (nonlinear_arith)
        requires
            count >= 2,
            u > 0,
    ;
    // No count of two or more converts to less than two.
    assert(converted.value() >= 2 * u);
    lemma_finite_bound(converted);
    lemma_difference_overflow(converted, one);
    lemma_difference_is_nearest(converted, one, one);
    let between = intervals_of(count);
    let none = Scalar { bits: ZERO_BITS };
    assert(none.magnitude() == 0);
    lemma_magnitude_order(between, none);
}

/// The first of two or more elements stands at the lower end of the extent,
/// whatever rounds.
#[verifier::rlimit(50)]
pub proof fn lemma_first_height(count: nat, zoom: Scalar)
    requires
        MIN_ELEMENT_COUNT <= count < 0x1_0000_0000_0000_0000,
        zoom.is_finite(),
    ensures
        !lower_end_of(zoom).is_nan(),
        height_of(0, count, zoom).value() == lower_end_of(zoom).value(),
{
    lemma_intervals_are_positive(count);
    let one = Scalar { bits: ONE_BITS };
    assert(one.magnitude_bits() == ONE_BITS);
    lemma_difference_overflow(one, zoom);
    lemma_half_is_a_number(one.sub_of(zoom));
    let none = Scalar::of_count(0);
    assert(none.is_zero());
    lemma_zero_product(none, zoom);
    lemma_zero_quotient(none.mul_of(zoom), intervals_of(count));
    lemma_sum_with_zero(lower_end_of(zoom), none.mul_of(zoom).div_of(intervals_of(count)));
}

/// Whether no step of the height of element `index` rounds: the counts are
/// single-precision numbers, and each difference, quotient, product and sum is
/// exact.
pub open spec fn layout_is_exact(index: nat, count: nat, zoom: Scalar) -> bool {
    let one = Scalar { bits: ONE_BITS };
    let two = Scalar { bits: TWO_BITS };
    let rise = Scalar::of_count(index).mul_of(zoom);
    &&& is_exact_count(count)
    &&& is_exact_count(index)
    &&& is_exact_difference(Scalar::of_count(count), one)
    &&& is_exact_difference(one, zoom)
    &&& is_exact_quotient(one.sub_of(zoom), two)
    &&& is_exact_product(Scalar::of_count(index), zoom)
    &&& is_exact_quotient(rise, intervals_of(count))
    &&& is_exact_sum(lower_end_of(zoom), rise.div_of(intervals_of(count)))
}

/// Where no step rounds, the heights are evenly spaced over the extent: with
/// `y` the height of element `index`, `z` the zoom and values in units of which
/// `u` make one, `y = (u - z) / 2 + index * z / (count - 1)`. So the first
/// element stands at `(u - z) / 2`, the last at `(u - z) / 2 + z`, and each
/// stands `z / (count - 1)` above the one before. The equation is stated after
/// multiplying by `2 * (count - 1)`.
#[verifier::rlimit(50)]
pub proof fn lemma_heights_evenly_spaced(index: nat, count: nat, zoom: Scalar)
    requires
        layout_is_exact(index, count, zoom),
    ensures
        2 * (count - 1) * height_of(index, count, zoom).value() == (count - 1) * (units_in_one()
            - zoom.value()) + 2 * index * zoom.value(),
{
    lemma_constant_values();
    let one = Scalar { bits: ONE_BITS };
    let two = Scalar { bits: TWO_BITS };
    let u = units_in_one() as int;
    let z = zoom.value();
    let n = count as int;
    let i = index as int;
    let between = intervals_of(count).value();
    let lean = one.sub_of(zoom).value();
    let base = one.sub_of(zoom).div_of(two).value();
    let rise = Scalar::of_count(index).mul_of(zoom).value();
    let step = Scalar::of_count(index).mul_of(zoom).div_of(intervals_of(count)).value();
    let y = height_of(index, count, zoom).value();
    assert(between == n * u - u);
    assert(lean == u - z);
    assert(base * (2 * u) == lean * u);
    assert(rise * u == (i * u) * z);
    assert(step * between == rise * u);
    assert(y == base + step);
    assert(2 * base == lean) by (nonlinear_arith)
        requires
            base * (2 * u) == lean * u,
            u > 0,
    ;
    assert(rise == i * z) by (nonlinear_arith)
        requires
            rise * u == (i * u) * z,
            u > 0,
    ;
    assert(step * (n - 1) == i * z) by (nonlinear_arith)
        requires
            step * between == rise * u,
            between == n * u - u,
            rise == i * z,
            u > 0,
    ;
    assert(2 * (n - 1) * y == (n - 1) * (u - z) + 2 * i * z) by (nonlinear_arith)
        requires
            y == base + step,
            2 * base == lean,
            lean == u - z,
            step * (n - 1) == i * z,
    ;
}

/// The horizontal coordinate of the elements is the single-precision number
/// nearest to one tenth.
pub proof fn lemma_element_x_is_one_tenth()
    ensures
        element_x() == rounded(false, 1, 10, UNIT_EXPONENT as int),
        ONE_TENTH_BITS == rounded_bits(1, 10, UNIT_EXPONENT as int),
{
    assert(pow2(27) == 0x0800_0000) by {
        vstd::arithmetic::power2::lemma2_to64();
    }
    assert(round_half_even(0x0800_0000, 10) == 0x00CC_CCCD);
    lemma_rounded_bits_from_parts(1, 10, UNIT_EXPONENT as int, 122);
}

/// Every element has the same horizontal coordinate, and element `i` has the
/// `i`-th height: the layout moves no element and mixes no two.
pub proof fn lemma_positions_layout(heights: Seq<Scalar>, i: int)
    requires
        0 <= i < heights.len(),
    ensures
        element_positions(heights).len() == 2 * heights.len(),
        element_positions(heights)[2 * i] == element_x(),
        element_positions(heights)[2 * i + 1] == heights[i],
{
}

/// The side of the square canvas is one of the two it is chosen from and exceeds
/// neither: the height, and the number nearest to three quarters of the width,
/// than which no finite number `t` is nearer.
#[verifier::rlimit(50)]
pub proof fn lemma_square_side(width: Scalar, height: Scalar, t: Scalar)
    requires
        width.is_finite(),
        !height.is_nan(),
        t.is_finite(),
    ensures
        square_side_of(width, height) == (Scalar { bits: THREE_QUARTERS_BITS }).mul_of(width)
            || square_side_of(width, height) == height,
        square_side_of(width, height).value() <= height.value(),
        square_side_of(width, height).value() <= (Scalar { bits: THREE_QUARTERS_BITS }).mul_of(
            width,
        ).value(),
        distance(4 * (Scalar { bits: THREE_QUARTERS_BITS }).mul_of(width).value(), 3 * width.value())
            <= distance(4 * t.value(), 3 * width.value()),
{
    lemma_three_quarters_is_finite(width);
    lemma_three_quarters_is_nearest(width, t);
}

} // verus!
