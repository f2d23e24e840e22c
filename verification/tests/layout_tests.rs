use innards::layout::element_heights;
use innards::layout::interleave_positions;
use innards::layout::intervals;
use innards::quad::pack;
use innards::quad::quad_vertices;
use innards::layout::square_side;
use innards::layout::wavelength;
use innards::layout::MIN_ELEMENT_COUNT;
use innards::quad::COMPONENTS_PER_VERTEX;
use innards::quad::QUAD_VERTEX_COUNT;
use innards::scalar::Scalar;

fn scalar(x: f32) -> Scalar {
    Scalar::from_bits(x.to_bits())
}

fn numbers(values: &[Scalar]) -> Vec<f32> {
    values.iter().map(|s| f32::from_bits(s.to_bits())).collect()
}

fn number(s: Scalar) -> f32 {
    f32::from_bits(s.to_bits())
}

// The heights as single-precision arithmetic of the machine gives them.
fn heights_of(element_count: usize, zoom: f32) -> Vec<Scalar> {
    (0..element_count)
        .map(|i| scalar((1.0 - zoom) / 2.0 + (i as f32) * zoom / (element_count as f32 - 1.0)))
        .collect()
}

fn same_numbers(ours: &[Scalar], theirs: &[Scalar]) {
    assert_eq!(ours.len(), theirs.len());
    for (a, b) in ours.iter().zip(theirs.iter()) {
        if number(*b).is_nan() {
            assert!(a.not_a_number());
        } else {
            assert_eq!(a, b);
        }
    }
}

#[test]
fn quad_is_the_unit_square_as_a_strip() {
    assert_eq!(numbers(&quad_vertices()), vec![-1.0, -1.0, -1.0, 1.0, 1.0, -1.0, 1.0, 1.0]);
}

#[test]
fn quad_has_four_vertices_of_two_coordinates() {
    assert_eq!(QUAD_VERTEX_COUNT, 4);
    assert_eq!(COMPONENTS_PER_VERTEX, 2);
    assert_eq!(quad_vertices().len() as i32, QUAD_VERTEX_COUNT * COMPONENTS_PER_VERTEX);
}

#[test]
fn packed_quad_is_the_memory_of_its_numbers() {
    let vertices: [f32; 8] = [-1.0, -1.0, -1.0, 1.0, 1.0, -1.0, 1.0, 1.0];
    let mut expected: Vec<u8> = Vec::new();
    for v in vertices {
        expected.extend_from_slice(&v.to_le_bytes());
    }
    let bytes = pack(&quad_vertices());
    assert_eq!(bytes.len(), 32);
    assert_eq!(bytes, expected);
}

#[test]
fn pack_of_nothing_is_empty() {
    assert_eq!(pack(&Vec::new()), Vec::<u8>::new());
}

#[test]
fn pack_keeps_the_order_of_the_scalars() {
    let values = vec![Scalar::from_bits(0x0403_0201), Scalar::from_bits(0x0807_0605)];
    assert_eq!(pack(&values), vec![1, 2, 3, 4, 5, 6, 7, 8]);
}

#[test]
fn every_x_coordinate_is_one_tenth() {
    for element_count in [2usize, 3, 5, 16, 257] {
        for zoom in [0.0f32, 0.5, 0.8, 1.0, 2.5] {
            let positions = interleave_positions(&heights_of(element_count, zoom));
            assert_eq!(positions.len(), 2 * element_count);
            for i in 0..element_count {
                assert_eq!(f32::from_bits(positions[2 * i].to_bits()), 0.1);
            }
        }
    }
}

#[test]
fn every_y_coordinate_is_the_height_of_its_element() {
    let heights = heights_of(5, 0.8);
    let positions = interleave_positions(&heights);
    for i in 0..5 {
        assert_eq!(positions[2 * i + 1], heights[i]);
    }
}

#[test]
fn positions_of_five_elements() {
    // Five elements over an extent of 0.8: from 0.1 to 0.9 in steps of 0.2.
    let positions = numbers(&interleave_positions(&heights_of(5, 0.8)));
    let expected: Vec<f32> = vec![
        0.1,
        (1.0 - 0.8) / 2.0,
        0.1,
        (1.0 - 0.8) / 2.0 + 1.0 * 0.8 / 4.0,
        0.1,
        (1.0 - 0.8) / 2.0 + 2.0 * 0.8 / 4.0,
        0.1,
        (1.0 - 0.8) / 2.0 + 3.0 * 0.8 / 4.0,
        0.1,
        (1.0 - 0.8) / 2.0 + 4.0 * 0.8 / 4.0,
    ];
    assert_eq!(positions, expected);
    assert!((positions[1] - 0.1).abs() < 1.0e-6);
    assert!((positions[9] - 0.9).abs() < 1.0e-6);
}

#[test]
fn two_elements_span_the_whole_extent() {
    let zoom: f32 = 0.5;
    let positions = numbers(&interleave_positions(&heights_of(2, zoom)));
    assert_eq!(positions, vec![0.1, 0.25, 0.1, 0.75]);
}

#[test]
fn positions_of_no_heights_are_empty() {
    assert_eq!(interleave_positions(&Vec::new()), Vec::<Scalar>::new());
}

#[test]
fn wavelength_is_zoom_by_intervals_by_spacing() {
    assert_eq!(wavelength(scalar(0.8), 5, scalar(2.0)), scalar(0.1));
    assert_eq!(number(wavelength(scalar(0.8), 5, scalar(2.0))), 0.8f32 / 4.0 / 2.0);
    for count in [2usize, 3, 4, 5, 7, 16, 100, 1000, 16777217] {
        for zoom in [0.0f32, 0.1, 0.5, 0.8, 1.0, 3.0, -1.0, 1.0e-40, 3.0e38] {
            for spacing in [0.5f32, 1.0, 2.0, 3.0, 0.001, -4.0, 1.0e-39, 1.0e38] {
                assert_eq!(
                    number(wavelength(scalar(zoom), count, scalar(spacing))),
                    zoom / (count as f32 - 1.0) / spacing,
                    "{} elements, zoom {}, spacing {}",
                    count,
                    zoom,
                    spacing
                );
            }
        }
    }
}

#[test]
fn intervals_are_one_fewer_than_elements() {
    assert_eq!(intervals(2), scalar(1.0));
    assert_eq!(intervals(5), scalar(4.0));
    assert_eq!(intervals(1), scalar(0.0));
    assert_eq!(intervals(0), scalar(-1.0));
    assert_eq!(number(intervals(16777217)), 16777217usize as f32 - 1.0);
    assert_eq!(MIN_ELEMENT_COUNT, 2);
}

#[test]
fn heights_are_those_of_the_formula() {
    for element_count in [2usize, 3, 4, 5, 6, 7, 10, 33, 100, 257] {
        for zoom in [0.0f32, 0.1, 0.3, 0.5, 0.8, 1.0, 1.7, 2.5, -0.6, 1.0e-30, 1.0e30] {
            same_numbers(&element_heights(element_count, scalar(zoom)), &heights_of(element_count, zoom));
        }
    }
}

#[test]
fn heights_run_from_the_lower_to_the_upper_end_of_the_extent() {
    // Five elements over an extent of 0.8: 0.1, 0.3, 0.5, 0.7, 0.9 up to rounding.
    let heights = element_heights(5, scalar(0.8));
    assert_eq!(heights.len(), 5);
    let expected = [0.1f32, 0.3, 0.5, 0.7, 0.9];
    for i in 0..5 {
        assert!((number(heights[i]) - expected[i]).abs() < 1.0e-6);
    }
    assert_eq!(number(heights[0]), (1.0f32 - 0.8) / 2.0);
    assert_eq!(number(heights[4]), (1.0f32 - 0.8) / 2.0 + 4.0 * 0.8 / 4.0);
    for i in 1..5 {
        let step = number(heights[i]) - number(heights[i - 1]);
        assert!((step - 0.8 / 4.0).abs() < 1.0e-6);
    }
}

#[test]
fn two_elements_stand_at_the_ends_of_the_extent() {
    assert_eq!(element_heights(2, scalar(0.5)), vec![scalar(0.25), scalar(0.75)]);
    assert_eq!(element_heights(2, scalar(1.0)), vec![scalar(0.0), scalar(1.0)]);
}

#[test]
fn one_element_has_no_interval_to_divide_by() {
    // Outside what the renderer is asked for: zero intervals give no number.
    let heights = element_heights(1, scalar(0.8));
    assert_eq!(heights.len(), 1);
    assert!(heights[0].not_a_number());
    assert_eq!(wavelength(scalar(0.8), 1, scalar(2.0)), scalar(f32::INFINITY));
}

#[test]
fn rounding_keeps_the_steps_from_being_equal() {
    // Four elements over an extent of one: thirds are no single-precision numbers.
    let heights = element_heights(4, scalar(1.0));
    let first = number(heights[1]) - number(heights[0]);
    let last = number(heights[3]) - number(heights[2]);
    assert_ne!(first, last);
    assert!((first - last).abs() < 1.0e-7);
}

#[test]
fn square_side_is_the_smaller_of_scaled_width_and_height() {
    assert_eq!(square_side(scalar(800.0), scalar(300.0)), scalar(300.0));
    assert_eq!(square_side(scalar(400.0), scalar(500.0)), scalar(300.0));
    let sizes: Vec<f32> = vec![0.0, 1.0, 299.25, 400.0, 401.0, 1.0e30, 3.0e38, f32::INFINITY, -5.0];
    for w in &sizes {
        for h in &sizes {
            assert_eq!(number(square_side(scalar(*w), scalar(*h))), (0.75 * *w).min(*h));
        }
    }
}

#[test]
fn heights_are_evenly_spaced_where_nothing_rounds() {
    // Five elements over half the canvas: every step is a power of two.
    assert_eq!(
        numbers(&element_heights(5, scalar(0.5))),
        vec![0.25, 0.375, 0.5, 0.625, 0.75]
    );
    // Three elements over the whole canvas.
    assert_eq!(numbers(&element_heights(3, scalar(1.0))), vec![0.0, 0.5, 1.0]);
    // Nine elements over a quarter, centred.
    let heights = numbers(&element_heights(9, scalar(0.25)));
    for i in 0..9 {
        assert_eq!(heights[i], 0.375 + (i as f32) * 0.03125);
    }
}

#[test]
fn first_element_stands_at_the_lower_end() {
    for count in [2usize, 3, 7, 100] {
        for zoom in [0.0f32, 0.3, 0.8, 1.0, 2.0, -0.5, 1.0e30] {
            let heights = element_heights(count, scalar(zoom));
            assert_eq!(number(heights[0]), (1.0 - zoom) / 2.0);
        }
    }
}

#[test]
fn intervals_of_two_or_more_elements_are_positive() {
    for count in [2usize, 3, 4, 1000, 16777216, 16777217, usize::MAX] {
        assert!(number(intervals(count)) > 0.0);
    }
}
