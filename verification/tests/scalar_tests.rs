use innards::scalar::Scalar;
use innards::scalar::INFINITY_BITS;
use innards::scalar::MINUS_ONE_BITS;
use innards::scalar::ONE_BITS;
use innards::scalar::ONE_TENTH_BITS;
use innards::scalar::SIGN_BIT;
use innards::scalar::ZERO_BITS;

fn scalar(x: f32) -> Scalar {
    Scalar::from_bits(x.to_bits())
}

fn number(s: Scalar) -> f32 {
    f32::from_bits(s.to_bits())
}

fn samples() -> Vec<f32> {
    vec![
        0.0,
        -0.0,
        1.0,
        -1.0,
        0.1,
        -0.1,
        0.75,
        300.0,
        600.0,
        500.0,
        1.0e-45,
        -1.0e-45,
        1.1754942e-38,
        1.17549435e-38,
        -1.17549435e-38,
        3.4028235e38,
        -3.4028235e38,
        f32::INFINITY,
        f32::NEG_INFINITY,
        16777216.0,
        16777218.0,
        0.99999994,
        1.0000001,
    ]
}

#[test]
fn constants_are_the_bit_patterns_of_their_numbers() {
    assert_eq!(f32::from_bits(ZERO_BITS), 0.0);
    assert_eq!(ZERO_BITS, 0.0f32.to_bits());
    assert_eq!(ONE_BITS, 1.0f32.to_bits());
    assert_eq!(MINUS_ONE_BITS, (-1.0f32).to_bits());
    assert_eq!(ONE_TENTH_BITS, 0.1f32.to_bits());
    assert_eq!(INFINITY_BITS, f32::INFINITY.to_bits());
    assert_eq!(SIGN_BIT, (-0.0f32).to_bits());
}

#[test]
fn bits_round_trip() {
    for x in samples() {
        assert_eq!(scalar(x).to_bits(), x.to_bits());
        assert_eq!(Scalar::from_bits(x.to_bits()).bits, x.to_bits());
    }
}

#[test]
fn not_a_number_agrees_with_the_hardware() {
    for x in samples() {
        assert!(!scalar(x).not_a_number());
    }
    assert!(scalar(f32::NAN).not_a_number());
    assert!(Scalar::from_bits(0x7F80_0001).not_a_number());
    assert!(Scalar::from_bits(0xFFFF_FFFF).not_a_number());
    assert!(Scalar::from_bits(0xFF80_0001).not_a_number());
    assert!(!Scalar::from_bits(0x7F80_0000).not_a_number());
    assert!(!Scalar::from_bits(0xFF80_0000).not_a_number());
    let mut bits: u32 = 0;
    for _ in 0..20000 {
        bits = bits.wrapping_mul(1664525).wrapping_add(1013904223);
        assert_eq!(Scalar::from_bits(bits).not_a_number(), f32::from_bits(bits).is_nan());
    }
}

#[test]
fn less_than_agrees_with_the_hardware() {
    assert!(!scalar(f32::NAN).less_than(scalar(1.0)));
    assert!(!scalar(1.0).less_than(scalar(f32::NAN)));
    assert!(!scalar(-0.0).less_than(scalar(0.0)));
    assert!(scalar(-1.0).less_than(scalar(0.0)));
    for a in samples() {
        for b in samples() {
            assert_eq!(scalar(a).less_than(scalar(b)), a < b, "{} < {}", a, b);
        }
    }
    let mut bits: u32 = 12345;
    for _ in 0..20000 {
        bits = bits.wrapping_mul(1664525).wrapping_add(1013904223);
        let a = f32::from_bits(bits);
        bits = bits.wrapping_mul(1664525).wrapping_add(1013904223);
        let b = f32::from_bits(bits);
        assert_eq!(scalar(a).less_than(scalar(b)), a < b, "{} < {}", a, b);
    }
}

#[test]
fn min_agrees_with_the_hardware() {
    for a in samples() {
        for b in samples() {
            let least = number(scalar(a).min(scalar(b)));
            assert_eq!(least, a.min(b), "min({}, {})", a, b);
        }
    }
    let mut bits: u32 = 999;
    for _ in 0..20000 {
        bits = bits.wrapping_mul(1664525).wrapping_add(1013904223);
        let a = f32::from_bits(bits);
        bits = bits.wrapping_mul(1664525).wrapping_add(1013904223);
        let b = f32::from_bits(bits);
        let least = number(scalar(a).min(scalar(b)));
        if a.is_nan() && b.is_nan() {
            assert!(least.is_nan());
        } else {
            assert_eq!(least, a.min(b), "min({}, {})", a, b);
        }
    }
}

#[test]
fn min_yields_to_the_operand_that_is_a_number() {
    let nan = scalar(f32::NAN);
    assert_eq!(scalar(300.0).min(nan), scalar(300.0));
    assert_eq!(nan.min(scalar(300.0)), scalar(300.0));
    assert!(nan.min(nan).not_a_number());
}

#[test]
fn min_takes_the_first_of_two_equal_numbers() {
    assert_eq!(scalar(0.0).min(scalar(-0.0)), scalar(0.0));
    assert_eq!(scalar(-0.0).min(scalar(0.0)), scalar(-0.0));
    assert_eq!(scalar(2.5).min(scalar(2.5)), scalar(2.5));
}

#[test]
fn min_of_typical_view_sizes() {
    assert_eq!(number(scalar(0.75 * 800.0).min(scalar(300.0))), 300.0);
    assert_eq!(number(scalar(0.75 * 400.0).min(scalar(500.0))), 300.0);
}

#[test]
fn push_le_bytes_appends_four_bytes_least_significant_first() {
    let mut out: Vec<u8> = vec![7];
    Scalar::from_bits(0x1234_5678).push_le_bytes(&mut out);
    assert_eq!(out, vec![7, 0x78, 0x56, 0x34, 0x12]);
    for x in samples() {
        let mut bytes: Vec<u8> = Vec::new();
        scalar(x).push_le_bytes(&mut bytes);
        assert_eq!(bytes, x.to_le_bytes().to_vec());
    }
}

#[test]
fn zeros_vanish_and_numbers_short_of_infinity_are_finite() {
    assert!(scalar(0.0).vanishes());
    assert!(scalar(-0.0).vanishes());
    assert!(!Scalar::from_bits(1).vanishes());
    assert!(!scalar(f32::NAN).vanishes());
    for x in samples() {
        assert_eq!(scalar(x).vanishes(), x == 0.0);
        assert_eq!(scalar(x).finite(), x.is_finite());
    }
    assert!(!scalar(f32::NAN).finite());
    assert!(!scalar(f32::INFINITY).finite());
    assert!(scalar(f32::MAX).finite());
}
