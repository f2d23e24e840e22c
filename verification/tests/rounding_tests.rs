use innards::rounding::length_of;
use innards::rounding::nearest_quotient;
use innards::rounding::power_of_two;
use innards::rounding::round_ratio;
use innards::scalar::Scalar;

fn scalar(x: f32) -> Scalar {
    Scalar::from_bits(x.to_bits())
}

#[test]
fn powers_of_two_double() {
    assert_eq!(power_of_two(0), 1);
    assert_eq!(power_of_two(1), 2);
    assert_eq!(power_of_two(10), 1024);
    assert_eq!(power_of_two(64), 1u128 << 64);
    assert_eq!(power_of_two(120), 1u128 << 120);
    for k in 0..=120u32 {
        assert_eq!(power_of_two(k), 1u128 << k);
    }
}

#[test]
fn length_counts_binary_digits() {
    assert_eq!(length_of(0), 0);
    assert_eq!(length_of(1), 1);
    assert_eq!(length_of(2), 2);
    assert_eq!(length_of(3), 2);
    assert_eq!(length_of(4), 3);
    assert_eq!(length_of(255), 8);
    assert_eq!(length_of(256), 9);
    assert_eq!(length_of(u64::MAX), 64);
    for k in 0..64u32 {
        assert_eq!(length_of(1u64 << k), k + 1);
        assert_eq!(length_of((1u64 << k) - 1), k);
    }
}

#[test]
fn quotients_round_to_the_nearest_and_ties_to_even() {
    assert_eq!(nearest_quotient(0, 7), 0);
    assert_eq!(nearest_quotient(3, 7), 0);
    assert_eq!(nearest_quotient(4, 7), 1);
    assert_eq!(nearest_quotient(7, 7), 1);
    assert_eq!(nearest_quotient(1, 2), 0);
    assert_eq!(nearest_quotient(3, 2), 2);
    assert_eq!(nearest_quotient(5, 2), 2);
    assert_eq!(nearest_quotient(7, 2), 4);
    assert_eq!(nearest_quotient(10, 4), 2);
    assert_eq!(nearest_quotient(14, 4), 4);
    assert_eq!(nearest_quotient(u128::MAX, 1), u128::MAX);
    assert_eq!(nearest_quotient(u128::MAX - 1, u128::MAX), 1);
    assert_eq!(nearest_quotient(100, 3), 33);
    assert_eq!(nearest_quotient(101, 3), 34);
}

#[test]
fn ratios_round_to_the_nearest_number() {
    // One unit of 2^-149 is the smallest positive number.
    assert_eq!(round_ratio(false, 1, 1, 0), Scalar::from_bits(1));
    assert_eq!(round_ratio(true, 1, 1, 0), Scalar::from_bits(0x8000_0001));
    // 2^149 units make one.
    assert_eq!(round_ratio(false, 1, 1, 149), scalar(1.0));
    assert_eq!(round_ratio(false, 3, 4, 149), scalar(0.75));
    assert_eq!(round_ratio(false, 1, 3, 149), scalar(1.0 / 3.0));
    assert_eq!(round_ratio(true, 2, 3, 149), scalar(-2.0 / 3.0));
    assert_eq!(round_ratio(false, 1, 10, 149), scalar(0.1));
    assert_eq!(round_ratio(false, 16777217, 1, 149), scalar(16777216.0));
    assert_eq!(round_ratio(false, 16777219, 1, 149), scalar(16777220.0));
    // Half a unit is a tie between zero and the smallest number: zero is even.
    assert_eq!(round_ratio(false, 1, 2, 0), scalar(0.0));
    assert_eq!(round_ratio(true, 1, 2, 0), scalar(-0.0));
    assert_eq!(round_ratio(false, 3, 2, 0), Scalar::from_bits(2));
    assert_eq!(round_ratio(false, 1, 1, -1), scalar(0.0));
    assert_eq!(round_ratio(false, 1, 1, -500), scalar(0.0));
    // The greatest finite number, and what lies beyond the middle above it.
    assert_eq!(round_ratio(false, 0x00FF_FFFF, 1, 253), scalar(f32::MAX));
    assert_eq!(round_ratio(false, 0x01FF_FFFE, 1, 252), scalar(f32::MAX));
    assert_eq!(round_ratio(false, 0x03FF_FFFD, 1, 251), scalar(f32::MAX));
    assert_eq!(round_ratio(false, 0x01FF_FFFF, 1, 252), scalar(f32::INFINITY));
    assert_eq!(round_ratio(true, 1, 1, 277), scalar(f32::NEG_INFINITY));
    assert_eq!(round_ratio(false, 1, 1, 1000), scalar(f32::INFINITY));
}

#[test]
fn ratios_agree_with_division_of_the_hardware() {
    let mut state: u64 = 0x2545_F491_4F6C_DD1D;
    for _ in 0..200000 {
        state ^= state << 13;
        state ^= state >> 7;
        state ^= state << 17;
        let n = (state >> 40) | 1;
        let d = ((state >> 8) & 0x00FF_FFFF) | 1;
        let expected = n as f32 / d as f32;
        assert_eq!(round_ratio(false, n, d, 149).to_bits(), expected.to_bits(), "{} / {}", n, d);
    }
}
