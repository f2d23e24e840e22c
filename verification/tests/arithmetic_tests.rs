use innards::scalar::Scalar;

fn scalar(x: f32) -> Scalar {
    Scalar::from_bits(x.to_bits())
}

fn same(ours: Scalar, theirs: f32, what: &str, a: u32, b: u32) {
    if theirs.is_nan() {
        assert!(ours.not_a_number(), "{} of {:#010x} and {:#010x}", what, a, b);
    } else {
        assert_eq!(ours.to_bits(), theirs.to_bits(), "{} of {:#010x} and {:#010x}", what, a, b);
    }
}

fn check_pair(a: u32, b: u32) {
    let x = f32::from_bits(a);
    let y = f32::from_bits(b);
    let p = Scalar::from_bits(a);
    let q = Scalar::from_bits(b);
    same(p.add(q), x + y, "sum", a, b);
    same(p.sub(q), x - y, "difference", a, b);
    same(p.mul(q), x * y, "product", a, b);
    same(p.div(q), x / y, "quotient", a, b);
}

fn edge_patterns() -> Vec<u32> {
    let mut patterns: Vec<u32> = vec![
        0x0000_0000,
        0x0000_0001,
        0x0000_0002,
        0x0000_0003,
        0x0040_0000,
        0x007F_FFFF,
        0x0080_0000,
        0x0080_0001,
        0x00FF_FFFF,
        0x0100_0000,
        0x3380_0000,
        0x3400_0000,
        0x3EAA_AAAB,
        0x3F00_0000,
        0x3F40_0000,
        0x3F7F_FFFF,
        0x3F80_0000,
        0x3F80_0001,
        0x3FC0_0000,
        0x4000_0000,
        0x4040_0000,
        0x4B00_0000,
        0x4B7F_FFFF,
        0x4B80_0000,
        0x5F00_0000,
        0x7E80_0000,
        0x7F00_0000,
        0x7F7F_FFFE,
        0x7F7F_FFFF,
        0x7F80_0000,
        0x7F80_0001,
        0x7FC0_0000,
        0x7FFF_FFFF,
        0.1f32.to_bits(),
        0.8f32.to_bits(),
        0.2f32.to_bits(),
        300.0f32.to_bits(),
    ];
    let negatives: Vec<u32> = patterns.iter().map(|p| p | 0x8000_0000).collect();
    patterns.extend(negatives);
    patterns
}

struct Shuffle {
    state: u64,
}

impl Shuffle {
    fn next(&mut self) -> u32 {
        self.state ^= self.state << 13;
        self.state ^= self.state >> 7;
        self.state ^= self.state << 17;
        (self.state >> 16) as u32
    }
}

#[test]
fn arithmetic_agrees_with_the_hardware_at_the_edges() {
    let patterns = edge_patterns();
    for a in &patterns {
        for b in &patterns {
            check_pair(*a, *b);
        }
    }
}

#[test]
fn arithmetic_agrees_with_the_hardware_on_any_patterns() {
    let mut shuffle = Shuffle { state: 0x9E37_79B9_7F4A_7C15 };
    for _ in 0..300000 {
        check_pair(shuffle.next(), shuffle.next());
    }
}

#[test]
fn arithmetic_agrees_with_the_hardware_on_near_exponents() {
    // Operands whose exponents lie close together, where sums cancel and round.
    let mut shuffle = Shuffle { state: 0x1234_5678_9ABC_DEF1 };
    for _ in 0..300000 {
        let a = shuffle.next();
        let fraction = shuffle.next() & 0x007F_FFFF;
        let exponent = ((a >> 23) & 0xFF) as i32;
        let shift = (shuffle.next() % 61) as i32 - 30;
        let other = (exponent + shift).clamp(0, 255) as u32;
        let sign = shuffle.next() & 0x8000_0000;
        check_pair(a, sign | (other << 23) | fraction);
    }
}

#[test]
fn arithmetic_agrees_with_the_hardware_on_the_smallest_numbers() {
    let mut shuffle = Shuffle { state: 0x0F0F_1234_5678_9ABD };
    for _ in 0..200000 {
        let a = shuffle.next() & 0x81FF_FFFF;
        let b = shuffle.next() & 0x81FF_FFFF;
        check_pair(a, b);
        check_pair(a, b | 0x3F00_0000);
        check_pair(a | 0x3F00_0000, b);
    }
}

#[test]
fn counts_convert_as_the_hardware_converts_them() {
    let mut counts: Vec<usize> = vec![
        0,
        1,
        2,
        3,
        4,
        5,
        16777215,
        16777216,
        16777217,
        16777218,
        16777219,
        33554431,
        33554433,
        4294967295,
        usize::MAX,
        usize::MAX - 1,
        usize::MAX / 2,
        usize::MAX / 2 + 1,
    ];
    let mut shuffle = Shuffle { state: 0xABCD_EF01_2345_6789 };
    for _ in 0..100000 {
        let wide = ((shuffle.next() as u64) << 32) | shuffle.next() as u64;
        counts.push((wide >> (shuffle.next() % 64)) as usize);
    }
    for count in counts {
        assert_eq!(Scalar::from_count(count).to_bits(), (count as f32).to_bits(), "{}", count);
    }
}

#[test]
fn negate_flips_the_sign_only() {
    assert_eq!(scalar(1.5).negate(), scalar(-1.5));
    assert_eq!(scalar(-0.0).negate(), scalar(0.0));
    assert_eq!(scalar(0.0).negate(), scalar(-0.0));
    assert_eq!(scalar(f32::INFINITY).negate(), scalar(f32::NEG_INFINITY));
    assert_eq!(Scalar::from_bits(0x7FC0_0001).negate(), Scalar::from_bits(0xFFC0_0001));
}

#[test]
fn wavelength_of_five_elements() {
    let zoom = scalar(0.8);
    let spacing = scalar(2.0);
    let intervals = Scalar::from_count(5).sub(scalar(1.0));
    assert_eq!(intervals, scalar(4.0));
    assert_eq!(zoom.div(intervals).div(spacing), scalar(0.1));
    assert_eq!(zoom.div(intervals).div(spacing).to_bits(), (0.8f32 / 4.0 / 2.0).to_bits());
}

#[test]
fn division_by_zero_intervals_is_an_infinity() {
    let intervals = Scalar::from_count(1).sub(scalar(1.0));
    assert_eq!(intervals, scalar(0.0));
    assert_eq!(scalar(0.8).div(intervals), scalar(f32::INFINITY));
    assert!(scalar(0.0).div(intervals).not_a_number());
}

#[test]
fn three_quarters_of_typical_widths() {
    let factor = scalar(0.75);
    assert_eq!(factor.mul(scalar(800.0)), scalar(600.0));
    assert_eq!(factor.mul(scalar(400.0)), scalar(300.0));
    let mut shuffle = Shuffle { state: 0x7777_1234_5678_0001 };
    for _ in 0..100000 {
        let bits = shuffle.next();
        same(factor.mul(Scalar::from_bits(bits)), 0.75 * f32::from_bits(bits), "product", 0x3F40_0000, bits);
    }
}
