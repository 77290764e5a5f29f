use cortex_client::ieee::{double_finite, unsigned_to_double, single_finite, single_to_double};

#[test]
fn finite_singles_are_told_from_the_others() {
    assert!(single_finite(0.0f32.to_bits()));
    assert!(single_finite((-1.5f32).to_bits()));
    assert!(single_finite(f32::MAX.to_bits()));
    assert!(single_finite(f32::MIN_POSITIVE.to_bits()));
    assert!(!single_finite(f32::INFINITY.to_bits()));
    assert!(!single_finite(f32::NEG_INFINITY.to_bits()));
    assert!(!single_finite(f32::NAN.to_bits()));
}

#[test]
fn finite_doubles_are_told_from_the_others() {
    assert!(double_finite(0.0f64.to_bits()));
    assert!(double_finite((-2.25f64).to_bits()));
    assert!(double_finite(f64::MAX.to_bits()));
    assert!(!double_finite(f64::INFINITY.to_bits()));
    assert!(!double_finite(f64::NEG_INFINITY.to_bits()));
    assert!(!double_finite(f64::NAN.to_bits()));
}

#[test]
fn widening_agrees_with_the_machine() {
    let samples: Vec<f32> = vec![
        0.0,
        -0.0,
        1.0,
        -1.0,
        1.5,
        0.1,
        -3.1415927,
        f32::MAX,
        f32::MIN,
        f32::MIN_POSITIVE,
        f32::EPSILON,
        f32::from_bits(1),
        f32::from_bits(0x0000_0003),
        f32::from_bits(0x007f_ffff),
        f32::from_bits(0x0040_0000),
        f32::from_bits(0x8000_0001),
        f32::from_bits(0x0080_0000),
        16777216.0,
        1.0e-40,
    ];
    for x in samples {
        assert_eq!(single_to_double(x.to_bits()), Some((x as f64).to_bits()), "widening {:e}", x);
    }
}

#[test]
fn widening_every_subnormal_shift_agrees_with_the_machine() {
    let mut bits: u32 = 1;
    while bits < 0x0100_0000 {
        assert_eq!(single_to_double(bits), Some((f32::from_bits(bits) as f64).to_bits()));
        assert_eq!(
            single_to_double(bits | 0x8000_0000),
            Some((f32::from_bits(bits | 0x8000_0000) as f64).to_bits())
        );
        bits = bits * 2 + (bits % 3);
    }
}

#[test]
fn large_unsigned_integers_round_to_the_nearest_double() {
    let samples: Vec<u64> = vec![
        1u64 << 63,
        (1u64 << 63) + 1,
        (1u64 << 63) + 1024,
        (1u64 << 63) + 1025,
        (1u64 << 63) + 2048,
        (1u64 << 63) + 3072,
        (1u64 << 63) + 3071,
        (1u64 << 63) + 3073,
        u64::MAX,
        u64::MAX - 1023,
        u64::MAX - 1024,
        u64::MAX - 2047,
        12345678901234567890,
        0,
        1,
        2,
        3,
        (1u64 << 53) - 1,
        1u64 << 53,
        (1u64 << 53) + 1,
        (1u64 << 53) + 2,
        (1u64 << 53) + 3,
        (1u64 << 54) + 2,
        (1u64 << 54) + 6,
        (1u64 << 54) - 1,
        (1u64 << 62) + (1u64 << 9),
        (1u64 << 62) + (1u64 << 9) + 1,
        (1u64 << 62) + 3 * (1u64 << 9),
        i64::MAX as u64,
        1000000007,
        9007199254740993,
    ];
    for n in samples {
        assert_eq!(unsigned_to_double(n), (n as f64).to_bits(), "converting {}", n);
    }
}

#[test]
fn the_largest_unsigned_integer_becomes_two_to_the_64() {
    assert_eq!(unsigned_to_double(u64::MAX), 18446744073709551616.0f64.to_bits());
    assert_eq!(unsigned_to_double(1u64 << 63), 9223372036854775808.0f64.to_bits());
}

#[test]
fn a_single_that_is_no_finite_number_has_no_double() {
    for x in [f32::INFINITY, f32::NEG_INFINITY, f32::NAN] {
        assert_eq!(single_to_double(x.to_bits()), None);
    }
    assert_eq!(single_to_double(0x7f80_0001), None);
    assert_eq!(single_to_double(0xffff_ffff), None);
    assert_eq!(single_to_double(0x7f7f_ffff), Some((f32::MAX as f64).to_bits()));
}
