use smoothie::binary64::Binary64;

fn scale(factor: f64, n: u32) -> u32 {
    Binary64::from_bits(factor.to_bits()).scale(n)
}

fn expected(factor: f64, n: u32) -> u32 {
    (f64::from(n) * factor) as u32
}

const NUMBERS: [u32; 14] = [
    0,
    1,
    2,
    3,
    5,
    10,
    11,
    64,
    1000,
    65535,
    1 << 31,
    4_000_000_001,
    u32::MAX - 1,
    u32::MAX,
];

#[test]
fn scaled_ceilings() {
    assert_eq!(scale(0.8, 10), 8);
    assert_eq!(scale(0.8, 11), 8);
    assert_eq!(scale(0.8, 8), 6);
    assert_eq!(scale(0.5, 7), 3);
    assert_eq!(scale(0.1, 9), 0);
    // The exact product lies just below 3, and 3 is the nearest value to it.
    assert_eq!(scale(0.3, 10), 3);
    // The exact product lies just below 29, and so does the nearest value to it.
    assert_eq!(scale(0.29, 100), 28);
}

#[test]
fn the_largest_fraction_gives_one_less() {
    let largest = 1.0 - f64::EPSILON / 2.0;
    for n in NUMBERS {
        assert_eq!(scale(largest, n), n.saturating_sub(1));
        assert_eq!(scale(largest, n), expected(largest, n));
    }
}

#[test]
fn special_factors() {
    for n in NUMBERS {
        for factor in [
            0.0,
            -0.0,
            1.0,
            -1.0,
            1.5,
            2.0,
            1e9,
            1e300,
            -1e300,
            f64::MAX,
            f64::MIN,
            f64::MIN_POSITIVE,
            5e-324,
            f64::INFINITY,
            f64::NEG_INFINITY,
            f64::NAN,
            -f64::NAN,
        ] {
            assert_eq!(scale(factor, n), expected(factor, n), "{} * {:?}", n, factor);
        }
    }
    assert_eq!(scale(f64::INFINITY, 1), u32::MAX);
    assert_eq!(scale(f64::NAN, 1), 0);
}

#[test]
fn any_pattern_scales_as_the_product_does() {
    let mut state: u64 = 1;
    for i in 0..400_000u64 {
        state = state.wrapping_mul(6364136223846793005).wrapping_add(1442695040888963407);
        let n = (state >> 32) as u32;
        let mixed = state ^ (state >> 29) ^ i;
        // Any pattern at all, and one near one with a full significand.
        let wild = f64::from_bits(mixed);
        let field = 0x3fe - i % 40;
        let near = f64::from_bits((field << 52) + mixed % (1 << 53));
        for factor in [wild, near] {
            assert_eq!(scale(factor, n), expected(factor, n), "{} * {:?}", n, factor);
            assert_eq!(scale(factor, n % 100), expected(factor, n % 100));
        }
    }
}

#[test]
fn hundredths_scale_as_the_product_does() {
    for percent in 1..100u32 {
        let factor = f64::from(percent) / 100.0;
        for n in 0..3000u32 {
            assert_eq!(scale(factor, n), expected(factor, n));
            assert!(scale(factor, n) <= n);
        }
    }
}
