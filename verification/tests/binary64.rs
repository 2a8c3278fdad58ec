use smoothie::binary64::Binary64;

fn binary(x: f64) -> Binary64 {
    Binary64::from_bits(x.to_bits())
}

#[test]
fn compares_as_the_numbers_do() {
    let values = [
        f64::NEG_INFINITY,
        f64::MIN,
        -1.5,
        -1.0,
        -f64::MIN_POSITIVE,
        -5e-324,
        -0.0,
        0.0,
        5e-324,
        f64::MIN_POSITIVE,
        0.1,
        1.0,
        1.5,
        1e300,
        f64::MAX,
        f64::INFINITY,
        f64::NAN,
        -f64::NAN,
    ];
    for a in values {
        for b in values {
            assert_eq!(binary(a).is_less(binary(b)), a < b, "{} < {}", a, b);
            assert_eq!(binary(a).is_at_least(binary(b)), a >= b, "{} >= {}", a, b);
        }
        assert_eq!(binary(a).is_positive(), a > 0.0);
        assert_eq!(binary(a).is_finite(), a.is_finite());
    }
}

#[test]
fn constants_hold_their_patterns() {
    assert_eq!(Binary64::zero().bits, 0.0f64.to_bits());
    assert_eq!(Binary64::one().bits, 1.0f64.to_bits());
}
