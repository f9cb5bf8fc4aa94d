use pathtracer::pattern::{abs, equal, less_than, EPSILON, INFINITY, ONE, SIGN, ZERO};

fn samples() -> Vec<f64> {
    vec![
        0.0,
        -0.0,
        1.0,
        -1.0,
        0.0001,
        -0.0001,
        0.5,
        2.0,
        255.0,
        1e-300,
        -1e-300,
        5e-324,
        -5e-324,
        1e300,
        -1e300,
        f64::MAX,
        f64::MIN,
        f64::MIN_POSITIVE,
        f64::INFINITY,
        f64::NEG_INFINITY,
        f64::NAN,
        -f64::NAN,
        f64::from_bits(0x7ff0_0000_0000_0001),
        f64::from_bits(0xffff_ffff_ffff_ffff),
        3.141592653589793,
        -2.718281828459045,
    ]
}

#[test]
fn constants_are_the_patterns_of_their_numbers() {
    assert_eq!(f64::from_bits(ZERO), 0.0);
    assert_eq!(f64::from_bits(ONE), 1.0);
    assert_eq!(f64::from_bits(EPSILON), 0.0001);
    assert_eq!(f64::from_bits(INFINITY), f64::INFINITY);
    assert_eq!(SIGN, (-0.0f64).to_bits());
}

#[test]
fn less_than_orders_as_the_numbers_do() {
    for a in samples() {
        for b in samples() {
            assert_eq!(less_than(a.to_bits(), b.to_bits()), a < b, "{} < {}", a, b);
        }
    }
}

#[test]
fn equal_is_equality_of_the_numbers() {
    for a in samples() {
        for b in samples() {
            assert_eq!(equal(a.to_bits(), b.to_bits()), a == b, "{} == {}", a, b);
        }
    }
}

#[test]
fn abs_is_the_absolute_value() {
    for a in samples() {
        assert_eq!(abs(a.to_bits()), a.abs().to_bits(), "{}", a);
    }
}

#[test]
fn the_two_zeros_are_equal_and_neither_is_less() {
    assert!(equal(ZERO, SIGN));
    assert!(!less_than(SIGN, ZERO));
    assert!(!less_than(ZERO, SIGN));
}

#[test]
fn what_is_no_number_compares_with_nothing() {
    let nan = f64::NAN.to_bits();
    assert!(!less_than(nan, ONE));
    assert!(!less_than(ONE, nan));
    assert!(!equal(nan, nan));
}

#[test]
fn order_on_many_numbers() {
    let mut x: u64 = 0x9e37_79b9_7f4a_7c15;
    let mut values = Vec::new();
    for _ in 0..300 {
        x ^= x << 13;
        x ^= x >> 7;
        x ^= x << 17;
        values.push(x);
    }
    for &a in &values {
        for &b in &values {
            let (fa, fb) = (f64::from_bits(a), f64::from_bits(b));
            assert_eq!(less_than(a, b), fa < fb);
            assert_eq!(equal(a, b), fa == fb);
        }
    }
}
