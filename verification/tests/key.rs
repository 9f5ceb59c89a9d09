use elktracer::key::{INFINITY, SIGN_BIT};
use elktracer::{bits_of_key, is_number, key_of_bits, Interval};

fn key(value: f64) -> i64 {
    key_of_bits(value.to_bits())
}

fn samples() -> Vec<f64> {
    vec![
        f64::NEG_INFINITY,
        f64::MIN,
        -1.0e300,
        -100.5,
        -2.0,
        -1.0,
        -0.5,
        -1.0e-8,
        -f64::MIN_POSITIVE,
        -5.0e-324,
        0.0,
        5.0e-324,
        f64::MIN_POSITIVE,
        1.0e-160,
        1.0e-8,
        0.001,
        0.5,
        0.999,
        1.0,
        1.1,
        2.0,
        100.0,
        1.0e300,
        f64::MAX,
        f64::INFINITY,
    ]
}

#[test]
fn key_is_the_bit_pattern_of_a_positive_double() {
    assert_eq!(key(0.0), 0);
    assert_eq!(key(1.0), 0x3FF0_0000_0000_0000);
    assert_eq!(key(0.001), 0x3F50_624D_D2F1_A9FC);
    assert_eq!(key(f64::INFINITY), INFINITY);
}

#[test]
fn key_of_a_negative_double_is_the_negative_of_its_magnitude() {
    assert_eq!(key(-1.0), -0x3FF0_0000_0000_0000);
    assert_eq!(key(f64::NEG_INFINITY), -INFINITY);
    assert_eq!(key_of_bits(u64::MAX), -i64::MAX);
}

#[test]
fn both_zeros_have_the_key_zero() {
    assert_eq!(key(-0.0), 0);
    assert_eq!(key_of_bits(SIGN_BIT), 0);
    assert_eq!(bits_of_key(0), Some(0));
}

#[test]
fn keys_order_as_the_doubles_do() {
    let values = samples();
    for a in &values {
        for b in &values {
            assert_eq!(key(*a) < key(*b), a < b, "{a} < {b}");
            assert_eq!(key(*a) <= key(*b), a <= b, "{a} <= {b}");
            assert_eq!(key(*a) == key(*b), a == b, "{a} == {b}");
        }
    }
}

#[test]
fn negating_a_double_negates_its_key() {
    for value in samples() {
        assert_eq!(key(-value), -key(value));
    }
}

#[test]
fn bits_come_back_from_their_key() {
    for value in samples() {
        let bits = bits_of_key(key(value)).map(f64::from_bits);
        assert_eq!(bits, Some(value));
    }
    assert_eq!(bits_of_key(key(-0.0)), Some(0.0f64.to_bits()));
    assert_eq!(bits_of_key(key(-2.5)), Some((-2.5f64).to_bits()));
}

#[test]
fn keys_come_back_from_their_bits() {
    for k in [
        i64::MIN + 1,
        -INFINITY - 1,
        -INFINITY,
        -1,
        0,
        1,
        INFINITY,
        INFINITY + 1,
        i64::MAX,
    ] {
        assert_eq!(bits_of_key(k).map(key_of_bits), Some(k));
    }
}

#[test]
fn the_least_integer_is_no_key() {
    assert_eq!(bits_of_key(i64::MIN), None);
    assert_eq!(bits_of_key(i64::MIN + 1), Some(u64::MAX));
}

#[test]
fn what_is_no_number_has_a_key_beyond_infinity() {
    for value in samples() {
        assert!(is_number(key(value)));
    }
    assert!(!is_number(key(f64::NAN)));
    assert!(!is_number(key(-f64::NAN)));
    assert!(!is_number(key_of_bits(0x7FF0_0000_0000_0001)));
    assert!(!is_number(key_of_bits(0xFFF0_0000_0000_0001)));
    assert!(!is_number(i64::MAX));
    assert!(!is_number(i64::MIN));
    assert!(is_number(INFINITY));
    assert!(is_number(-INFINITY));
}

#[test]
fn an_interval_of_keys_tests_doubles() {
    let range = Interval::new(key(0.001), key(f64::INFINITY));
    assert!(range.surrounds(key(0.5)));
    assert!(range.surrounds(key(1.0e300)));
    assert!(!range.surrounds(key(0.001)));
    assert!(!range.surrounds(key(0.0009)));
    assert!(!range.surrounds(key(-3.0)));
    assert!(!range.surrounds(key(f64::INFINITY)));
    assert!(!range.surrounds(key(f64::NAN)));
    assert!(!range.surrounds(key(-f64::NAN)));
    assert!(range.contains(key(0.001)));
    assert!(range.contains(key(f64::INFINITY)));
}
