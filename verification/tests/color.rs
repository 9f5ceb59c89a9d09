use elktracer::color::CHANNEL_CEILING;
use elktracer::{as_rgb, as_rgba, channel_byte, key_of_bits, Rgba};

fn key(value: f64) -> i64 {
    key_of_bits(value.to_bits())
}

fn linear_to_gamma(linear: f64) -> f64 {
    if linear > 0.0 {
        linear.sqrt()
    } else {
        0.0
    }
}

fn bytes_of(red: f64, green: f64, blue: f64) -> (u8, u8, u8) {
    as_rgb(
        key(linear_to_gamma(red)),
        key(linear_to_gamma(green)),
        key(linear_to_gamma(blue)),
    )
}

#[test]
fn as_rgb_should_be_correct() {
    assert_eq!(bytes_of(0.0, 0.5, 1.0), (0, 181, 255));
}

#[test]
fn as_rgb_should_clamp_correctly() {
    let rgb = bytes_of(2.0, -0.5, 1.1);

    assert_eq!(rgb.0, 255);
    assert_eq!(rgb.1, 0);
    assert_eq!(rgb.2, 255);
}

#[test]
fn channel_ceiling_is_the_key_of_0_999() {
    assert_eq!(CHANNEL_CEILING, key(0.999));
}

#[test]
fn channel_byte_scales_by_256_and_cuts() {
    assert_eq!(channel_byte(key(0.0)), 0);
    assert_eq!(channel_byte(key(0.25)), 64);
    assert_eq!(channel_byte(key(0.5)), 128);
    assert_eq!(channel_byte(key(0.75)), 192);
    assert_eq!(channel_byte(key(0.999)), 255);
    assert_eq!(channel_byte(key(0.7071067811865476)), 181);
}

#[test]
fn channel_byte_steps_exactly_at_each_256th() {
    for step in 1..256u32 {
        let at = step as f64 / 256.0;
        let below = f64::from_bits(at.to_bits() - 1);
        assert_eq!(channel_byte(key(at)), step as u8);
        assert_eq!(channel_byte(key(below)), (step - 1) as u8);
    }
}

#[test]
fn channel_byte_clamps_below_and_above() {
    assert_eq!(channel_byte(key(-0.5)), 0);
    assert_eq!(channel_byte(key(-1.0e300)), 0);
    assert_eq!(channel_byte(key(f64::NEG_INFINITY)), 0);
    assert_eq!(channel_byte(key(-0.0)), 0);
    assert_eq!(channel_byte(key(1.0)), 255);
    assert_eq!(channel_byte(key(1.4142135623730951)), 255);
    assert_eq!(channel_byte(key(1.0e300)), 255);
    assert_eq!(channel_byte(key(f64::INFINITY)), 255);
}

#[test]
fn channel_byte_of_tiny_channels_is_zero() {
    assert_eq!(channel_byte(key(5.0e-324)), 0);
    assert_eq!(channel_byte(key(f64::MIN_POSITIVE)), 0);
    assert_eq!(channel_byte(key(1.0e-8)), 0);
    assert_eq!(channel_byte(key(0.00390624)), 0);
    assert_eq!(channel_byte(key(0.00390625)), 1);
}

#[test]
fn channel_byte_of_what_is_no_number_is_zero() {
    assert_eq!(channel_byte(key(f64::NAN)), 0);
    assert_eq!(channel_byte(key(-f64::NAN)), 0);
    assert_eq!(channel_byte(i64::MAX), 0);
    assert_eq!(channel_byte(i64::MIN), 0);
}

#[test]
fn channel_byte_agrees_with_the_cast_of_a_double() {
    let mut value = 0.0f64;
    while value < 1.2 {
        let expected = (256.0 * value.clamp(0.0, 0.999)) as u8;
        assert_eq!(channel_byte(key(value)), expected, "{value}");
        value += 0.000_137;
    }
}

#[test]
fn as_rgba_is_opaque() {
    assert_eq!(
        as_rgba(key(0.5), key(0.0), key(1.0)),
        Rgba::new(128, 0, 255, 255)
    );
}

#[test]
fn a_brighter_channel_never_gets_a_smaller_byte() {
    let mut last = 0u8;
    let mut value = -0.25f64;
    while value < 1.5 {
        let byte = channel_byte(key(value));
        assert!(byte >= last, "{value}");
        last = byte;
        value += 0.000_731;
    }
    assert_eq!(last, 255);
}
