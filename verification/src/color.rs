//! From colour channels to bytes.
//!
//! A channel comes as the key of a double (see [`crate::key`]), with the gamma
//! curve already applied. It is held to the range from 0 to 0.999 and then
//! scaled by 256 and cut to a whole number. The ceiling of 0.999 is what keeps
//! that number below 256.

use crate::image::Rgba;
use crate::interval::Interval;
use crate::key::is_number;
use vstd::arithmetic::div_mod::{lemma_div_is_ordered, lemma_div_is_ordered_by_denominator};
use vstd::arithmetic::power2::{
    lemma2_to64, lemma2_to64_rest, lemma_pow2_pos, lemma_pow2_strictly_increases, pow2,
};
use vstd::bits::lemma_u64_shr_is_div;
use vstd::prelude::*;

verus! {

/// The key of 0.999, the largest value that a channel is let to have.
pub const CHANNEL_CEILING: i64 = 0x3FEF_F7CE_D916_872B;

/// Two to the power of 52: a double holds the 52 bits of its fraction below
/// this, and its exponent above.
pub const FRACTION_RANGE: u64 = 0x10_0000_0000_0000;

/// The channel held to the range from 0 to 0.999. What is no number counts as 0.
pub open spec fn clamped_channel(channel: i64) -> i64 {
    if !is_number(channel) || channel < 0 {
        0
    } else if channel > CHANNEL_CEILING {
        CHANNEL_CEILING
    } else {
        channel
    }
}

/// 256 times the double with the key `key`, cut to a whole number, for a key
/// from 0 to that of 0.999.
///
/// A double with exponent field `e` of at least 1 and fraction field `f` is
/// `(2^52 + f) * 2^(e - 1075)`, so 256 times it is `(2^52 + f) / 2^(1067 - e)`;
/// below an exponent field of 1015 that is less than 1.
pub open spec fn scaled_by_256(key: i64) -> int {
    let exponent = key as int / FRACTION_RANGE as int;
    let fraction = key as int % FRACTION_RANGE as int;
    if exponent < 1015 {
        0
    } else {
        (FRACTION_RANGE + fraction) / pow2((1067 - exponent) as nat) as int
    }
}

/// The byte of a channel.
pub open spec fn spec_channel_byte(channel: i64) -> u8 {
    scaled_by_256(clamped_channel(channel)) as u8
}

/// No channel scales to 256 or more.
pub proof fn lemma_scaled_fits_byte(channel: i64)
    ensures
        0 <= scaled_by_256(clamped_channel(channel)) <= 255,
{
    let key = clamped_channel(channel);
    let exponent = key as int / FRACTION_RANGE as int;
    let fraction = key as int % FRACTION_RANGE as int;
    if exponent >= 1015 {
        assert(exponent <= 1022);
        let shift = (1067 - exponent) as nat;
        lemma2_to64();
        lemma2_to64_rest();
        if shift > 45 {
            lemma_pow2_strictly_increases(45, shift);
        }
        assert(pow2(45) == 0x2000_0000_0000);
        lemma_div_is_ordered_by_denominator(
            FRACTION_RANGE + fraction,
            pow2(45) as int,
            pow2(shift) as int,
        );
    }
}

/// The byte of a channel with the exponent field `1015 + k` has its leading
/// bit at place `k`: it lies from `2^k` up to, but not including, `2^(k + 1)`.
pub proof fn lemma_scaled_has_leading_bit(key: i64)
    requires
        0 <= key <= CHANNEL_CEILING,
        key as int / FRACTION_RANGE as int >= 1015,
    ensures
        pow2((key as int / FRACTION_RANGE as int - 1015) as nat) <= scaled_by_256(key) < pow2(
            (key as int / FRACTION_RANGE as int - 1014) as nat,
        ),
{
    let exponent = key as int / FRACTION_RANGE as int;
    let fraction = key as int % FRACTION_RANGE as int;
    let significand = FRACTION_RANGE + fraction;
    assert(exponent <= 1022);
    assert(0x10_0000_0000_0000 <= significand < 0x20_0000_0000_0000);
    lemma2_to64();
    lemma2_to64_rest();
    if exponent == 1015 {
        assert(pow2(52) == 0x10_0000_0000_0000);
        assert(1 <= significand / 0x10_0000_0000_0000 < 2);
    } else if exponent == 1016 {
        assert(pow2(51) == 0x8_0000_0000_0000);
        assert(2 <= significand / 0x8_0000_0000_0000 < 4);
    } else if exponent == 1017 {
        assert(pow2(50) == 0x4_0000_0000_0000);
        assert(4 <= significand / 0x4_0000_0000_0000 < 8);
    } else if exponent == 1018 {
        assert(pow2(49) == 0x2_0000_0000_0000);
        assert(8 <= significand / 0x2_0000_0000_0000 < 16);
    } else if exponent == 1019 {
        assert(pow2(48) == 0x1_0000_0000_0000);
        assert(16 <= significand / 0x1_0000_0000_0000 < 32);
    } else if exponent == 1020 {
        assert(pow2(47) == 0x8000_0000_0000);
        assert(32 <= significand / 0x8000_0000_0000 < 64);
    } else if exponent == 1021 {
        assert(pow2(46) == 0x4000_0000_0000);
        assert(64 <= significand / 0x4000_0000_0000 < 128);
    } else {
        assert(pow2(45) == 0x2000_0000_0000);
        assert(128 <= significand / 0x2000_0000_0000 < 256);
    }
}

/// Of two channels that are numbers the larger never gets the smaller byte.
pub proof fn lemma_channel_byte_is_monotonic(darker: i64, brighter: i64)
    requires
        is_number(darker),
        is_number(brighter),
        darker <= brighter,
    ensures
        channel_byte(darker) <= channel_byte(brighter),
{
    let low = clamped_channel(darker);
    let high = clamped_channel(brighter);
    lemma_scaled_fits_byte(darker);
    lemma_scaled_fits_byte(brighter);
    assert(0 <= low <= high <= CHANNEL_CEILING);
    let low_exponent = low as int / FRACTION_RANGE as int;
    let high_exponent = high as int / FRACTION_RANGE as int;
    assert(low_exponent <= high_exponent);
    if low_exponent >= 1015 {
        lemma_scaled_has_leading_bit(low);
        lemma_scaled_has_leading_bit(high);
        if low_exponent == high_exponent {
            let shift = (1067 - low_exponent) as nat;
            lemma_pow2_pos(shift);
            lemma_div_is_ordered(
                FRACTION_RANGE + low as int % FRACTION_RANGE as int,
                FRACTION_RANGE + high as int % FRACTION_RANGE as int,
                pow2(shift) as int,
            );
        } else {
            let reached = (low_exponent - 1014) as nat;
            let start = (high_exponent - 1015) as nat;
            if reached < start {
                lemma_pow2_strictly_increases(reached, start);
            }
        }
    }
}

/// The byte of a channel: 256 times the channel, held to the range from 0 to
/// 0.999 first and cut to a whole number after.
#[verifier::when_used_as_spec(spec_channel_byte)]
pub fn channel_byte(channel: i64) -> (byte: u8)
    ensures
        byte == spec_channel_byte(channel),
        byte == scaled_by_256(clamped_channel(channel)),
{
    proof {
        lemma_scaled_fits_byte(channel);
    }
    if !is_number(channel) {
        return 0;
    }
    let intensity = Interval::new(0, CHANNEL_CEILING);
    let clamped: i64 = intensity.clamp(channel);
    let magnitude: u64 = clamped as u64;
    let exponent: u64 = magnitude / FRACTION_RANGE;
    let fraction: u64 = magnitude % FRACTION_RANGE;
    if exponent < 1015 {
        return 0;
    }
    let shift: u64 = 1067 - exponent;
    let scaled: u64 = (FRACTION_RANGE + fraction) >> shift;
    proof {
        lemma_u64_shr_is_div((FRACTION_RANGE + fraction) as u64, shift);
    }
    scaled as u8
}

/// The three bytes of a colour, red first.
pub fn as_rgb(red: i64, green: i64, blue: i64) -> (bytes: (u8, u8, u8))
    ensures
        bytes == (channel_byte(red), channel_byte(green), channel_byte(blue)),
{
    (channel_byte(red), channel_byte(green), channel_byte(blue))
}

/// The pixel of a colour: its three bytes, and an alpha of 255.
pub fn as_rgba(red: i64, green: i64, blue: i64) -> (rgba: Rgba)
    ensures
        rgba == (Rgba {
            r: channel_byte(red),
            g: channel_byte(green),
            b: channel_byte(blue),
            a: 255,
        }),
{
    Rgba::new(channel_byte(red), channel_byte(green), channel_byte(blue), 255)
}

} // verus!
