//! Keys for quantities that are held as IEEE-754 doubles.
//!
//! The 64 bits of a double are a sign bit above a magnitude of 63 bits, and of
//! two doubles that are numbers the one with the larger magnitude lies farther
//! from zero. Read as a signed integer, sign and magnitude, the bits therefore
//! give a key that is smaller exactly when the double is. The two zeros share
//! the key 0. What is no number has a magnitude beyond that of infinity, and
//! so a key beyond [`INFINITY`] or below its negative.

use vstd::prelude::*;

verus! {

/// The sign bit of a double.
pub const SIGN_BIT: u64 = 0x8000_0000_0000_0000;

/// The key of positive infinity. Its negative is the key of negative infinity.
pub const INFINITY: i64 = 0x7FF0_0000_0000_0000;

/// The key of the double with the bits `bits`: its magnitude, negative where
/// the sign bit is set.
pub open spec fn spec_key_of_bits(bits: u64) -> i64 {
    if bits < SIGN_BIT {
        bits as i64
    } else {
        (-(bits - SIGN_BIT)) as i64
    }
}

/// The bits of the double with the key `key`, zero being the positive zero.
/// The least `i64` is the key of no double.
pub open spec fn spec_bits_of_key(key: i64) -> Option<u64> {
    if key >= 0 {
        Some(key as u64)
    } else if key > i64::MIN {
        Some((SIGN_BIT + (-key)) as u64)
    } else {
        None
    }
}

/// The bits `bits` with the sign bit turned over: those of the negated double.
pub open spec fn negated_bits(bits: u64) -> u64 {
    if bits < SIGN_BIT {
        (bits + SIGN_BIT) as u64
    } else {
        (bits - SIGN_BIT) as u64
    }
}

/// Whether `key` is the key of a number: of a double that is finite or infinite.
pub open spec fn spec_is_number(key: i64) -> bool {
    -INFINITY <= key <= INFINITY
}

#[verifier::when_used_as_spec(spec_key_of_bits)]
pub fn key_of_bits(bits: u64) -> (key: i64)
    ensures
        key == spec_key_of_bits(bits),
        key > i64::MIN,
{
    if bits < SIGN_BIT {
        bits as i64
    } else {
        -((bits - SIGN_BIT) as i64)
    }
}

#[verifier::when_used_as_spec(spec_bits_of_key)]
pub fn bits_of_key(key: i64) -> (bits: Option<u64>)
    ensures
        bits == spec_bits_of_key(key),
        bits is Some <==> key > i64::MIN,
{
    if key >= 0 {
        Some(key as u64)
    } else if key > i64::MIN {
        Some(SIGN_BIT + ((-key) as u64))
    } else {
        None
    }
}

#[verifier::when_used_as_spec(spec_is_number)]
pub fn is_number(key: i64) -> (number: bool)
    ensures
        number == spec_is_number(key),
{
    -INFINITY <= key && key <= INFINITY
}

/// Bits and key stand for one double: from bits to key and back gives the
/// same bits, but for the negative zero, which comes back positive.
pub proof fn lemma_bits_come_back(bits: u64)
    ensures
        bits != SIGN_BIT ==> bits_of_key(key_of_bits(bits)) == Some(bits),
        bits == SIGN_BIT ==> bits_of_key(key_of_bits(bits)) == Some(0u64),
{
}

/// From a key to bits and back gives the same key.
pub proof fn lemma_key_comes_back(key: i64)
    requires
        key > i64::MIN,
    ensures
        bits_of_key(key) is Some,
        key_of_bits(bits_of_key(key)->0) == key,
{
}

/// Negating a double negates its key.
pub proof fn lemma_negation_negates_key(bits: u64)
    ensures
        key_of_bits(negated_bits(bits)) == -key_of_bits(bits),
{
}

/// Among doubles of one sign the key keeps the order of the magnitudes for
/// the positive ones and turns it round for the negative ones, and no
/// negative double has a key above that of a positive one.
pub proof fn lemma_key_orders_like_sign_and_magnitude(first: u64, second: u64)
    ensures
        first < SIGN_BIT && second < SIGN_BIT ==> (key_of_bits(first) <= key_of_bits(second)
            <==> first <= second),
        first >= SIGN_BIT && second >= SIGN_BIT ==> (key_of_bits(first) <= key_of_bits(second)
            <==> second <= first),
        first >= SIGN_BIT && second < SIGN_BIT ==> key_of_bits(first) <= key_of_bits(second),
{
}

} // verus!
