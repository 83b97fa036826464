//! Prices and amounts are IEEE-754 binary64 numbers. The library holds each one as its
//! 64-bit pattern (sign bit first, then 11 exponent bits, then 52 fraction bits) and
//! orders and tests them through the integer functions of this module.
use vstd::prelude::*;

verus! {

/// 2^63: the sign bit.
pub open spec fn sign_bit() -> int {
    0x8000_0000_0000_0000
}

/// The pattern of positive infinity; patterns of positive magnitude above it are NaN.
pub open spec fn infinity_bits() -> int {
    0x7FF0_0000_0000_0000
}

/// The pattern without its sign bit.
pub open spec fn magnitude(b: u64) -> int {
    b as int % sign_bit()
}

/// The pattern encodes a NaN.
pub open spec fn is_nan(b: u64) -> bool {
    magnitude(b) > infinity_bits()
}

/// The pattern encodes +0.0 or -0.0.
pub open spec fn is_zero(b: u64) -> bool {
    magnitude(b) == 0
}

/// The encoded number compares greater than zero: positive, not NaN, not zero
/// (positive infinity included).
pub open spec fn is_positive(b: u64) -> bool {
    1 <= b as int <= infinity_bits()
}

/// The ordering key of a pattern: keys compare as the encoded numbers do, with NaN
/// read as +0.0 and -0.0 equal to +0.0.
///
/// Non-negative numbers map above 2^63 in the order of their patterns; negative ones
/// map below 2^63 in the reverse order of their patterns, since a larger magnitude is a
/// smaller number.
pub open spec fn order_key(b: u64) -> int {
    if is_nan(b) || is_zero(b) {
        sign_bit()
    } else if (b as int) < sign_bit() {
        sign_bit() + b as int
    } else {
        sign_bit() - 1 - magnitude(b)
    }
}

/// Computes `order_key(b)`.
pub fn key_of(b: u64) -> (r: u64)
    ensures
        r == order_key(b),
{
    let m: u64 = b % 0x8000_0000_0000_0000;
    if m > 0x7FF0_0000_0000_0000 || m == 0 {
        0x8000_0000_0000_0000
    } else if b < 0x8000_0000_0000_0000 {
        0x8000_0000_0000_0000 + b
    } else {
        0x7FFF_FFFF_FFFF_FFFF - m
    }
}

/// Tests whether the pattern encodes a NaN.
pub fn nan(b: u64) -> (r: bool)
    ensures
        r == is_nan(b),
{
    b % 0x8000_0000_0000_0000 > 0x7FF0_0000_0000_0000
}

/// Tests whether the encoded number is greater than zero.
pub fn positive(b: u64) -> (r: bool)
    ensures
        r == is_positive(b),
{
    1 <= b && b <= 0x7FF0_0000_0000_0000
}

/// Keys lie in the range of `u64`.
pub proof fn lemma_order_key_range(b: u64)
    ensures
        0 <= order_key(b) <= u64::MAX,
{
}

/// A positive number's key lies above the key of zero.
pub proof fn lemma_positive_key(b: u64)
    requires
        is_positive(b),
    ensures
        order_key(b) > sign_bit(),
{
}

/// Keys order prices as the binary64 numbers they encode. A pattern with the sign bit
/// clear and at most the pattern of infinity encodes a number of at least zero, and among
/// those a larger pattern is a larger number; with the sign bit set, a larger pattern is
/// a larger magnitude and so a smaller number. So:
/// - above zero, a larger pattern has a larger key;
/// - below zero, a larger pattern has a smaller key;
/// - every number below zero has a smaller key than zero, and zero a smaller key than
///   every number above zero;
/// - +0.0, -0.0 and every NaN have the key of zero.
pub proof fn lemma_order_key_follows_numbers(a: u64, b: u64)
    ensures
        0 < a < b <= 0x7FF0_0000_0000_0000 ==> order_key(a) < order_key(b),
        0x8000_0000_0000_0000 < a < b <= 0xFFF0_0000_0000_0000 ==> order_key(a) > order_key(b),
        0x8000_0000_0000_0000 < a <= 0xFFF0_0000_0000_0000 ==> order_key(a) < order_key(0),
        0 < b <= 0x7FF0_0000_0000_0000 ==> order_key(0) < order_key(b),
        order_key(0x8000_0000_0000_0000) == order_key(0),
        0x7FF0_0000_0000_0000 < a < 0x8000_0000_0000_0000 ==> order_key(a) == order_key(0),
        0xFFF0_0000_0000_0000 < a ==> order_key(a) == order_key(0),
{
}

/// A number is above zero exactly when its pattern has the sign bit clear, is not zero
/// and is at most the pattern of infinity.
pub proof fn lemma_is_positive_bits(b: u64)
    ensures
        is_positive(b) <==> (0 < b <= 0x7FF0_0000_0000_0000),
        is_positive(b) <==> (order_key(b) > order_key(0)),
{
}

} // verus!
