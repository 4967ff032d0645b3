//! Integer keys for the bit patterns of IEEE-754 doubles.
//!
//! A sample of doubles is handed to this crate as the keys of its elements.
//! Keys order as the doubles do: a pattern without the sign bit stands for a
//! value that grows with the pattern, and a pattern with the sign bit for a
//! negative value that falls as the rest of the pattern grows. Negative zero
//! comes just before zero. The patterns of NaN get keys at the two ends.
use vstd::prelude::*;

verus! {

/// The sign bit of a double.
pub const SIGN_BIT: u64 = 0x8000_0000_0000_0000;

/// The key of a bit pattern.
pub open spec fn key_of(bits: u64) -> int {
    if bits < SIGN_BIT {
        bits as int
    } else {
        -1 - (bits - SIGN_BIT)
    }
}

/// The bit pattern that has the key `k`.
pub open spec fn bits_of(k: i64) -> int {
    if k >= 0 {
        k as int
    } else {
        SIGN_BIT + (-1 - k)
    }
}

/// The key of the bit pattern `bits`.
pub fn ordered_key(bits: u64) -> (k: i64)
    ensures
        k == key_of(bits),
        bits_of(k) == bits,
{
    if bits < SIGN_BIT {
        bits as i64
    } else {
        -1 - ((bits - SIGN_BIT) as i64)
    }
}

/// The bit pattern that has the key `k`.
pub fn key_bits(k: i64) -> (bits: u64)
    ensures
        bits == bits_of(k),
        key_of(bits) == k,
{
    if k >= 0 {
        k as u64
    } else {
        SIGN_BIT + ((-1 - k) as u64)
    }
}

/// Keys and bit patterns correspond one to one.
pub proof fn lemma_key_round_trip(bits: u64, k: i64)
    ensures
        i64::MIN <= key_of(bits) <= i64::MAX,
        0 <= bits_of(k) <= u64::MAX,
        bits_of(key_of(bits) as i64) == bits,
        key_of(bits_of(k) as u64) == k,
{
}

/// Keys order as the doubles do: among patterns without the sign bit the
/// greater pattern has the greater key, among patterns with it the smaller
/// one, and every pattern with the sign bit comes before every one without.
pub proof fn lemma_key_order(a: u64, b: u64)
    ensures
        a < SIGN_BIT && b < SIGN_BIT ==> (key_of(a) < key_of(b) <==> a < b),
        a >= SIGN_BIT && b >= SIGN_BIT ==> (key_of(a) < key_of(b) <==> a > b),
        a >= SIGN_BIT && b < SIGN_BIT ==> key_of(a) < key_of(b),
{
}

/// The key of positive infinity. Keys above it, and keys below the key of
/// negative infinity, belong to the patterns of NaN.
pub const INFINITY_KEY: i64 = 0x7ff0_0000_0000_0000;

/// The bit pattern of zero.
pub const ZERO_BITS: u64 = 0;

/// The bit pattern of one.
pub const ONE_BITS: u64 = 0x3ff0_0000_0000_0000;

/// The bit pattern of two.
pub const TWO_BITS: u64 = 0x4000_0000_0000_0000;

/// The bit pattern of three.
pub const THREE_BITS: u64 = 0x4008_0000_0000_0000;

/// The bit pattern of positive infinity.
pub const INFINITY_BITS: u64 = 0x7ff0_0000_0000_0000;

/// The bit pattern of negative infinity.
pub const NEG_INFINITY_BITS: u64 = 0xfff0_0000_0000_0000;

/// The key belongs to a pattern of NaN.
pub open spec fn is_nan_key(k: int) -> bool {
    k > INFINITY_KEY || k < -1 - INFINITY_KEY
}

/// The double with key `a` is less than the double with key `b`: neither is
/// NaN, and negative zero is not less than zero.
pub open spec fn key_lt(a: int, b: int) -> bool {
    !is_nan_key(a) && !is_nan_key(b) && a < b && !(a == -1 && b == 0)
}

/// The double with key `a` is less than or equal to the double with key `b`:
/// neither is NaN, and zero is equal to negative zero.
pub open spec fn key_le(a: int, b: int) -> bool {
    !is_nan_key(a) && !is_nan_key(b) && (a <= b || (a == 0 && b == -1))
}

/// The two patterns are equal as doubles: neither is NaN, and they are the
/// same pattern or the two zeros.
pub open spec fn same_double(a: u64, b: u64) -> bool {
    key_le(key_of(a), key_of(b)) && key_le(key_of(b), key_of(a))
}

/// Whether `bits` is a pattern of NaN.
pub fn is_nan(bits: u64) -> (r: bool)
    ensures
        r == is_nan_key(key_of(bits)),
{
    let k: i64 = ordered_key(bits);
    k > INFINITY_KEY || k < -1 - INFINITY_KEY
}

/// Whether the double `a` is less than the double `b`.
pub fn less_than(a: u64, b: u64) -> (r: bool)
    ensures
        r == key_lt(key_of(a), key_of(b)),
{
    let x: i64 = ordered_key(a);
    let y: i64 = ordered_key(b);
    !is_nan(a) && !is_nan(b) && x < y && !(x == -1 && y == 0)
}

/// Whether the double `a` is less than or equal to the double `b`.
pub fn at_most(a: u64, b: u64) -> (r: bool)
    ensures
        r == key_le(key_of(a), key_of(b)),
{
    let x: i64 = ordered_key(a);
    let y: i64 = ordered_key(b);
    !is_nan(a) && !is_nan(b) && (x <= y || (x == 0 && y == -1))
}

/// Whether the doubles `a` and `b` are equal.
pub fn equal_doubles(a: u64, b: u64) -> (r: bool)
    ensures
        r == same_double(a, b),
{
    at_most(a, b) && at_most(b, a)
}

} // verus!
