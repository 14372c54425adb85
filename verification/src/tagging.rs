//! The tagging scheme of run-time values.
//!
//! Numbers are encoded by shifting left one bit, so their low bit is 0.
//! Booleans use the low bit 1, with false = 1 and true = 3.  Type checks use
//! the low bit mask to tell numbers from booleans.
use vstd::prelude::*;

verus! {

/// Low bit of an encoded number.
pub const NUM_TAG: i64 = 0;
/// Mask that selects the tag bit of a number.
pub const NUM_TAG_MASK: i64 = 1;
/// Low bit of an encoded boolean.
pub const BOOL_TAG: i64 = 1;
/// Mask that selects the tag bit of a boolean.
pub const BOOL_TAG_MASK: i64 = 1;
/// The encoding of `true`.
pub const TRUE_VAL: i64 = 3;
/// The encoding of `false`.
pub const FALSE_VAL: i64 = 1;

/// Encodes a number: shifted left one bit.
pub fn encode_num(n: i32) -> (r: i64)
    ensures
        r == 2 * n,
{
    let w = n as i64;
    assert((w << 1) == 2 * w) by (bit_vector)
        requires
            -0x8000_0000 <= w < 0x8000_0000,
    ;
    w << 1
}

/// Decodes an encoded number: shifted right one bit, then truncated to 32
/// bits.
pub fn decode_num(tagged: i64) -> (r: i32)
    ensures
        r == (tagged >> 1) as i32,
{
    (tagged >> 1) as i32
}

/// Decoding undoes encoding.
pub proof fn lemma_decode_encode(n: i32)
    ensures
        ((2 * n) as i64 >> 1) as i32 == n,
{
    let w = (2 * n) as i64;
    let m = n as i64;
    assert(w == 2 * m);
    assert((w >> 1) == m) by (bit_vector)
        requires
            w == 2 * m,
            -0x8000_0000 <= m < 0x8000_0000,
    ;
}

/// An encoded number carries the number tag, and the two booleans carry the
/// boolean tag.
pub proof fn lemma_tags(n: i32)
    ensures
        ((2 * n) as i64) & NUM_TAG_MASK == NUM_TAG,
        TRUE_VAL & BOOL_TAG_MASK == BOOL_TAG,
        FALSE_VAL & BOOL_TAG_MASK == BOOL_TAG,
        TRUE_VAL != FALSE_VAL,
{
    let w = (2 * n) as i64;
    let m = n as i64;
    assert(w == 2 * m);
    assert(w & 1 == 0) by (bit_vector)
        requires
            w == 2 * m,
            -0x8000_0000 <= m < 0x8000_0000,
    ;
    assert(3i64 & 1 == 1) by (bit_vector);
    assert(1i64 & 1 == 1) by (bit_vector);
}

} // verus!
