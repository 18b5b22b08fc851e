//! Little-endian 32-bit integers, stated by arithmetic on their four bytes.

use vstd::arithmetic::div_mod::lemma_fundamental_div_mod_converse;
use vstd::prelude::*;

verus! {

/// The unsigned value of four bytes, least significant byte first.
pub open spec fn le_u32(b: Seq<u8>) -> int
    recommends
        b.len() == 4,
{
    b[0] as int + 256 * (b[1] as int) + 65536 * (b[2] as int) + 16777216 * (b[3] as int)
}

/// The two's complement value of four bytes, least significant byte first.
pub open spec fn le_i32(b: Seq<u8>) -> int
    recommends
        b.len() == 4,
{
    if le_u32(b) < 0x8000_0000 {
        le_u32(b)
    } else {
        le_u32(b) - 0x1_0000_0000
    }
}

/// The four bytes that stand for `x`, least significant byte first.
pub open spec fn u32_le_bytes(x: int) -> Seq<u8>
    recommends
        0 <= x <= u32::MAX,
{
    seq![
        (x % 256) as u8,
        ((x / 256) % 256) as u8,
        ((x / 65536) % 256) as u8,
        ((x / 16777216) % 256) as u8,
    ]
}

/// Four bytes always stand for a value that fits in 32 bits.
pub proof fn lemma_le_u32_range(b: Seq<u8>)
    requires
        b.len() == 4,
    ensures
        0 <= le_u32(b) <= u32::MAX,
        i32::MIN <= le_i32(b) <= i32::MAX,
{
}

/// Writing out the value of four bytes gives the same four bytes back.
pub proof fn lemma_bytes_of_value(b: Seq<u8>)
    requires
        b.len() == 4,
    ensures
        u32_le_bytes(le_u32(b)) == b,
{
    let b0 = b[0] as int;
    let b1 = b[1] as int;
    let b2 = b[2] as int;
    let b3 = b[3] as int;
    let v = le_u32(b);
    assert(v % 256 == b0 && v / 256 == b1 + 256 * b2 + 65536 * b3) by {
        lemma_fundamental_div_mod_converse(v, 256, b1 + 256 * b2 + 65536 * b3, b0);
    }
    assert((v / 256) % 256 == b1) by {
        lemma_fundamental_div_mod_converse(v / 256, 256, b2 + 256 * b3, b1);
    }
    assert(v / 65536 == b2 + 256 * b3) by {
        lemma_fundamental_div_mod_converse(v, 65536, b2 + 256 * b3, b0 + 256 * b1);
    }
    assert((v / 65536) % 256 == b2) by {
        lemma_fundamental_div_mod_converse(v / 65536, 256, b3, b2);
    }
    assert(v / 16777216 == b3 && (v / 16777216) % 256 == b3) by {
        lemma_fundamental_div_mod_converse(v, 16777216, b3, b0 + 256 * b1 + 65536 * b2);
        lemma_fundamental_div_mod_converse(b3, 256, 0, b3);
    }
}

/// Reads an unsigned 32-bit integer from its little-endian bytes.
pub fn u32_from_le_bytes(b: [u8; 4]) -> (x: u32)
    ensures
        x == le_u32(b@),
{
    let b0: u32 = b[0] as u32;
    let b1: u32 = b[1] as u32;
    let b2: u32 = b[2] as u32;
    let b3: u32 = b[3] as u32;
    b0 + 256 * b1 + 65536 * b2 + 16777216 * b3
}

/// Reads a signed 32-bit integer from its little-endian bytes.
pub fn i32_from_le_bytes(b: [u8; 4]) -> (x: i32)
    ensures
        x == le_i32(b@),
{
    let u: u32 = u32_from_le_bytes(b);
    if u < 0x8000_0000 {
        u as i32
    } else {
        let low: i32 = (u - 0x8000_0000) as i32;
        low + i32::MIN
    }
}

} // verus!
