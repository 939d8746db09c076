//! Integers as little-endian bytes.
//!
//! The definitions are kept out of sight of proofs that do not ask for
//! them; `reveal` brings them in.

use vstd::prelude::*;

verus! {

/// The four bytes of a `u32`, the lowest first.
#[verifier::opaque]
pub open spec fn le_bytes_u32(x: u32) -> Seq<u8> {
    let d1 = x / 256;
    let d2 = d1 / 256;
    let d3 = d2 / 256;
    seq![(x % 256) as u8, (d1 % 256) as u8, (d2 % 256) as u8, (d3 % 256) as u8]
}

/// The `u32` that four bytes, the lowest first, stand for.
#[verifier::opaque]
pub open spec fn le_value_u32(bytes: Seq<u8>) -> u32 {
    (bytes[0] + 256 * (bytes[1] + 256 * (bytes[2] + 256 * bytes[3]))) as u32
}

/// The eight bytes of a `u64`, the lowest first.
#[verifier::opaque]
pub open spec fn le_bytes_u64(x: u64) -> Seq<u8> {
    let d1 = x / 256;
    let d2 = d1 / 256;
    let d3 = d2 / 256;
    let d4 = d3 / 256;
    let d5 = d4 / 256;
    let d6 = d5 / 256;
    let d7 = d6 / 256;
    seq![
        (x % 256) as u8,
        (d1 % 256) as u8,
        (d2 % 256) as u8,
        (d3 % 256) as u8,
        (d4 % 256) as u8,
        (d5 % 256) as u8,
        (d6 % 256) as u8,
        (d7 % 256) as u8,
    ]
}

/// The `u64` that eight bytes, the lowest first, stand for.
#[verifier::opaque]
pub open spec fn le_value_u64(bytes: Seq<u8>) -> u64 {
    (bytes[0] + 256 * (bytes[1] + 256 * (bytes[2] + 256 * (bytes[3] + 256 * (bytes[4] + 256 * (bytes[5] + 256
        * (bytes[6] + 256 * bytes[7]))))))) as u64
}

/// The bytes of a `u32` stand for it.
pub proof fn lemma_le_u32_value(x: u32)
    ensures
        le_bytes_u32(x).len() == 4,
        le_value_u32(le_bytes_u32(x)) == x,
{
    reveal(le_bytes_u32);
    reveal(le_value_u32);
}

/// Four bytes are the bytes of what they stand for.
pub proof fn lemma_le_u32_bytes(bytes: Seq<u8>)
    requires
        bytes.len() == 4,
    ensures
        le_bytes_u32(le_value_u32(bytes)) == bytes,
{
    reveal(le_bytes_u32);
    reveal(le_value_u32);
    let v3: int = bytes[3] as int;
    let v2: int = bytes[2] + 256 * v3;
    let v1: int = bytes[1] + 256 * v2;
    let v0: int = bytes[0] + 256 * v1;
    assert(v0 / 256 == v1 && v0 % 256 == bytes[0]);
    assert(v1 / 256 == v2 && v1 % 256 == bytes[1]);
    assert(v2 / 256 == v3 && v2 % 256 == bytes[2]);
    assert(le_bytes_u32(le_value_u32(bytes)) =~= bytes);
}

/// The bytes of a `u64` stand for it.
pub proof fn lemma_le_u64_value(x: u64)
    ensures
        le_bytes_u64(x).len() == 8,
        le_value_u64(le_bytes_u64(x)) == x,
{
    reveal(le_bytes_u64);
    reveal(le_value_u64);
    let d1 = x / 256;
    let d2 = d1 / 256;
    let d3 = d2 / 256;
    let d4 = d3 / 256;
    let d5 = d4 / 256;
    let d6 = d5 / 256;
    let d7 = d6 / 256;
    assert(d7 < 256);
    assert(d6 == 256 * d7 + d6 % 256);
    assert(d5 == 256 * d6 + d5 % 256);
    assert(d4 == 256 * d5 + d4 % 256);
    assert(d3 == 256 * d4 + d3 % 256);
    assert(d2 == 256 * d3 + d2 % 256);
    assert(d1 == 256 * d2 + d1 % 256);
    assert(x == 256 * d1 + x % 256);
}

/// Eight bytes are the bytes of what they stand for.
pub proof fn lemma_le_u64_bytes(bytes: Seq<u8>)
    requires
        bytes.len() == 8,
    ensures
        le_bytes_u64(le_value_u64(bytes)) == bytes,
{
    reveal(le_bytes_u64);
    reveal(le_value_u64);
    let v7: int = bytes[7] as int;
    let v6: int = bytes[6] + 256 * v7;
    let v5: int = bytes[5] + 256 * v6;
    let v4: int = bytes[4] + 256 * v5;
    let v3: int = bytes[3] + 256 * v4;
    let v2: int = bytes[2] + 256 * v3;
    let v1: int = bytes[1] + 256 * v2;
    let v0: int = bytes[0] + 256 * v1;
    assert(v6 / 256 == v7 && v6 % 256 == bytes[6]);
    assert(v5 / 256 == v6 && v5 % 256 == bytes[5]);
    assert(v4 / 256 == v5 && v4 % 256 == bytes[4]);
    assert(v3 / 256 == v4 && v3 % 256 == bytes[3]);
    assert(v2 / 256 == v3 && v2 % 256 == bytes[2]);
    assert(v1 / 256 == v2 && v1 % 256 == bytes[1]);
    assert(v0 / 256 == v1 && v0 % 256 == bytes[0]);
    assert(v0 <= u64::MAX);
    assert(le_bytes_u64(le_value_u64(bytes)) =~= bytes);
}

/// Reads a `u32` from four bytes, the lowest first.
pub fn read_u32(bytes: &[u8]) -> (x: u32)
    requires
        bytes@.len() == 4,
    ensures
        x == le_value_u32(bytes@),
{
    proof {
        reveal(le_value_u32);
    }
    let mut x: u32 = bytes[3] as u32;
    x = x * 256 + bytes[2] as u32;
    x = x * 256 + bytes[1] as u32;
    x = x * 256 + bytes[0] as u32;
    x
}

/// Reads a `u64` from eight bytes, the lowest first.
pub fn read_u64(bytes: &[u8]) -> (x: u64)
    requires
        bytes@.len() == 8,
    ensures
        x == le_value_u64(bytes@),
{
    proof {
        reveal(le_value_u64);
    }
    let mut x: u64 = bytes[7] as u64;
    x = x * 256 + bytes[6] as u64;
    x = x * 256 + bytes[5] as u64;
    x = x * 256 + bytes[4] as u64;
    x = x * 256 + bytes[3] as u64;
    x = x * 256 + bytes[2] as u64;
    x = x * 256 + bytes[1] as u64;
    x = x * 256 + bytes[0] as u64;
    x
}

/// Writes a `u64` as eight bytes, the lowest first.
pub fn write_u64(x: u64) -> (bytes: Vec<u8>)
    ensures
        bytes@ == le_bytes_u64(x),
{
    let mut bytes: Vec<u8> = Vec::new();
    let mut rest: u64 = x;
    bytes.push((rest % 256) as u8);
    rest = rest / 256;
    bytes.push((rest % 256) as u8);
    rest = rest / 256;
    bytes.push((rest % 256) as u8);
    rest = rest / 256;
    bytes.push((rest % 256) as u8);
    rest = rest / 256;
    bytes.push((rest % 256) as u8);
    rest = rest / 256;
    bytes.push((rest % 256) as u8);
    rest = rest / 256;
    bytes.push((rest % 256) as u8);
    rest = rest / 256;
    bytes.push((rest % 256) as u8);
    proof {
        reveal(le_bytes_u64);
        assert(bytes@ =~= le_bytes_u64(x));
    }
    bytes
}

} // verus!
