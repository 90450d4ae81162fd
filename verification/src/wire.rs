//! Little-endian readings of the fixed-width fields in a boot-option blob.

use vstd::prelude::*;

verus! {

/// The 16-bit value stored little-endian in the two bytes at offset `i`.
pub open spec fn le16_at(b: Seq<u8>, i: int) -> u16
    recommends
        0 <= i,
        i + 2 <= b.len(),
{
    (b[i] + 256 * b[i + 1]) as u16
}

/// The 32-bit value stored little-endian in the four bytes at offset `i`.
pub open spec fn le32_at(b: Seq<u8>, i: int) -> u32
    recommends
        0 <= i,
        i + 4 <= b.len(),
{
    (b[i] + 256 * b[i + 1] + 65536 * b[i + 2] + 16777216 * b[i + 3]) as u32
}

/// The two bytes that store a 16-bit value little-endian.
pub open spec fn le16_bytes(x: u16) -> Seq<u8> {
    seq![(x % 256) as u8, (x / 256) as u8]
}

/// The four bytes that store a 32-bit value little-endian.
pub open spec fn le32_bytes(x: u32) -> Seq<u8> {
    seq![
        (x % 256) as u8,
        (x / 256 % 256) as u8,
        (x / 65536 % 256) as u8,
        (x / 16777216) as u8,
    ]
}

/// A 16-bit value survives the trip through its little-endian bytes.
pub proof fn lemma_le16_bytes_round_trip(x: u16)
    ensures
        le16_bytes(x).len() == 2,
        le16_at(le16_bytes(x), 0) == x,
{
}

/// A 32-bit value survives the trip through its little-endian bytes.
pub proof fn lemma_le32_bytes_round_trip(x: u32)
    ensures
        le32_bytes(x).len() == 4,
        le32_at(le32_bytes(x), 0) == x,
{
}

/// Writing back the 16-bit value read at an offset restores the two bytes
/// that were read.
pub proof fn lemma_le16_at_bytes(b: Seq<u8>, i: int)
    requires
        0 <= i,
        i + 2 <= b.len(),
    ensures
        le16_bytes(le16_at(b, i)) =~= b.subrange(i, i + 2),
{
    let x = le16_at(b, i) as int;
    vstd::arithmetic::div_mod::lemma_fundamental_div_mod_converse(
        x,
        256,
        b[i + 1] as int,
        b[i] as int,
    );
}

/// Writing back the 32-bit value read at an offset restores the four bytes
/// that were read.
pub proof fn lemma_le32_at_bytes(b: Seq<u8>, i: int)
    requires
        0 <= i,
        i + 4 <= b.len(),
    ensures
        le32_bytes(le32_at(b, i)) =~= b.subrange(i, i + 4),
{
    let x = le32_at(b, i) as int;
    let q1 = b[i + 1] + 256 * b[i + 2] + 65536 * b[i + 3];
    let q2 = b[i + 2] + 256 * b[i + 3];
    vstd::arithmetic::div_mod::lemma_fundamental_div_mod_converse(x, 256, q1 as int, b[i] as int);
    vstd::arithmetic::div_mod::lemma_fundamental_div_mod_converse(
        q1 as int,
        256,
        q2 as int,
        b[i + 1] as int,
    );
    vstd::arithmetic::div_mod::lemma_fundamental_div_mod_converse(
        x,
        65536,
        q2 as int,
        b[i] + 256 * b[i + 1],
    );
    vstd::arithmetic::div_mod::lemma_fundamental_div_mod_converse(
        q2 as int,
        256,
        b[i + 3] as int,
        b[i + 2] as int,
    );
    vstd::arithmetic::div_mod::lemma_fundamental_div_mod_converse(
        x,
        16777216,
        b[i + 3] as int,
        b[i] + 256 * b[i + 1] + 65536 * b[i + 2],
    );
}

pub fn read_le16(b: &[u8], i: usize) -> (x: u16)
    requires
        i + 2 <= b@.len(),
    ensures
        x == le16_at(b@, i as int),
{
    let lo = b[i];
    let hi = b[i + 1];
    (lo as u16) + 256 * (hi as u16)
}

pub fn read_le32(b: &[u8], i: usize) -> (x: u32)
    requires
        i + 4 <= b@.len(),
    ensures
        x == le32_at(b@, i as int),
{
    let b0 = b[i];
    let b1 = b[i + 1];
    let b2 = b[i + 2];
    let b3 = b[i + 3];
    (b0 as u32) + 256 * (b1 as u32) + 65536 * (b2 as u32) + 16777216 * (b3 as u32)
}

/// The little-endian bytes of a 16-bit value, low byte first.
pub fn write_le16(x: u16) -> (r: Vec<u8>)
    ensures
        r@ == le16_bytes(x),
{
    let mut r: Vec<u8> = Vec::new();
    r.push((x % 256) as u8);
    r.push((x / 256) as u8);
    proof {
        assert(r@ =~= le16_bytes(x));
    }
    r
}

/// The little-endian bytes of a 32-bit value, low byte first.
pub fn write_le32(x: u32) -> (r: Vec<u8>)
    ensures
        r@ == le32_bytes(x),
{
    let mut r: Vec<u8> = Vec::new();
    r.push((x % 256) as u8);
    r.push((x / 256 % 256) as u8);
    r.push((x / 65536 % 256) as u8);
    r.push((x / 16777216) as u8);
    proof {
        assert(r@ =~= le32_bytes(x));
    }
    r
}

} // verus!
