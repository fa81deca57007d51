//! Big-endian byte-order helpers shared by the digest and the frame codec.
use vstd::prelude::*;

verus! {

/// The big-endian value of two bytes.
pub open spec fn spec_u16_be(b0: u8, b1: u8) -> u16 {
    ((b0 as u16) << 8) | (b1 as u16)
}

/// The big-endian value of four bytes.
pub open spec fn spec_u32_be(b0: u8, b1: u8, b2: u8, b3: u8) -> u32 {
    ((b0 as u32) << 24) | ((b1 as u32) << 16) | ((b2 as u32) << 8) | (b3 as u32)
}

/// The big-endian value of eight bytes.
pub open spec fn spec_u64_be(
    b0: u8,
    b1: u8,
    b2: u8,
    b3: u8,
    b4: u8,
    b5: u8,
    b6: u8,
    b7: u8,
) -> u64 {
    ((b0 as u64) << 56) | ((b1 as u64) << 48) | ((b2 as u64) << 40) | ((b3 as u64) << 32) | ((
    b4 as u64) << 24) | ((b5 as u64) << 16) | ((b6 as u64) << 8) | (b7 as u64)
}

/// The two big-endian bytes of a 16-bit value.
pub open spec fn spec_u16_bytes(x: u16) -> Seq<u8> {
    seq![((x >> 8) & 0xFF) as u8, (x & 0xFF) as u8]
}

/// The four big-endian bytes of a 32-bit value.
pub open spec fn spec_u32_bytes(x: u32) -> Seq<u8> {
    seq![
        ((x >> 24) & 0xFF) as u8,
        ((x >> 16) & 0xFF) as u8,
        ((x >> 8) & 0xFF) as u8,
        (x & 0xFF) as u8,
    ]
}

/// The eight big-endian bytes of a 64-bit value.
pub open spec fn spec_u64_bytes(x: u64) -> Seq<u8> {
    seq![
        ((x >> 56) & 0xFF) as u8,
        ((x >> 48) & 0xFF) as u8,
        ((x >> 40) & 0xFF) as u8,
        ((x >> 32) & 0xFF) as u8,
        ((x >> 24) & 0xFF) as u8,
        ((x >> 16) & 0xFF) as u8,
        ((x >> 8) & 0xFF) as u8,
        (x & 0xFF) as u8,
    ]
}

/// Reading two big-endian bytes back gives the value they were made from.
pub proof fn lemma_u16_bytes_roundtrip(x: u16)
    by (bit_vector)
    ensures
        spec_u16_be(((x >> 8) & 0xFF) as u8, (x & 0xFF) as u8) == x,
{
}

/// Reading eight big-endian bytes back gives the value they were made from,
/// and the top bit of the first byte is the top bit of the value.
pub proof fn lemma_u64_bytes_roundtrip(x: u64)
    by (bit_vector)
    ensures
        spec_u64_be(
            ((x >> 56) & 0xFF) as u8,
            ((x >> 48) & 0xFF) as u8,
            ((x >> 40) & 0xFF) as u8,
            ((x >> 32) & 0xFF) as u8,
            ((x >> 24) & 0xFF) as u8,
            ((x >> 16) & 0xFF) as u8,
            ((x >> 8) & 0xFF) as u8,
            (x & 0xFF) as u8,
        ) == x,
        x < 0x8000000000000000 ==> ((((x >> 56) & 0xFF) as u8) >> 7) & 1 == 0,
{
}

/// The big-endian value of two bytes.
pub fn u16_from_be_bytes(b0: u8, b1: u8) -> (r: u16)
    ensures
        r == spec_u16_be(b0, b1),
{
    ((b0 as u16) << 8) | (b1 as u16)
}

/// The big-endian value of four bytes.
pub fn u32_from_be_bytes(b0: u8, b1: u8, b2: u8, b3: u8) -> (r: u32)
    ensures
        r == spec_u32_be(b0, b1, b2, b3),
{
    ((b0 as u32) << 24) | ((b1 as u32) << 16) | ((b2 as u32) << 8) | (b3 as u32)
}

/// The big-endian value of eight bytes.
pub fn u64_from_be_bytes(b0: u8, b1: u8, b2: u8, b3: u8, b4: u8, b5: u8, b6: u8, b7: u8) -> (r: u64)
    ensures
        r == spec_u64_be(b0, b1, b2, b3, b4, b5, b6, b7),
{
    ((b0 as u64) << 56) | ((b1 as u64) << 48) | ((b2 as u64) << 40) | ((b3 as u64) << 32) | ((
    b4 as u64) << 24) | ((b5 as u64) << 16) | ((b6 as u64) << 8) | (b7 as u64)
}

} // verus!
