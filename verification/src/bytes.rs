//! Big-endian and little-endian integer views of byte sequences, shared by
//! the chunk framing and the AMF0 codec.

use vstd::prelude::*;

verus! {

/// The 16-bit big-endian value formed by two bytes.
pub open spec fn be16(b0: u8, b1: u8) -> int {
    b0 as u32 * 0x100 + b1 as u32
}

/// The 24-bit big-endian value formed by three bytes.
pub open spec fn be24(b0: u8, b1: u8, b2: u8) -> int {
    b0 as u32 * 0x10000 + b1 as u32 * 0x100 + b2 as u32
}

/// The 32-bit big-endian value formed by four bytes.
pub open spec fn be32(b0: u8, b1: u8, b2: u8, b3: u8) -> int {
    b0 as int * 0x1000000 + b1 as int * 0x10000 + b2 as int * 0x100 + b3 as int
}

/// The 32-bit little-endian value formed by four bytes.
pub open spec fn le32(b0: u8, b1: u8, b2: u8, b3: u8) -> int {
    b3 as u32 * 0x1000000 + b2 as u32 * 0x10000 + b1 as u32 * 0x100 + b0 as u32
}

/// Read a 16-bit big-endian integer from two bytes.
pub fn read_be16(b0: u8, b1: u8) -> (r: u32)
    ensures
        r == be16(b0, b1),
{
    b0 as u32 * 0x100 + b1 as u32
}

/// Read a 24-bit big-endian integer from three bytes.
pub fn read_be24(b0: u8, b1: u8, b2: u8) -> (r: u32)
    ensures
        r == be24(b0, b1, b2),
{
    b0 as u32 * 0x10000 + b1 as u32 * 0x100 + b2 as u32
}

/// Read a 32-bit big-endian integer from four bytes.
pub fn read_be32(b0: u8, b1: u8, b2: u8, b3: u8) -> (r: u32)
    ensures
        r == be32(b0, b1, b2, b3),
{
    b0 as u32 * 0x1000000 + b1 as u32 * 0x10000 + b2 as u32 * 0x100 + b3 as u32
}

/// Read a 32-bit little-endian integer from four bytes.
pub fn read_le32(b0: u8, b1: u8, b2: u8, b3: u8) -> (r: u32)
    ensures
        r == le32(b0, b1, b2, b3),
{
    b3 as u32 * 0x1000000 + b2 as u32 * 0x10000 + b1 as u32 * 0x100 + b0 as u32
}

/// The four big-endian bytes of a 32-bit value, most significant first.
pub open spec fn be32_bytes(v: u32) -> Seq<u8> {
    seq![
        (v / 0x1000000) as u8,
        ((v / 0x10000) % 0x100) as u8,
        ((v / 0x100) % 0x100) as u8,
        (v % 0x100) as u8,
    ]
}

/// The three big-endian bytes of a 24-bit value, most significant first.
pub open spec fn be24_bytes(v: u32) -> Seq<u8>
    recommends
        v < 0x1000000,
{
    seq![((v / 0x10000) % 0x100) as u8, ((v / 0x100) % 0x100) as u8, (v % 0x100) as u8]
}

/// The two big-endian bytes of a 16-bit value, most significant first.
pub open spec fn be16_bytes(v: u32) -> Seq<u8>
    recommends
        v < 0x10000,
{
    seq![((v / 0x100) % 0x100) as u8, (v % 0x100) as u8]
}

/// The four little-endian bytes of a 32-bit value, least significant first.
pub open spec fn le32_bytes(v: u32) -> Seq<u8> {
    seq![
        (v % 0x100) as u8,
        ((v / 0x100) % 0x100) as u8,
        ((v / 0x10000) % 0x100) as u8,
        (v / 0x1000000) as u8,
    ]
}

/// Append the four big-endian bytes of `v` to `out`.
pub fn push_be32(out: &mut Vec<u8>, v: u32)
    ensures
        final(out)@ == old(out)@ + be32_bytes(v),
{
    out.push((v / 0x1000000) as u8);
    out.push(((v / 0x10000) % 0x100) as u8);
    out.push(((v / 0x100) % 0x100) as u8);
    out.push((v % 0x100) as u8);
    assert(final(out)@ =~= old(out)@ + be32_bytes(v));
}

/// Append the three big-endian bytes of `v` (a 24-bit value) to `out`.
pub fn push_be24(out: &mut Vec<u8>, v: u32)
    requires
        v < 0x1000000,
    ensures
        final(out)@ == old(out)@ + be24_bytes(v),
{
    out.push(((v / 0x10000) % 0x100) as u8);
    out.push(((v / 0x100) % 0x100) as u8);
    out.push((v % 0x100) as u8);
    assert(final(out)@ =~= old(out)@ + be24_bytes(v));
}

/// Append the two big-endian bytes of `v` (a 16-bit value) to `out`.
pub fn push_be16(out: &mut Vec<u8>, v: u32)
    requires
        v < 0x10000,
    ensures
        final(out)@ == old(out)@ + be16_bytes(v),
{
    out.push(((v / 0x100) % 0x100) as u8);
    out.push((v % 0x100) as u8);
    assert(final(out)@ =~= old(out)@ + be16_bytes(v));
}

/// Append the four little-endian bytes of `v` to `out`.
pub fn push_le32(out: &mut Vec<u8>, v: u32)
    ensures
        final(out)@ == old(out)@ + le32_bytes(v),
{
    out.push((v % 0x100) as u8);
    out.push(((v / 0x100) % 0x100) as u8);
    out.push(((v / 0x10000) % 0x100) as u8);
    out.push((v / 0x1000000) as u8);
    assert(final(out)@ =~= old(out)@ + le32_bytes(v));
}

/// Reading four big-endian bytes back yields the encoded value.
pub proof fn lemma_be32_roundtrip(v: u32)
    ensures
        be32(be32_bytes(v)[0], be32_bytes(v)[1], be32_bytes(v)[2], be32_bytes(v)[3]) == v,
{
}


/// The 64-bit big-endian value formed by eight bytes.
pub open spec fn be64(
    b0: u8,
    b1: u8,
    b2: u8,
    b3: u8,
    b4: u8,
    b5: u8,
    b6: u8,
    b7: u8,
) -> int {
    b0 as int * 0x100_0000_0000_0000 + b1 as int * 0x1_0000_0000_0000 + b2 as int
        * 0x100_0000_0000 + b3 as int * 0x1_0000_0000 + b4 as int * 0x100_0000 + b5 as int
        * 0x1_0000 + b6 as int * 0x100 + b7 as int
}

/// Read a 64-bit big-endian integer from eight bytes.
pub fn read_be64(b0: u8, b1: u8, b2: u8, b3: u8, b4: u8, b5: u8, b6: u8, b7: u8) -> (r: u64)
    ensures
        r == be64(b0, b1, b2, b3, b4, b5, b6, b7),
{
    b0 as u64 * 0x100_0000_0000_0000 + b1 as u64 * 0x1_0000_0000_0000 + b2 as u64
        * 0x100_0000_0000 + b3 as u64 * 0x1_0000_0000 + b4 as u64 * 0x100_0000 + b5 as u64
        * 0x1_0000 + b6 as u64 * 0x100 + b7 as u64
}

/// The eight big-endian bytes of a 64-bit value, most significant first.
pub open spec fn be64_bytes(v: u64) -> Seq<u8> {
    seq![
        ((v / 0x100_0000_0000_0000) % 0x100) as u8,
        ((v / 0x1_0000_0000_0000) % 0x100) as u8,
        ((v / 0x100_0000_0000) % 0x100) as u8,
        ((v / 0x1_0000_0000) % 0x100) as u8,
        ((v / 0x100_0000) % 0x100) as u8,
        ((v / 0x1_0000) % 0x100) as u8,
        ((v / 0x100) % 0x100) as u8,
        (v % 0x100) as u8,
    ]
}

/// Append the eight big-endian bytes of `v` to `out`.
pub fn push_be64(out: &mut Vec<u8>, v: u64)
    ensures
        final(out)@ == old(out)@ + be64_bytes(v),
{
    out.push(((v / 0x100_0000_0000_0000) % 0x100) as u8);
    out.push(((v / 0x1_0000_0000_0000) % 0x100) as u8);
    out.push(((v / 0x100_0000_0000) % 0x100) as u8);
    out.push(((v / 0x1_0000_0000) % 0x100) as u8);
    out.push(((v / 0x100_0000) % 0x100) as u8);
    out.push(((v / 0x1_0000) % 0x100) as u8);
    out.push(((v / 0x100) % 0x100) as u8);
    out.push((v % 0x100) as u8);
    assert(final(out)@ =~= old(out)@ + be64_bytes(v));
}

/// Reading eight big-endian bytes back yields the encoded value.
pub proof fn lemma_be64_roundtrip(v: u64)
    ensures
        be64(
            be64_bytes(v)[0],
            be64_bytes(v)[1],
            be64_bytes(v)[2],
            be64_bytes(v)[3],
            be64_bytes(v)[4],
            be64_bytes(v)[5],
            be64_bytes(v)[6],
            be64_bytes(v)[7],
        ) == v,
{
    assert((v / 0x100_0000_0000_0000) % 0x100 * 0x100_0000_0000_0000 + (v / 0x1_0000_0000_0000)
        % 0x100 * 0x1_0000_0000_0000 + (v / 0x100_0000_0000) % 0x100 * 0x100_0000_0000 + (v
        / 0x1_0000_0000) % 0x100 * 0x1_0000_0000 + (v / 0x100_0000) % 0x100 * 0x100_0000 + (v
        / 0x1_0000) % 0x100 * 0x1_0000 + (v / 0x100) % 0x100 * 0x100 + v % 0x100 == v) by (bit_vector);
}

/// Reading two big-endian bytes back yields the encoded value.
pub proof fn lemma_be16_roundtrip(v: u32)
    requires
        v < 0x10000,
    ensures
        be16(be16_bytes(v)[0], be16_bytes(v)[1]) == v,
{
}

} // verus!
