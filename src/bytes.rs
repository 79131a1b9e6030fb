//! Fixed-width big-endian integers.

use vstd::prelude::*;

verus! {

/// The four bytes of `v`, most significant first.
pub open spec fn be32(v: u32) -> Seq<u8> {
    seq![(v >> 24u32) as u8, (v >> 16u32) as u8, (v >> 8u32) as u8, v as u8]
}

/// The eight bytes of `v`, most significant first.
pub open spec fn be64(v: u64) -> Seq<u8> {
    seq![
        (v >> 56u64) as u8,
        (v >> 48u64) as u8,
        (v >> 40u64) as u8,
        (v >> 32u64) as u8,
        (v >> 24u64) as u8,
        (v >> 16u64) as u8,
        (v >> 8u64) as u8,
        v as u8,
    ]
}

/// The integer that the first four bytes of `b` spell, most significant first.
pub open spec fn be32_value(b: Seq<u8>) -> u32
    recommends
        b.len() >= 4,
{
    ((b[0] as u32) << 24u32) | ((b[1] as u32) << 16u32) | ((b[2] as u32) << 8u32) | (b[3] as u32)
}

/// The integer that the first eight bytes of `b` spell, most significant first.
pub open spec fn be64_value(b: Seq<u8>) -> u64
    recommends
        b.len() >= 8,
{
    ((b[0] as u64) << 56u64) | ((b[1] as u64) << 48u64) | ((b[2] as u64) << 40u64) | ((b[3] as u64)
        << 32u64) | ((b[4] as u64) << 24u64) | ((b[5] as u64) << 16u64) | ((b[6] as u64) << 8u64)
        | (b[7] as u64)
}

/// Reading back the bytes of a 32-bit integer gives the integer.
pub proof fn lemma_be32_round_trip(v: u32)
    ensures
        be32_value(be32(v)) == v,
{
    let b = be32(v);
    assert(((((v >> 24u32) as u8) as u32) << 24u32) | ((((v >> 16u32) as u8) as u32) << 16u32) | ((((
    v >> 8u32) as u8) as u32) << 8u32) | ((v as u8) as u32) == v) by (bit_vector);
}

/// Reading back the bytes of a 64-bit integer gives the integer.
pub proof fn lemma_be64_round_trip(v: u64)
    ensures
        be64_value(be64(v)) == v,
{
    assert(((((v >> 56u64) as u8) as u64) << 56u64) | ((((v >> 48u64) as u8) as u64) << 48u64) | ((((
    v >> 40u64) as u8) as u64) << 40u64) | ((((v >> 32u64) as u8) as u64) << 32u64) | ((((v
        >> 24u64) as u8) as u64) << 24u64) | ((((v >> 16u64) as u8) as u64) << 16u64) | ((((v
        >> 8u64) as u8) as u64) << 8u64) | ((v as u8) as u64) == v) by (bit_vector);
}

/// Appends the four big-endian bytes of `value` to `sink`.
pub fn encode_be_u32(value: u32, sink: &mut Vec<u8>)
    ensures
        final(sink)@ == old(sink)@ + be32(value),
{
    sink.push((value >> 24u32) as u8);
    sink.push((value >> 16u32) as u8);
    sink.push((value >> 8u32) as u8);
    sink.push(value as u8);
    assert(sink@ =~= old(sink)@ + be32(value));
}

/// Appends the eight big-endian bytes of `value` to `sink`.
pub fn encode_be_u64(value: u64, sink: &mut Vec<u8>)
    ensures
        final(sink)@ == old(sink)@ + be64(value),
{
    sink.push((value >> 56u64) as u8);
    sink.push((value >> 48u64) as u8);
    sink.push((value >> 40u64) as u8);
    sink.push((value >> 32u64) as u8);
    sink.push((value >> 24u64) as u8);
    sink.push((value >> 16u64) as u8);
    sink.push((value >> 8u64) as u8);
    sink.push(value as u8);
    assert(sink@ =~= old(sink)@ + be64(value));
}

/// The 32-bit integer stored big-endian at `pos`.
pub fn read_be_u32(input: &[u8], pos: usize) -> (r: u32)
    requires
        pos + 4 <= input@.len(),
    ensures
        r == be32_value(input@.subrange(pos as int, pos + 4)),
{
    ((input[pos] as u32) << 24u32) | ((input[pos + 1] as u32) << 16u32) | ((input[pos + 2] as u32)
        << 8u32) | (input[pos + 3] as u32)
}

/// The 64-bit integer stored big-endian at `pos`.
pub fn read_be_u64(input: &[u8], pos: usize) -> (r: u64)
    requires
        pos + 8 <= input@.len(),
    ensures
        r == be64_value(input@.subrange(pos as int, pos + 8)),
{
    ((input[pos] as u64) << 56u64) | ((input[pos + 1] as u64) << 48u64) | ((input[pos + 2] as u64)
        << 40u64) | ((input[pos + 3] as u64) << 32u64) | ((input[pos + 4] as u64) << 24u64) | ((
    input[pos + 5] as u64) << 16u64) | ((input[pos + 6] as u64) << 8u64) | (input[pos + 7] as u64)
}

} // verus!
