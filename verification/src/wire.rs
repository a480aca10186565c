//! Bytes on the wire: big-endian numbers, read and written, and the reasons
//! for which a header is not accepted.

use vstd::prelude::*;
use vstd::arithmetic::div_mod::lemma_fundamental_div_mod_converse;

verus! {

/// Why a header was not accepted.
#[derive(Clone, Copy, Debug, PartialEq, Eq, Structural)]
pub enum ParseError {
    /// Fewer than the twenty bytes of a header without options.
    TooShort,
    /// The version nibble is not 4.
    BadVersion,
    /// The header gives itself fewer than five 32-bit words.
    BadHeaderLength,
    /// The header gives itself more bytes than the input has.
    Truncated,
    /// The stored checksum is not the checksum of the header.
    BadChecksum,
}

/// The 16-bit number whose big-endian bytes are `hi`, `lo`.
pub open spec fn be16(hi: u8, lo: u8) -> u16 {
    (hi as int * 256 + lo as int) as u16
}

/// The 32-bit number whose big-endian bytes are `b0`, `b1`, `b2`, `b3`.
pub open spec fn be32(b0: u8, b1: u8, b2: u8, b3: u8) -> u32 {
    (b0 as int * 0x100_0000 + b1 as int * 0x1_0000 + b2 as int * 0x100 + b3 as int) as u32
}

/// The two bytes of `v`, most significant first.
pub open spec fn u16_bytes(v: u16) -> Seq<u8> {
    seq![(v / 256) as u8, (v % 256) as u8]
}

/// The four bytes of `v`, most significant first.
pub open spec fn u32_bytes(v: u32) -> Seq<u8> {
    seq![
        (v / 0x100_0000) as u8,
        ((v / 0x1_0000) % 256) as u8,
        ((v / 0x100) % 256) as u8,
        (v % 256) as u8,
    ]
}

/// The 16-bit number that `bytes` holds at offset `at`.
pub open spec fn u16_at(bytes: Seq<u8>, at: int) -> u16 {
    be16(bytes[at], bytes[at + 1])
}

/// The 32-bit number that `bytes` holds at offset `at`.
pub open spec fn u32_at(bytes: Seq<u8>, at: int) -> u32 {
    be32(bytes[at], bytes[at + 1], bytes[at + 2], bytes[at + 3])
}

/// `bytes` with the two bytes at offset `at` replaced by those of `v`.
pub open spec fn with_u16(bytes: Seq<u8>, at: int, v: u16) -> Seq<u8> {
    bytes.update(at, (v / 256) as u8).update(at + 1, (v % 256) as u8)
}

proof fn lemma_join16(hi: u8, lo: u8)
    by (bit_vector)
    ensures
        ((hi as u16) << 8) | (lo as u16) == hi as u16 * 256 + lo as u16,
{
}

proof fn lemma_join32(b0: u8, b1: u8, b2: u8, b3: u8)
    by (bit_vector)
    ensures
        ((b0 as u32) << 24) | ((b1 as u32) << 16) | ((b2 as u32) << 8) | (b3 as u32) == b0 as u32
            * 0x100_0000 + b1 as u32 * 0x1_0000 + b2 as u32 * 0x100 + b3 as u32,
{
}

/// The two bytes of a 16-bit number, as the shift and the cast compute them.
pub proof fn lemma_u16_split(v: u16)
    by (bit_vector)
    ensures
        (v >> 8) as u8 == v / 256,
        v as u8 == v % 256,
{
}

proof fn lemma_split32(v: u32)
    by (bit_vector)
    ensures
        (v >> 24) as u8 == v / 0x100_0000,
        (v >> 16) as u8 == (v / 0x1_0000) % 256,
        (v >> 8) as u8 == (v / 0x100) % 256,
        v as u8 == v % 256,
{
}

/// The two nibbles of a byte, as the shift and the mask compute them.
pub proof fn lemma_nibbles(b: u8)
    by (bit_vector)
    ensures
        b >> 4 == b / 16,
        b & 0x0F == b % 16,
{
}

/// Encoding a number and reading it back gives the number.
pub proof fn lemma_u16_bytes_round_trip(v: u16)
    ensures
        u16_bytes(v).len() == 2,
        u16_at(u16_bytes(v), 0) == v,
{
    assert(v == (v as int / 256) * 256 + v as int % 256);
}

/// Reading two bytes as a number and encoding it gives the two bytes.
pub proof fn lemma_be16_bytes(hi: u8, lo: u8)
    ensures
        u16_bytes(be16(hi, lo)) =~= seq![hi, lo],
{
    lemma_fundamental_div_mod_converse(be16(hi, lo) as int, 256, hi as int, lo as int);
}

/// Encoding a number and reading it back gives the number.
pub proof fn lemma_u32_bytes_round_trip(v: u32)
    ensures
        u32_bytes(v).len() == 4,
        u32_at(u32_bytes(v), 0) == v,
{
    let q1 = v as int / 0x100;
    let q2 = q1 / 0x100;
    let q3 = q2 / 0x100;
    assert(v == q1 * 0x100 + v as int % 0x100);
    assert(q1 == q2 * 0x100 + q1 % 0x100);
    assert(q2 == q3 * 0x100 + q2 % 0x100);
    lemma_fundamental_div_mod_converse(v as int, 0x1_0000, q2, (q1 % 0x100) * 0x100 + v as int % 0x100);
    lemma_fundamental_div_mod_converse(
        v as int,
        0x100_0000,
        q3,
        (q2 % 0x100) * 0x1_0000 + (q1 % 0x100) * 0x100 + v as int % 0x100,
    );
}

/// Reading four bytes as a number and encoding it gives the four bytes.
pub proof fn lemma_be32_bytes(b0: u8, b1: u8, b2: u8, b3: u8)
    ensures
        u32_bytes(be32(b0, b1, b2, b3)) =~= seq![b0, b1, b2, b3],
{
    let v = be32(b0, b1, b2, b3) as int;
    let top1 = b0 as int;
    let top2 = top1 * 0x100 + b1 as int;
    let top3 = top2 * 0x100 + b2 as int;
    assert(v == top3 * 0x100 + b3 as int);
    lemma_fundamental_div_mod_converse(v, 0x100, top3, b3 as int);
    lemma_fundamental_div_mod_converse(v, 0x1_0000, top2, b2 as int * 0x100 + b3 as int);
    lemma_fundamental_div_mod_converse(
        v,
        0x100_0000,
        top1,
        b1 as int * 0x1_0000 + b2 as int * 0x100 + b3 as int,
    );
    lemma_fundamental_div_mod_converse(top3, 0x100, top2, b2 as int);
    lemma_fundamental_div_mod_converse(top2, 0x100, top1, b1 as int);
}

/// Reads the big-endian 16-bit number at `at`.
pub fn read_u16(data: &[u8], at: usize) -> (v: u16)
    requires
        at + 1 < data@.len(),
    ensures
        v == u16_at(data@, at as int),
{
    let hi = data[at];
    let lo = data[at + 1];
    proof {
        lemma_join16(hi, lo);
    }
    ((hi as u16) << 8) | (lo as u16)
}

/// Reads the big-endian 32-bit number at `at`.
pub fn read_u32(data: &[u8], at: usize) -> (v: u32)
    requires
        at + 3 < data@.len(),
    ensures
        v == u32_at(data@, at as int),
{
    let b0 = data[at];
    let b1 = data[at + 1];
    let b2 = data[at + 2];
    let b3 = data[at + 3];
    proof {
        lemma_join32(b0, b1, b2, b3);
    }
    ((b0 as u32) << 24) | ((b1 as u32) << 16) | ((b2 as u32) << 8) | (b3 as u32)
}

/// Copies `source` over the bytes of `destination` that start at `at`.
pub fn copy_into(destination: &mut [u8], at: usize, source: &[u8])
    requires
        at + source@.len() <= old(destination)@.len(),
    ensures
        final(destination)@ == old(destination)@.subrange(0, at as int) + source@ + old(
            destination,
        )@.subrange(at + source@.len(), old(destination)@.len() as int),
{
    let total: usize = destination.len();
    let mut i: usize = 0;
    while i < source.len()
        invariant
            i <= source@.len(),
            at + source@.len() <= total,
            destination@.len() == total,
            old(destination)@.len() == total,
            destination@ == old(destination)@.subrange(0, at as int) + source@.subrange(0, i as int)
                + old(destination)@.subrange(at + i, old(destination)@.len() as int),
        decreases source@.len() - i,
    {
        destination[at + i] = source[i];
        i = i + 1;
        assert(destination@ =~= old(destination)@.subrange(0, at as int) + source@.subrange(
            0,
            i as int,
        ) + old(destination)@.subrange(at + i, old(destination)@.len() as int));
    }
    assert(source@.subrange(0, i as int) =~= source@);
}

/// Appends `bytes`.
pub fn append(buffer: &mut Vec<u8>, bytes: &[u8])
    ensures
        final(buffer)@ == old(buffer)@ + bytes@,
{
    let mut i: usize = 0;
    while i < bytes.len()
        invariant
            i <= bytes@.len(),
            buffer@ == old(buffer)@ + bytes@.subrange(0, i as int),
        decreases bytes@.len() - i,
    {
        buffer.push(bytes[i]);
        i = i + 1;
        assert(buffer@ =~= old(buffer)@ + bytes@.subrange(0, i as int));
    }
    assert(bytes@.subrange(0, i as int) =~= bytes@);
}

/// Appends the two bytes of `v`, most significant first.
pub fn push_u16(buffer: &mut Vec<u8>, v: u16)
    ensures
        final(buffer)@ == old(buffer)@ + u16_bytes(v),
{
    proof {
        lemma_u16_split(v);
    }
    buffer.push((v >> 8) as u8);
    buffer.push(v as u8);
}

/// Appends the four bytes of `v`, most significant first.
pub fn push_u32(buffer: &mut Vec<u8>, v: u32)
    ensures
        final(buffer)@ == old(buffer)@ + u32_bytes(v),
{
    proof {
        lemma_split32(v);
    }
    buffer.push((v >> 24) as u8);
    buffer.push((v >> 16) as u8);
    buffer.push((v >> 8) as u8);
    buffer.push(v as u8);
}

} // verus!
