//! IFF chunks, the framing Blorb and AIFF share: a four-character
//! type, a big-endian length, the body, and a pad byte after an odd
//! body so the next chunk starts on an even offset.

use vstd::prelude::*;

verus! {

/// The chunk type of a nested IFF file.
pub const FORM: [u8; 4] = [0x46, 0x4F, 0x52, 0x4D];

/// One chunk of an IFF file.
#[derive(Debug, Clone, PartialEq, Eq)]
pub struct IffChunk {
    /// The four-character chunk type.
    pub chunk_id: [u8; 4],
    /// The chunk's body, without its header or pad byte.
    pub payload: Vec<u8>,
    /// Where the chunk's header starts in the file it was read from.
    pub offset: usize,
}

/// A value as four big-endian bytes.
pub open spec fn be32(value: int) -> Seq<u8> {
    seq![
        (value / 0x1000000 % 0x100) as u8,
        (value / 0x10000 % 0x100) as u8,
        (value / 0x100 % 0x100) as u8,
        (value % 0x100) as u8,
    ]
}

/// The big-endian unsigned short at a position.
pub open spec fn be16_at(data: Seq<u8>, at: int) -> int {
    data[at] as int * 0x100 + data[at + 1] as int
}

/// The big-endian unsigned word at a position.
pub open spec fn be32_at(data: Seq<u8>, at: int) -> int {
    be16_at(data, at) * 0x10000 + be16_at(data, at + 2)
}

/// The big-endian unsigned double word at a position.
pub open spec fn be64_at(data: Seq<u8>, at: int) -> int {
    be32_at(data, at) * 0x1_0000_0000 + be32_at(data, at + 4)
}

/// The big-endian unsigned short at a position.
pub fn read_be16(data: &[u8], at: usize) -> (value: u16)
    requires
        at + 2 <= data@.len(),
    ensures
        value == be16_at(data@, at as int),
{
    data[at] as u16 * 0x100 + data[at + 1] as u16
}

/// The big-endian unsigned word at a position.
pub fn read_be32(data: &[u8], at: usize) -> (value: u32)
    requires
        at + 4 <= data@.len(),
    ensures
        value == be32_at(data@, at as int),
{
    let _count = data.len();
    let high = read_be16(data, at);
    let low = read_be16(data, at + 2);
    high as u32 * 0x10000 + low as u32
}

/// The big-endian unsigned double word at a position.
pub fn read_be64(data: &[u8], at: usize) -> (value: u64)
    requires
        at + 8 <= data@.len(),
    ensures
        value == be64_at(data@, at as int),
{
    let _count = data.len();
    let high = read_be32(data, at);
    let low = read_be32(data, at + 4);
    high as u64 * 0x1_0000_0000 + low as u64
}

/// A chunk framed: its type, its length, its body, and a pad byte after
/// an odd body.
pub open spec fn framed(chunk_id: Seq<u8>, payload: Seq<u8>) -> Seq<u8> {
    chunk_id + be32(payload.len() as int) + payload + if payload.len() % 2 == 1 {
        seq![0u8]
    } else {
        Seq::empty()
    }
}

/// A word's four big-endian bytes, pushed.
pub fn push_be32(out: &mut Vec<u8>, value: u32)
    ensures
        final(out)@ == old(out)@ + be32(value as int),
{
    let b0 = (value >> 24) as u8;
    let b1 = ((value >> 16) & 0xFF) as u8;
    let b2 = ((value >> 8) & 0xFF) as u8;
    let b3 = (value & 0xFF) as u8;
    proof {
        assert(value >> 24 == value / 0x1000000 % 0x100) by (bit_vector);
        assert((value >> 16) & 0xFF == value / 0x10000 % 0x100) by (bit_vector);
        assert((value >> 8) & 0xFF == value / 0x100 % 0x100) by (bit_vector);
        assert(value & 0xFF == value % 0x100) by (bit_vector);
    }
    out.push(b0);
    out.push(b1);
    out.push(b2);
    out.push(b3);
    proof {
        assert(final(out)@ =~= old(out)@ + be32(value as int));
    }
}

/// A byte of a value, counted in units of `unit`, is unmoved by adding
/// a multiple of 2^32 to the value.
pub(crate) proof fn lemma_byte_unmoved(low: int, q: int, unit: int, rest: int)
    requires
        low >= 0,
        q >= 0,
        unit > 0,
        rest > 0,
        unit * 0x100 * rest == 0x1_0000_0000,
    ensures
        (low + q * 0x1_0000_0000) / unit % 0x100 == low / unit % 0x100,
{
    let k = q * rest;
    assert(q * 0x1_0000_0000 == (k * 0x100) * unit) by (nonlinear_arith)
        requires
            unit * 0x100 * rest == 0x1_0000_0000,
            k == q * rest,
    ;
    vstd::arithmetic::div_mod::lemma_hoist_over_denominator(low, k * 0x100, unit as nat);
    assert((low + q * 0x1_0000_0000) / unit == low / unit + k * 0x100);
    vstd::arithmetic::div_mod::lemma_mod_multiples_vanish(k, low / unit, 0x100);
    assert(0x100 * k + low / unit == low / unit + k * 0x100);
}

/// A value's four big-endian bytes are those of its remainder by 2^32.
proof fn lemma_be32_low(value: int)
    requires
        value >= 0,
    ensures
        be32(value % 0x1_0000_0000) == be32(value),
{
    let q = value / 0x1_0000_0000;
    let low = value % 0x1_0000_0000;
    assert(value == low + q * 0x1_0000_0000);
    lemma_byte_unmoved(low, q, 1, 0x1000000);
    lemma_byte_unmoved(low, q, 0x100, 0x10000);
    lemma_byte_unmoved(low, q, 0x10000, 0x100);
    lemma_byte_unmoved(low, q, 0x1000000, 1);
    assert(low % 0x100 == low / 1 % 0x100);
    assert(value % 0x100 == value / 1 % 0x100);
}

/// Bytes appended in order.
pub fn push_all(out: &mut Vec<u8>, data: &[u8])
    ensures
        final(out)@ == old(out)@ + data@,
{
    let mut index: usize = 0;
    while index < data.len()
        invariant
            index <= data@.len(),
            out@ == old(out)@ + data@.take(index as int),
        decreases data.len() - index,
    {
        out.push(data[index]);
        index += 1;
        proof {
            assert(data@.take(index as int) == data@.take(index - 1).push(data@[index - 1]));
        }
    }
    proof {
        assert(data@.take(data@.len() as int) == data@);
    }
}

/// A chunk framed as a file holds it: header, body, and the pad byte
/// an odd body is followed by.
///
/// The length word holds the body's length in 32 bits, which is all an
/// IFF length can say.
pub fn chunk(chunk_id: &[u8; 4], payload: &[u8]) -> (framed_bytes: Vec<u8>)
    ensures
        framed_bytes@ == framed(chunk_id@, payload@),
{
    let mut out: Vec<u8> = Vec::new();
    push_all(&mut out, chunk_id.as_slice());
    let length = payload.len() as u64;
    let low = (length % 0x1_0000_0000) as u32;
    proof {
        lemma_be32_low(length as int);
    }
    push_be32(&mut out, low);
    push_all(&mut out, payload);
    if payload.len() % 2 == 1 {
        out.push(0);
    }
    proof {
        assert(out@ =~= framed(chunk_id@, payload@));
    }
    out
}

} // verus!
