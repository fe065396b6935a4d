//! AIFF sounds read out of their FORM: the channel count, the sample
//! rate and width from the COMM chunk, and the sample points the SSND
//! chunk holds (Audio IFF 1.3). Blorb stores its sampled sounds this
//! way (Blorb: Sound Resource Chunks).

use vstd::prelude::*;
use vstd::arithmetic::power2::pow2;

use crate::iff::{be16_at, be32_at, be64_at, read_be16, read_be32, read_be64, FORM};

verus! {

/// The FORM type of an AIFF file.
pub const AIFF_ID: [u8; 4] = [0x41, 0x49, 0x46, 0x46];

/// The common chunk: channels, frames, sample width, and rate.
pub const COMM_ID: [u8; 4] = [0x43, 0x4F, 0x4D, 0x4D];

/// The sound data chunk.
pub const SSND_ID: [u8; 4] = [0x53, 0x53, 0x4E, 0x44];

/// A sampled sound: big-endian signed sample points, channels
/// interleaved frame by frame, as AIFF holds them.
#[derive(Debug, Clone, PartialEq, Eq)]
pub struct Sound {
    /// How many channels each frame interleaves.
    pub channels: u16,
    /// Sample frames per second.
    pub rate: u32,
    /// Bits in each sample point.
    pub bits: u16,
    /// The sample points, each in as many whole bytes as its bits take.
    pub samples: Vec<u8>,
}

/// How many bytes a sample point of so many bits takes.
pub open spec fn width_of(bits: int) -> int {
    (bits + 7) / 8
}

/// The position of the first chunk of a type, walking the chunks from
/// one position up to an end; None where none is found before the end
/// or a chunk runs past it.
pub open spec fn chunk_named(data: Seq<u8>, at: int, end: int, id: Seq<u8>) -> Option<int>
    decreases end + 1 - at,
{
    if at < 0 || at + 8 > end || end > data.len() {
        None
    } else {
        let length = be32_at(data, at + 4);
        if at + 8 + length > end {
            None
        } else if data.subrange(at, at + 4) == id {
            Some(at)
        } else {
            chunk_named(data, at + 8 + length + length % 2, end, id)
        }
    }
}

/// A chunk found by the walk lies whole between where the walk began
/// and its end.
proof fn chunk_named_bounds(data: Seq<u8>, at: int, end: int, id: Seq<u8>)
    requires
        chunk_named(data, at, end, id) is Some,
    ensures
        at <= chunk_named(data, at, end, id)->0,
        chunk_named(data, at, end, id)->0 + 8 + be32_at(data, chunk_named(data, at, end, id)->0 + 4)
            <= end <= data.len(),
    decreases end + 1 - at,
{
    let length = be32_at(data, at + 4);
    if data.subrange(at, at + 4) != id {
        chunk_named_bounds(data, at + 8 + length + length % 2, end, id);
    }
}

/// A sample rate from its 80-bit extended-precision form, truncated to
/// whole frames per second: None for a negative rate, one below a
/// frame a second, or one past what a word holds.
pub open spec fn extended_rate(exponent: int, mantissa: int) -> Option<int> {
    if exponent < 16383 || exponent > 16383 + 31 {
        None
    } else {
        let rate = mantissa / pow2((16383 + 63 - exponent) as nat) as int;
        if rate == 0 {
            None
        } else {
            Some(rate)
        }
    }
}

/// What an AIFF file's bytes hold: channels, rate, bits, and sample
/// points; None where the bytes are no AIFF, lack the COMM or SSND
/// chunk, or describe more sample points than the SSND chunk carries.
pub open spec fn heard(data: Seq<u8>) -> Option<(u16, u32, u16, Seq<u8>)> {
    if data.len() < 12 || data.subrange(0, 4) != FORM@ || data.subrange(8, 12) != AIFF_ID@ {
        None
    } else {
        let end = if 8 + be32_at(data, 4) < data.len() {
            8 + be32_at(data, 4)
        } else {
            data.len() as int
        };
        match (chunk_named(data, 12, end, COMM_ID@), chunk_named(data, 12, end, SSND_ID@)) {
            (Some(comm), Some(ssnd)) => {
                let channels = be16_at(data, comm + 8);
                let frames = be32_at(data, comm + 10);
                let bits = be16_at(data, comm + 14);
                let start = ssnd + 16 + be32_at(data, ssnd + 8);
                let count = frames * channels * width_of(bits);
                if be32_at(data, comm + 4) < 18 || be32_at(data, ssnd + 4) < 8 {
                    None
                } else if channels < 1 || channels >= 0x8000 || bits < 1 || bits > 32 {
                    None
                } else if start + count > ssnd + 8 + be32_at(data, ssnd + 4) {
                    None
                } else {
                    match extended_rate(be16_at(data, comm + 16), be64_at(data, comm + 18)) {
                        None => None,
                        Some(rate) => Some(
                            (
                                channels as u16,
                                rate as u32,
                                bits as u16,
                                data.subrange(start, start + count),
                            ),
                        ),
                    }
                }
            },
            _ => None,
        }
    }
}

/// Whether the chunk type at a position is the one named.
fn id_at(data: &[u8], at: usize, id: &[u8; 4]) -> (same: bool)
    requires
        at + 4 <= data@.len(),
    ensures
        same == (data@.subrange(at as int, at + 4) == id@),
{
    let same = data[at] == id[0] && data[at + 1] == id[1] && data[at + 2] == id[2] && data[at
        + 3] == id[3];
    proof {
        if same {
            assert(data@.subrange(at as int, at + 4) =~= id@);
        } else {
            assert(data@.subrange(at as int, at + 4) != id@) by {
                if data@.subrange(at as int, at + 4) == id@ {
                    assert(data@.subrange(at as int, at + 4)[0] == id@[0]);
                    assert(data@.subrange(at as int, at + 4)[1] == id@[1]);
                    assert(data@.subrange(at as int, at + 4)[2] == id@[2]);
                    assert(data@.subrange(at as int, at + 4)[3] == id@[3]);
                }
            }
        }
    }
    same
}

/// Walk the chunks from a position up to an end for the first of a
/// type.
fn find_chunk(data: &[u8], from: usize, end: usize, id: &[u8; 4]) -> (found: Option<usize>)
    requires
        end <= data@.len(),
    ensures
        match found {
            Some(at) => chunk_named(data@, from as int, end as int, id@) == Some(at as int)
                && at + 8 <= end,
            None => chunk_named(data@, from as int, end as int, id@) is None,
        },
{
    if from as u128 + 8 > end as u128 {
        return None;
    }
    let mut at: u128 = from as u128;
    let last: u128 = end as u128;
    while at + 8 <= last
        invariant
            last == end <= data@.len(),
            at <= last + 1,
            chunk_named(data@, from as int, end as int, id@) == chunk_named(
                data@,
                at as int,
                end as int,
                id@,
            ),
        decreases last + 1 - at,
    {
        let length = read_be32(data, at as usize + 4) as u128;
        if at + 8 + length > last {
            return None;
        }
        if id_at(data, at as usize, id) {
            return Some(at as usize);
        }
        at = at + 8 + length + length % 2;
    }
    None
}

/// A sample rate from its extended-precision exponent and mantissa.
fn rate_of(exponent: u16, mantissa: u64) -> (rate: Option<u32>)
    ensures
        match rate {
            Some(value) => extended_rate(exponent as int, mantissa as int) == Some(value as int),
            None => extended_rate(exponent as int, mantissa as int) is None,
        },
{
    if exponent < 16383 || exponent > 16383 + 31 {
        return None;
    }
    let shift: u64 = (16383 + 63 - exponent) as u64;
    let rate = mantissa >> shift;
    proof {
        vstd::bits::lemma_u64_shr_is_div(mantissa, shift);
        assert(shift >= 32 ==> mantissa >> shift < 0x1_0000_0000) by (bit_vector);
    }
    if rate == 0 {
        None
    } else {
        Some(rate as u32)
    }
}

/// Read an AIFF file's sound.
pub fn decode(data: &[u8]) -> (sound: Option<Sound>)
    ensures
        match (sound, heard(data@)) {
            (Some(found), Some((channels, rate, bits, samples))) => found.channels == channels
                && found.rate == rate && found.bits == bits && found.samples@ == samples,
            (None, None) => true,
            _ => false,
        },
{
    let count = data.len();
    if count < 12 || !id_at(data, 0, &FORM) || !id_at(data, 8, &AIFF_ID) {
        return None;
    }
    let declared = read_be32(data, 4) as u64 + 8;
    let end: usize = if declared < count as u64 {
        declared as usize
    } else {
        count
    };
    let comm = match find_chunk(data, 12, end, &COMM_ID) {
        Some(at) => at,
        None => return None,
    };
    let ssnd = match find_chunk(data, 12, end, &SSND_ID) {
        Some(at) => at,
        None => return None,
    };
    proof {
        chunk_named_bounds(data@, 12, end as int, COMM_ID@);
        chunk_named_bounds(data@, 12, end as int, SSND_ID@);
    }
    let comm_length = read_be32(data, comm + 4);
    let ssnd_length = read_be32(data, ssnd + 4);
    if comm_length < 18 || ssnd_length < 8 {
        return None;
    }
    let channels = read_be16(data, comm + 8);
    let frames = read_be32(data, comm + 10);
    let bits = read_be16(data, comm + 14);
    if channels < 1 || channels >= 0x8000 || bits < 1 || bits > 32 {
        return None;
    }
    let width: u64 = (bits as u64 + 7) / 8;
    let start: u64 = ssnd as u64 + 16 + read_be32(data, ssnd + 8) as u64;
    proof {
        assert(frames as u64 * channels as u64 <= 0xFFFF_FFFF * 0x7FFF) by (nonlinear_arith)
            requires
                frames <= 0xFFFF_FFFFu32,
                channels < 0x8000u16,
        ;
        assert((frames as u64 * channels as u64) * width <= 0xFFFF_FFFF * 0x7FFF * 4)
            by (nonlinear_arith)
            requires
                frames as u64 * channels as u64 <= 0xFFFF_FFFF * 0x7FFF,
                width <= 4,
        ;
    }
    let points: u64 = frames as u64 * channels as u64 * width;
    if start + points > ssnd as u64 + 8 + ssnd_length as u64 {
        return None;
    }
    let exponent = read_be16(data, comm + 16);
    let mantissa = read_be64(data, comm + 18);
    let rate = match rate_of(exponent, mantissa) {
        Some(rate) => rate,
        None => return None,
    };
    let first = start as usize;
    let last = (start + points) as usize;
    let mut samples: Vec<u8> = Vec::new();
    let mut index = first;
    while index < last
        invariant
            first <= index <= last <= data@.len(),
            samples@ == data@.subrange(first as int, index as int),
        decreases last - index,
    {
        samples.push(data[index]);
        index += 1;
        proof {
            assert(data@.subrange(first as int, index as int) == data@.subrange(
                first as int,
                index - 1,
            ).push(data@[index - 1]));
        }
    }
    Some(Sound { channels, rate, bits, samples })
}

} // verus!
