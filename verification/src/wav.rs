//! Sampled sounds written as RIFF WAVE files: the canonical header, a
//! PCM format chunk, and the sample points in WAVE's own conventions --
//! unsigned bytes for samples of up to eight bits, little-endian signed
//! points for wider ones.

use vstd::prelude::*;

use crate::aiff::{width_of, Sound};
use crate::iff::{lemma_byte_unmoved, push_all};

verus! {

/// The RIFF file type.
pub const RIFF_ID: [u8; 4] = [0x52, 0x49, 0x46, 0x46];

/// The RIFF form of a WAVE file.
pub const WAVE_ID: [u8; 4] = [0x57, 0x41, 0x56, 0x45];

/// The format chunk.
pub const FMT_ID: [u8; 4] = [0x66, 0x6D, 0x74, 0x20];

/// The sample data chunk.
pub const DATA_ID: [u8; 4] = [0x64, 0x61, 0x74, 0x61];

/// A value's low two bytes, little-endian.
pub open spec fn le16(value: int) -> Seq<u8> {
    seq![(value % 0x100) as u8, (value / 0x100 % 0x100) as u8]
}

/// A value's low four bytes, little-endian.
pub open spec fn le32(value: int) -> Seq<u8> {
    seq![
        (value % 0x100) as u8,
        (value / 0x100 % 0x100) as u8,
        (value / 0x10000 % 0x100) as u8,
        (value / 0x1000000 % 0x100) as u8,
    ]
}

/// Big-endian signed sample points of a width turned little-endian: each
/// point's bytes in reverse; bytes short of a whole point are dropped.
pub open spec fn flipped(samples: Seq<u8>, width: nat) -> Seq<u8>
    decreases samples.len(),
{
    if width == 0 || samples.len() < width {
        Seq::empty()
    } else {
        Seq::new(width, |j: int| samples[width - 1 - j]) + flipped(samples.skip(width as int), width)
    }
}

/// Signed bytes as unsigned ones: each moved up by half the range.
pub open spec fn unsigned(samples: Seq<u8>) -> Seq<u8> {
    samples.map_values(|point: u8| ((point as int + 0x80) % 0x100) as u8)
}

/// A sound's sample points in WAVE's conventions.
pub open spec fn wave_points(samples: Seq<u8>, bits: int) -> Seq<u8> {
    if width_of(bits) == 1 {
        unsigned(samples)
    } else {
        flipped(samples, width_of(bits) as nat)
    }
}

/// A sound as a WAVE file: the RIFF header, the PCM format chunk, and
/// the data chunk with the pad byte an odd length is followed by.
pub open spec fn riffed(channels: int, rate: int, bits: int, samples: Seq<u8>) -> Seq<u8> {
    let points = wave_points(samples, bits);
    let pad: Seq<u8> = if points.len() % 2 == 1 {
        seq![0u8]
    } else {
        Seq::empty()
    };
    RIFF_ID@ + le32((36 + points.len() + pad.len()) as int) + WAVE_ID@ + FMT_ID@ + le32(16) + le16(1) + le16(
        channels,
    ) + le32(rate) + le32(rate * channels * width_of(bits)) + le16(channels * width_of(bits))
        + le16(bits) + DATA_ID@ + le32(points.len() as int) + points + pad
}

/// A value's low two bytes, little-endian, pushed.
fn push_le16(out: &mut Vec<u8>, value: u64)
    ensures
        final(out)@ == old(out)@ + le16(value as int),
{
    let b0 = (value & 0xFF) as u8;
    let b1 = ((value >> 8) & 0xFF) as u8;
    proof {
        assert(value & 0xFF == value % 0x100) by (bit_vector);
        assert((value >> 8) & 0xFF == value / 0x100 % 0x100) by (bit_vector);
    }
    out.push(b0);
    out.push(b1);
    proof {
        assert(final(out)@ =~= old(out)@ + le16(value as int));
    }
}

/// A value's low four bytes, little-endian, pushed.
fn push_le32(out: &mut Vec<u8>, value: u64)
    ensures
        final(out)@ == old(out)@ + le32(value as int),
{
    let b0 = (value & 0xFF) as u8;
    let b1 = ((value >> 8) & 0xFF) as u8;
    let b2 = ((value >> 16) & 0xFF) as u8;
    let b3 = ((value >> 24) & 0xFF) as u8;
    proof {
        assert(value & 0xFF == value % 0x100) by (bit_vector);
        assert((value >> 8) & 0xFF == value / 0x100 % 0x100) by (bit_vector);
        assert((value >> 16) & 0xFF == value / 0x10000 % 0x100) by (bit_vector);
        assert((value >> 24) & 0xFF == value / 0x1000000 % 0x100) by (bit_vector);
    }
    out.push(b0);
    out.push(b1);
    out.push(b2);
    out.push(b3);
    proof {
        assert(final(out)@ =~= old(out)@ + le32(value as int));
    }
}

/// The sample points in WAVE's conventions.
fn wave_points_of(samples: &Vec<u8>, bits: u16) -> (points: Vec<u8>)
    ensures
        points@ == wave_points(samples@, bits as int),
{
    let width: usize = (bits as usize + 7) / 8;
    let mut points: Vec<u8> = Vec::new();
    if width == 1 {
        let mut index: usize = 0;
        while index < samples.len()
            invariant
                index <= samples@.len(),
                points@ == unsigned(samples@.take(index as int)),
            decreases samples.len() - index,
        {
            let point = samples[index];
            let moved: u8 = if point < 0x80 {
                point + 0x80
            } else {
                point - 0x80
            };
            points.push(moved);
            index += 1;
            proof {
                assert(unsigned(samples@.take(index as int)) =~= unsigned(
                    samples@.take(index - 1),
                ).push(moved));
            }
        }
        proof {
            assert(samples@.take(samples@.len() as int) == samples@);
        }
        return points;
    }
    let mut at: usize = 0;
    proof {
        assert(samples@.skip(0) == samples@);
    }
    while width > 0 && samples.len() - at >= width
        invariant
            at <= samples@.len(),
            width == width_of(bits as int),
            width != 1,
            points@ + flipped(samples@.skip(at as int), width as nat) == flipped(
                samples@,
                width as nat,
            ),
        decreases samples.len() - at,
    {
        let ghost before = points@;
        let ghost rest = samples@.skip(at as int);
        let stop = at + width;
        let mut j: usize = 0;
        while j < width
            invariant
                j <= width,
                stop == at + width <= samples@.len(),
                rest == samples@.skip(at as int),
                points@ == before + Seq::new(width as nat, |k: int| rest[width - 1 - k]).take(
                    j as int,
                ),
            decreases width - j,
        {
            points.push(samples[stop - 1 - j]);
            j += 1;
            proof {
                assert(Seq::new(width as nat, |k: int| rest[width - 1 - k]).take(j as int)
                    =~= Seq::new(width as nat, |k: int| rest[width - 1 - k]).take(j - 1).push(
                    samples@[at + width - 1 - (j - 1)],
                ));
            }
        }
        proof {
            assert(Seq::new(width as nat, |k: int| rest[width - 1 - k]).take(width as int)
                == Seq::new(width as nat, |k: int| rest[width - 1 - k]));
            assert(rest.skip(width as int) =~= samples@.skip(at + width));
        }
        at = at + width;
    }
    proof {
        assert(flipped(samples@.skip(at as int), width as nat) == Seq::<u8>::empty());
        assert(points@ == flipped(samples@, width as nat));
    }
    points
}

/// A sound as a WAVE file.
pub fn riff(sound: &Sound) -> (file: Vec<u8>)
    ensures
        file@ == riffed(
            sound.channels as int,
            sound.rate as int,
            sound.bits as int,
            sound.samples@,
        ),
{
    let points = wave_points_of(&sound.samples, sound.bits);
    let odd = points.len() % 2 == 1;
    let width: u64 = (sound.bits as u64 + 7) / 8;
    let count = points.len() as u64 % 0x1_0000_0000;
    let mut file: Vec<u8> = Vec::new();
    push_all(&mut file, RIFF_ID.as_slice());
    let size: u64 = 36 + count + if odd {
        1
    } else {
        0
    };
    push_le32(&mut file, size);
    push_all(&mut file, WAVE_ID.as_slice());
    push_all(&mut file, FMT_ID.as_slice());
    push_le32(&mut file, 16);
    push_le16(&mut file, 1);
    push_le16(&mut file, sound.channels as u64);
    push_le32(&mut file, sound.rate as u64);
    proof {
        assert(sound.rate as u64 * sound.channels as u64 <= 0xFFFF_FFFF * 0xFFFF) by (nonlinear_arith)
            requires
                sound.rate <= 0xFFFF_FFFFu32,
                sound.channels <= 0xFFFFu16,
        ;
        assert((sound.rate as u64 * sound.channels as u64) * width <= 0xFFFF_FFFF * 0xFFFF * 0x2000)
            by (nonlinear_arith)
            requires
                sound.rate as u64 * sound.channels as u64 <= 0xFFFF_FFFF * 0xFFFF,
                width <= 0x2000,
        ;
        assert(sound.channels as u64 * width <= 0xFFFF * 0x2000) by (nonlinear_arith)
            requires
                sound.channels <= 0xFFFFu16,
                width <= 0x2000,
        ;
    }
    push_le32(&mut file, sound.rate as u64 * sound.channels as u64 * width);
    push_le16(&mut file, sound.channels as u64 * width);
    push_le16(&mut file, sound.bits as u64);
    push_all(&mut file, DATA_ID.as_slice());
    push_le32(&mut file, count);
    push_all(&mut file, points.as_slice());
    if odd {
        file.push(0);
    }
    proof {
        let n = points@.len() as int;
        let pad: Seq<u8> = if n % 2 == 1 {
            seq![0u8]
        } else {
            Seq::empty()
        };
        assert(le32(count as int) == le32(n)) by {
            assert(count == n % 0x1_0000_0000);
            lemma_le32_low(n);
        }
        assert(le32(size as int) == le32((36 + n + pad.len()) as int)) by {
            assert(size == 36 + n % 0x1_0000_0000 + pad.len());
            lemma_le32_shift((36 + pad.len()) as int, n);
        }
        assert(file@ =~= riffed(
            sound.channels as int,
            sound.rate as int,
            sound.bits as int,
            sound.samples@,
        ));
    }
    file
}

/// A value's low four bytes are those of its remainder by 2^32.
proof fn lemma_le32_low(value: int)
    requires
        value >= 0,
    ensures
        le32(value % 0x1_0000_0000) == le32(value),
{
    lemma_le32_shift(0, value);
}

/// Adding to a value or to its remainder by 2^32 gives the same low
/// four bytes.
proof fn lemma_le32_shift(base: int, value: int)
    requires
        base >= 0,
        value >= 0,
    ensures
        le32(base + value % 0x1_0000_0000) == le32(base + value),
{
    let q = value / 0x1_0000_0000;
    let low = base + value % 0x1_0000_0000;
    assert(base + value == low + q * 0x1_0000_0000);
    lemma_byte_unmoved(low, q, 1, 0x1000000);
    lemma_byte_unmoved(low, q, 0x100, 0x10000);
    lemma_byte_unmoved(low, q, 0x10000, 0x100);
    lemma_byte_unmoved(low, q, 0x1000000, 1);
    assert(low % 0x100 == low / 1 % 0x100);
    assert((base + value) % 0x100 == (base + value) / 1 % 0x100);
}

} // verus!
