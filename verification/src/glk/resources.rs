//! Glk's view of the Blorb resources: the pictures glk_image_draw
//! names (Glk: Graphics), the sounds a channel plays (Glk: Sound
//! Resources), and the data chunks a resource stream opens over (Glk:
//! Resource Streams).
//!
//! Image sizes are read out of the picture bytes rather than asked of
//! the display, because glk_image_get_info must answer even when
//! nothing can be drawn -- a game may lay out a window from the
//! dimensions and then discover it has no graphics (Glk: Testing for
//! Graphics Capabilities).

use vstd::prelude::*;

use crate::aiff::{decode, heard};
pub use crate::blorb::PNG_ID;
use crate::blorb::{lookup, same_id, Blorb, Resource, USAGE_DATA, USAGE_PICTURE, USAGE_SOUND};
use crate::iff::{chunk, framed, push_all, IffChunk, FORM};
use crate::text::string_of;
use crate::wav::{riff, riffed};

verus! {

/// The chunk type of an Ogg Vorbis sound.
pub const OGG_ID: [u8; 4] = [0x4F, 0x47, 0x47, 0x56];

/// The chunk type of a data resource that holds text.
pub const TEXT_ID: [u8; 4] = [0x54, 0x45, 0x58, 0x54];

/// The eight bytes every PNG opens with.
pub open spec fn png_signature() -> Seq<u8> {
    seq![0x89u8, 0x50, 0x4E, 0x47, 0x0D, 0x0A, 0x1A, 0x0A]
}

/// Whether bytes begin with a prefix.
pub open spec fn starts_with(data: Seq<u8>, prefix: Seq<u8>) -> bool {
    data.len() >= prefix.len() && data.subrange(0, prefix.len() as int) == prefix
}

/// The big-endian word at a position.
pub open spec fn word_of(data: Seq<u8>, at: int) -> u32 {
    (data[at] as int * 16777216 + data[at + 1] as int * 65536 + data[at + 2] as int * 256
        + data[at + 3] as int) as u32
}

/// The big-endian short at a position, widened.
pub open spec fn short_of(data: Seq<u8>, at: int) -> u32 {
    (data[at] as int * 256 + data[at + 1] as int) as u32
}

/// The start-of-frame markers carry the image dimensions. C4, C8, and
/// CC sit in the SOF numbering but are not SOFs: they are the Huffman
/// table, JPEG extension, and arithmetic coding markers.
pub open spec fn sof(marker: u8) -> bool {
    0xC0 <= marker < 0xD0 && marker != 0xC4 && marker != 0xC8 && marker != 0xCC
}

fn is_sof(marker: u8) -> (yes: bool)
    ensures
        yes == sof(marker),
{
    0xC0 <= marker && marker < 0xD0 && marker != 0xC4 && marker != 0xC8 && marker != 0xCC
}

fn word_at(data: &[u8], at: usize) -> (word: u32)
    requires
        at + 4 <= data@.len(),
    ensures
        word == word_of(data@, at as int),
{
    data[at] as u32 * 16777216 + data[at + 1] as u32 * 65536 + data[at + 2] as u32 * 256
        + data[at + 3] as u32
}

fn short_at(data: &[u8], at: usize) -> (short: u32)
    requires
        at + 2 <= data@.len(),
    ensures
        short == short_of(data@, at as int),
{
    data[at] as u32 * 256 + data[at + 1] as u32
}

/// The dimensions a JPEG's segments give from a position on: walked
/// marker by marker -- standalone markers have no length word, other
/// segments are skipped by theirs -- until a start of frame, which
/// holds height then width. Anything out of step answers none.
pub open spec fn jpeg_walk(data: Seq<u8>, position: nat) -> Option<(u32, u32)>
    decreases data.len() - position,
{
    let p = position as int;
    if p + 4 > data.len() {
        None
    } else if data[p] != 0xFF {
        None
    } else {
        let marker = data[p + 1];
        if marker == 0xD8 || marker == 0x01 || (0xD0 <= marker <= 0xD7) {
            jpeg_walk(data, position + 2)
        } else if sof(marker) {
            if p + 9 > data.len() {
                None
            } else {
                Some((short_of(data, p + 7), short_of(data, p + 5)))
            }
        } else {
            let next = position + 2 + short_of(data, p + 2) as nat;
            if next + 4 > data.len() {
                None
            } else {
                jpeg_walk(data, next)
            }
        }
    }
}

/// The pixel dimensions of a PNG or a JPEG, where they can be read.
pub open spec fn image_dimensions(data: Seq<u8>) -> Option<(u32, u32)> {
    if starts_with(data, png_signature()) && data.len() >= 24 {
        Some((word_of(data, 16), word_of(data, 20)))
    } else if starts_with(data, seq![0xFFu8, 0xD8]) {
        jpeg_walk(data, 2)
    } else {
        None
    }
}

/// A PNG measures as its header chunk's width and then height: the
/// big-endian words at bytes 16 and 20, just past the signature, the
/// chunk length, and the IHDR type (PNG: IHDR Image header).
pub proof fn pngs_give_their_header_dimensions(data: Seq<u8>)
    requires
        data.len() >= 24,
        data[0] == 0x89 && data[1] == 0x50 && data[2] == 0x4E && data[3] == 0x47,
        data[4] == 0x0D && data[5] == 0x0A && data[6] == 0x1A && data[7] == 0x0A,
    ensures
        image_dimensions(data) == Some(
            (
                (data[16] as int * 0x100_0000 + data[17] as int * 0x1_0000 + data[18] as int
                    * 0x100 + data[19] as int) as u32,
                (data[20] as int * 0x100_0000 + data[21] as int * 0x1_0000 + data[22] as int
                    * 0x100 + data[23] as int) as u32,
            ),
        ),
{
    assert(data.subrange(0, 8) =~= png_signature());
}

/// A JPEG whose first segment is a start of frame measures as that
/// frame's width and height: every marker from C0 through CF names a
/// start of frame -- baseline, extended, progressive, lossless, and
/// their arithmetic-coded kin -- except C4, C8, and CC, the Huffman
/// table, extension, and arithmetic-conditioning markers, which are
/// segments to skip by their length (JPEG: Table B.1).
pub proof fn frames_give_their_dimensions(data: Seq<u8>)
    requires
        data.len() >= 11,
        data[0] == 0xFF,
        data[1] == 0xD8,
        data[2] == 0xFF,
    ensures
        0xC0 <= data[3] <= 0xCF && data[3] != 0xC4 && data[3] != 0xC8 && data[3] != 0xCC
            ==> image_dimensions(data) == Some((short_of(data, 9), short_of(data, 7))),
        (data[3] == 0xC4 || data[3] == 0xC8 || data[3] == 0xCC) ==> image_dimensions(data)
            == if 4 + short_of(data, 4) + 4 > data.len() {
            None
        } else {
            jpeg_walk(data, (4 + short_of(data, 4)) as nat)
        },
{
    assert(!starts_with(data, png_signature())) by {
        if starts_with(data, png_signature()) {
            assert(data.subrange(0, 8)[0] == data[0]);
        }
    }
    assert(starts_with(data, seq![0xFFu8, 0xD8])) by {
        assert(data.subrange(0, 2) =~= seq![0xFFu8, 0xD8]);
    }
}

/// Read the pixel dimensions of a PNG or a JPEG.
///
/// PNG requires the IHDR chunk to come first, so width and height sit
/// at fixed offsets; a JPEG hides them in a start-of-frame segment that
/// has to be walked to.
pub fn image_size(data: &[u8]) -> (size: Option<(u32, u32)>)
    ensures
        size == image_dimensions(data@),
{
    let signature: [u8; 8] = [0x89, 0x50, 0x4E, 0x47, 0x0D, 0x0A, 0x1A, 0x0A];
    let mut png = data.len() >= 8;
    let mut index: usize = 0;
    while index < 8 && png
        invariant
            index <= 8,
            signature@ == png_signature(),
            png ==> data@.len() >= 8 && forall|j: int| 0 <= j < index ==> data@[j] == signature@[j],
            !png ==> !starts_with(data@, png_signature()),
        decreases 8 - index,
    {
        if data[index] != signature[index] {
            png = false;
        }
        index += 1;
    }
    proof {
        if png {
            assert(data@.subrange(0, 8) =~= png_signature());
        }
    }
    if png && data.len() >= 24 {
        return Some((word_at(data, 16), word_at(data, 20)));
    }
    if data.len() >= 2 && data[0] == 0xFF && data[1] == 0xD8 {
        proof {
            assert(data@.subrange(0, 2) =~= seq![0xFFu8, 0xD8]);
        }
        return jpeg_size(data);
    }
    proof {
        if starts_with(data@, seq![0xFFu8, 0xD8]) {
            assert(data@.subrange(0, 2)[0] == 0xFF);
        }
    }
    None
}

/// Walk JPEG segments until a start-of-frame marker turns up.
fn jpeg_size(data: &[u8]) -> (size: Option<(u32, u32)>)
    ensures
        size == jpeg_walk(data@, 2),
{
    let end = data.len();
    if end < 6 {
        return None;
    }
    let mut position: usize = 2;
    while end - position >= 4
        invariant
            end == data@.len(),
            position <= end,
            jpeg_walk(data@, position as nat) == jpeg_walk(data@, 2),
        decreases end - position,
    {
        if data[position] != 0xFF {
            return None;
        }
        let marker = data[position + 1];
        if marker == 0xD8 || marker == 0x01 || (0xD0 <= marker && marker <= 0xD7) {
            // Standalone markers carry no length word.
            position += 2;
            continue;
        }
        let length = short_at(data, position + 2) as usize;
        if is_sof(marker) {
            if end - position < 9 {
                return None;
            }
            return Some((short_at(data, position + 7), short_at(data, position + 5)));
        }
        if end - position < length + 6 {
            return None;
        }
        position += 2 + length;
    }
    None
}

/// One picture resource, measured.
#[derive(Debug, Clone, PartialEq, Eq)]
pub struct ImageInfo {
    /// The number the game asks for it by.
    pub number: u32,
    /// The Blorb chunk type: PNG followed by a space, or JPEG (Blorb:
    /// Picture Resource Chunks).
    pub kind: [u8; 4],
    /// The picture bytes, ready for a display to decode.
    pub data: Vec<u8>,
    /// The width in pixels.
    pub width: u32,
    /// The height in pixels.
    pub height: u32,
}

/// The base64 alphabet's character for a six-bit value.
pub open spec fn sextet(value: int) -> char {
    if value < 26 {
        (('A' as int) + value) as char
    } else if value < 52 {
        (('a' as int) + value - 26) as char
    } else if value < 62 {
        (('0' as int) + value - 52) as char
    } else if value == 62 {
        '+'
    } else {
        '/'
    }
}

/// The base64 of bytes, three to four characters, the last group
/// padded with '='.
pub open spec fn base64(data: Seq<u8>) -> Seq<char>
    decreases data.len(),
{
    if data.len() == 0 {
        Seq::empty()
    } else {
        let a = data[0] as int;
        if data.len() == 1 {
            seq![sextet(a / 4), sextet((a % 4) * 16), '=', '=']
        } else {
            let b = data[1] as int;
            if data.len() == 2 {
                seq![sextet(a / 4), sextet((a % 4) * 16 + b / 16), sextet((b % 16) * 4), '=']
            } else {
                let c = data[2] as int;
                seq![
                    sextet(a / 4),
                    sextet((a % 4) * 16 + b / 16),
                    sextet((b % 16) * 4 + c / 64),
                    sextet(c % 64),
                ] + base64(data.skip(3))
            }
        }
    }
}

/// The value a base64 character stands for, or -1 for one outside the
/// alphabet.
pub open spec fn sextet_value(ch: char) -> int {
    if 'A' <= ch <= 'Z' {
        ch as int - 'A' as int
    } else if 'a' <= ch <= 'z' {
        ch as int - 'a' as int + 26
    } else if '0' <= ch <= '9' {
        ch as int - '0' as int + 52
    } else if ch == '+' {
        62
    } else if ch == '/' {
        63
    } else {
        -1
    }
}

/// Base64 is the standard alphabet: every six-bit value is the
/// character at its place in "A-Z a-z 0-9 + /", and that character
/// reads back as the value, so no two values share a character.
pub proof fn sextets_are_the_base64_alphabet(value: int)
    requires
        0 <= value < 64,
    ensures
        sextet(value) == "ABCDEFGHIJKLMNOPQRSTUVWXYZabcdefghijklmnopqrstuvwxyz0123456789+/"@[value],
        sextet_value(sextet(value)) == value,
{
    reveal_strlit("ABCDEFGHIJKLMNOPQRSTUVWXYZabcdefghijklmnopqrstuvwxyz0123456789+/");
}

/// Base64 turns each three bytes into four characters whose values,
/// six bits each, spell the bytes' 24 bits; a last group of one or two
/// bytes is padded with "==" or "=" to four. Text encoded in whole
/// groups encodes the same followed by more.
pub proof fn base64_packs_three_bytes_in_four(data: Seq<u8>, more: Seq<u8>)
    ensures
        base64(data).len() == 4 * ((data.len() + 2) / 3),
        data.len() >= 3 ==> ({
            let text = base64(data);
            &&& sextet_value(text[0]) * 262144 + sextet_value(text[1]) * 4096 + sextet_value(
                text[2],
            ) * 64 + sextet_value(text[3]) == data[0] as int * 65536 + data[1] as int * 256
                + data[2] as int
            &&& 0 <= sextet_value(text[0]) && 0 <= sextet_value(text[1]) && 0 <= sextet_value(
                text[2],
            ) && 0 <= sextet_value(text[3])
        }),
        data.len() % 3 == 1 ==> base64(data).last() == '=' && base64(data)[base64(data).len()
            - 2] == '=',
        data.len() % 3 == 2 ==> base64(data).last() == '=' && base64(data)[base64(data).len()
            - 2] != '=',
        data.len() % 3 == 0 && data.len() > 0 ==> base64(data).last() != '=',
        data.len() % 3 == 0 ==> base64(data + more) == base64(data) + base64(more),
    decreases data.len(),
{
    if data.len() > 0 {
        let a = data[0] as int;
        assert(0 <= a < 256);
        assert(0 <= a / 4 < 64 && 0 <= (a % 4) * 16 < 64);
        sextets_are_the_base64_alphabet(a / 4);
        sextets_are_the_base64_alphabet((a % 4) * 16);
        if data.len() >= 2 {
            let b = data[1] as int;
            assert(0 <= (a % 4) * 16 + b / 16 < 64 && 0 <= (b % 16) * 4 < 64);
            sextets_are_the_base64_alphabet((a % 4) * 16 + b / 16);
            sextets_are_the_base64_alphabet((b % 16) * 4);
            if data.len() >= 3 {
                let c = data[2] as int;
                assert(0 <= (b % 16) * 4 + c / 64 < 64 && 0 <= c % 64 < 64);
                sextets_are_the_base64_alphabet((b % 16) * 4 + c / 64);
                sextets_are_the_base64_alphabet(c % 64);
                assert((a / 4) * 262144 + ((a % 4) * 16 + b / 16) * 4096 + ((b % 16) * 4 + c / 64)
                    * 64 + c % 64 == a * 65536 + b * 256 + c) by (nonlinear_arith)
                    requires
                        0 <= a < 256,
                        0 <= b < 256,
                        0 <= c < 256,
                ;
                let rest = data.skip(3);
                base64_packs_three_bytes_in_four(rest, more);
                assert((data + more).skip(3) =~= rest + more);
                assert((data + more)[0] == data[0] && (data + more)[1] == data[1] && (data
                    + more)[2] == data[2]);
                assert(((rest.len() + 2) / 3) + 1 == (data.len() + 2) / 3);
                if data.len() % 3 == 0 && data.len() > 3 {
                    assert(base64(data).last() == base64(rest).last());
                }
                if data.len() % 3 != 0 {
                    assert(base64(data)[base64(data).len() - 2] == base64(rest)[base64(rest).len()
                        - 2]);
                    assert(base64(data).last() == base64(rest).last());
                }
                if data.len() == 3 {
                    assert(rest.len() == 0);
                    assert(base64(data) =~= seq![
                        sextet(a / 4),
                        sextet((a % 4) * 16 + b / 16),
                        sextet((b % 16) * 4 + c / 64),
                        sextet(c % 64),
                    ]);
                }
            } else {
                assert(sextet((b % 16) * 4) != '=');
            }
        }
    } else {
        assert(data + more =~= more);
    }
}

fn sextet_char(value: u8) -> (ch: char)
    requires
        value < 64,
    ensures
        ch == sextet(value as int),
{
    if value < 26 {
        (65u8 + value) as char
    } else if value < 52 {
        (97u8 + value - 26) as char
    } else if value < 62 {
        (48u8 + value - 52) as char
    } else if value == 62 {
        '+'
    } else {
        '/'
    }
}

/// Bytes in base64, padded.
pub fn b64(data: &[u8]) -> (text: String)
    ensures
        text@ == base64(data@),
{
    let mut out: Vec<char> = Vec::new();
    let mut at: usize = 0;
    proof {
        assert(data@.skip(0) =~= data@);
    }
    while at < data.len()
        invariant
            at <= data@.len(),
            at % 3 == 0 || at == data@.len(),
            out@ + base64(data@.skip(at as int)) == base64(data@),
        decreases data.len() - at,
    {
        let ghost rest = data@.skip(at as int);
        let ghost before = out@;
        let left = data.len() - at;
        let first = data[at];
        out.push(sextet_char(first / 4));
        if left == 1 {
            out.push(sextet_char((first % 4) * 16));
            out.push('=');
            out.push('=');
            at = at + 1;
        } else {
            let second = data[at + 1];
            out.push(sextet_char((first % 4) * 16 + second / 16));
            if left == 2 {
                out.push(sextet_char((second % 16) * 4));
                out.push('=');
                at = at + 2;
            } else {
                let third = data[at + 2];
                out.push(sextet_char((second % 16) * 4 + third / 64));
                out.push(sextet_char(third % 64));
                at = at + 3;
            }
        }
        proof {
            assert(rest.len() == left);
            if left >= 3 {
                assert(rest.skip(3) =~= data@.skip(at as int));
            } else {
                assert(data@.skip(at as int) =~= Seq::<u8>::empty());
            }
            assert(out@ + base64(data@.skip(at as int)) =~= before + base64(rest));
        }
    }
    string_of(out.as_slice())
}

/// The media type a picture of a kind travels as.
pub open spec fn media_type(kind: [u8; 4]) -> Seq<char> {
    if kind@ == PNG_ID@ {
        "image/png"@
    } else {
        "image/jpeg"@
    }
}

/// The picture whole, as a data: url the display draws directly.
///
/// The bytes are the Blorb's own -- PNG or JPEG by chunk kind (Blorb:
/// Picture Resource Chunks) -- so nothing more is owed on the far
/// side.
pub fn pictured(image: &ImageInfo) -> (url: String)
    ensures
        url@ == "data:"@ + media_type(image.kind) + ";base64,"@ + base64(image.data@),
{
    let png = image.kind[0] == PNG_ID[0] && image.kind[1] == PNG_ID[1] && image.kind[2]
        == PNG_ID[2] && image.kind[3] == PNG_ID[3];
    proof {
        assert(png == (image.kind@ == PNG_ID@)) by {
            if png {
                assert(image.kind@ =~= PNG_ID@);
            }
        }
    }
    let mut url = String::from_str("data:");
    if png {
        url.append("image/png");
    } else {
        url.append("image/jpeg");
    }
    url.append(";base64,");
    let encoded = b64(image.data.as_slice());
    url.append(encoded.as_str());
    url
}

/// The index entry a usage and number name, where there is a Blorb.
pub open spec fn found_in(blorb: Option<Blorb>, usage: [u8; 4], number: u32) -> Option<Resource> {
    match blorb {
        Some(container) => lookup(container.resources@, usage@, number),
        None => None,
    }
}

/// The picture a number names, measured: its chunk type, its bytes,
/// and its width and height; None where there is no such picture or
/// its dimensions cannot be read.
pub open spec fn picture(blorb: Option<Blorb>, number: u32) -> Option<([u8; 4], Seq<u8>, u32, u32)> {
    match found_in(blorb, USAGE_PICTURE, number) {
        Some(entry) => match image_dimensions(entry.chunk.payload@) {
            Some((width, height)) => Some(
                (entry.chunk.chunk_id, entry.chunk.payload@, width, height),
            ),
            None => None,
        },
        None => None,
    }
}

/// Whether a picture record is the measured picture of a number.
pub open spec fn shows(info: ImageInfo, number: u32, found: ([u8; 4], Seq<u8>, u32, u32)) -> bool {
    &&& info.number == number
    &&& info.kind == found.0
    &&& info.data@ == found.1
    &&& info.width == found.2
    &&& info.height == found.3
}

/// Whether an answer is the picture a number names, or nothing where
/// it names none.
pub open spec fn answers(found: Option<ImageInfo>, blorb: Option<Blorb>, number: u32) -> bool {
    match (found, picture(blorb, number)) {
        (Some(info), Some(expected)) => shows(info, number, expected),
        (None, None) => true,
        _ => false,
    }
}

/// A chunk's bytes as a resource: the whole nested file for a FORM,
/// the body for anything else.
pub open spec fn contents(chunk_id: [u8; 4], payload: Seq<u8>) -> Seq<u8> {
    if chunk_id@ == FORM@ {
        framed(chunk_id@, payload)
    } else {
        payload
    }
}

/// A sound chunk as a data: url in a container a browser decodes: an
/// AIFF re-wrapped as WAVE, an Ogg as itself; None for anything else,
/// or an AIFF too broken to read.
pub open spec fn sound_url(piece: IffChunk) -> Option<Seq<char>> {
    if piece.chunk_id@ == FORM@ {
        match heard(framed(FORM@, piece.payload@)) {
            Some((channels, rate, bits, samples)) => Some(
                "data:audio/wav;base64,"@ + base64(
                    riffed(channels as int, rate as int, bits as int, samples),
                ),
            ),
            None => None,
        }
    } else if piece.chunk_id@ == OGG_ID@ {
        Some("data:audio/ogg;base64,"@ + base64(piece.payload@))
    } else {
        None
    }
}

/// The data: url a sound number travels as, where it can travel.
pub open spec fn sound_of(blorb: Option<Blorb>, number: u32) -> Option<Seq<char>> {
    match found_in(blorb, USAGE_SOUND, number) {
        Some(entry) => sound_url(entry.chunk),
        None => None,
    }
}

/// The bytes of a chunk as a resource.
fn contents_of(chunk_id: &[u8; 4], payload: &Vec<u8>) -> (bytes: Vec<u8>)
    ensures
        bytes@ == contents(*chunk_id, payload@),
{
    if same_id(chunk_id, &FORM) {
        chunk(chunk_id, payload.as_slice())
    } else {
        let mut bytes: Vec<u8> = Vec::new();
        push_all(&mut bytes, payload.as_slice());
        bytes
    }
}

/// One sound chunk as a data: url in a wire-worthy container.
fn sounded(piece: &IffChunk) -> (url: Option<String>)
    ensures
        match (url, sound_url(*piece)) {
            (Some(text), Some(expected)) => text@ == expected,
            (None, None) => true,
            _ => false,
        },
{
    if same_id(&piece.chunk_id, &FORM) {
        let file = chunk(&FORM, piece.payload.as_slice());
        match decode(file.as_slice()) {
            Some(sound) => {
                let wave = riff(&sound);
                let mut url = String::from_str("data:audio/wav;base64,");
                let encoded = b64(wave.as_slice());
                url.append(encoded.as_str());
                proof {
                    reveal_strlit("data:audio/wav;base64,");
                }
                Some(url)
            },
            None => None,
        }
    } else if same_id(&piece.chunk_id, &OGG_ID) {
        let mut url = String::from_str("data:audio/ogg;base64,");
        let encoded = b64(piece.payload.as_slice());
        url.append(encoded.as_str());
        Some(url)
    } else {
        None
    }
}

/// Measure the picture a number names.
fn measure(blorb: &Option<Blorb>, number: u32) -> (found: Option<ImageInfo>)
    ensures
        answers(found, *blorb, number),
{
    match blorb {
        None => None,
        Some(container) => match container.resource(&USAGE_PICTURE, number) {
            None => None,
            Some(entry) => {
                let payload = &entry.chunk.payload;
                match image_size(payload.as_slice()) {
                    Some((width, height)) => {
                        let mut data: Vec<u8> = Vec::new();
                        push_all(&mut data, payload.as_slice());
                        Some(
                            ImageInfo {
                                number,
                                kind: entry.chunk.chunk_id,
                                data,
                                width,
                                height,
                            },
                        )
                    },
                    None => None,
                }
            },
        },
    }
}

/// The pictures, sounds, and data available to a game.
///
/// An instance with no Blorb behind it answers "nothing here" to
/// everything, which is the right answer for a bare .ulx story.
/// Pictures are measured, and sounds wrapped for the wire, on first
/// use and remembered after.
pub struct Resources {
    /// The container, or None without one.
    pub blorb: Option<Blorb>,
    images: Vec<(u32, Option<ImageInfo>)>,
    audible: Vec<(u32, Option<String>)>,
}

impl Default for Resources {
    /// Resources with no container behind them.
    fn default() -> (resources: Self)
        ensures
            resources.wf(),
            resources.container() is None,
    {
        Resources::new(None)
    }
}

impl Resources {
    /// Everything remembered is what the container answers.
    pub closed spec fn wf(&self) -> bool {
        &&& forall|i: int|
            0 <= i < self.images@.len() ==> answers(
                (#[trigger] self.images@[i]).1,
                self.blorb,
                self.images@[i].0,
            )
        &&& forall|i: int|
            0 <= i < self.audible@.len() ==> match ((#[trigger] self.audible@[i]).1, sound_of(
                self.blorb,
                self.audible@[i].0,
            )) {
                (Some(text), Some(expected)) => text@ == expected,
                (None, None) => true,
                _ => false,
            }
    }

    /// The container the resources come from.
    pub closed spec fn container(&self) -> Option<Blorb> {
        self.blorb
    }

    /// Stand in front of a container.
    pub fn new(blorb: Option<Blorb>) -> (resources: Self)
        ensures
            resources.wf(),
            resources.container() == blorb,
    {
        Resources { blorb, images: Vec::new(), audible: Vec::new() }
    }

    /// Look up a picture, measuring it on first use.
    ///
    /// A picture whose dimensions cannot be read answers None: a size
    /// glk_image_get_info cannot report is a picture the game cannot
    /// lay out (Glk: Graphics).
    pub fn image(&mut self, number: u32) -> (found: Option<&ImageInfo>)
        requires
            old(self).wf(),
        ensures
            final(self).wf(),
            final(self).container() == old(self).container(),
            match (found, picture(old(self).container(), number)) {
                (Some(info), Some(expected)) => shows(*info, number, expected),
                (None, None) => true,
                _ => false,
            },
    {
        let mut index: usize = 0;
        let mut at: Option<usize> = None;
        while index < self.images.len()
            invariant_except_break
                at is None,
            invariant
                index <= self.images@.len(),
            ensures
                at matches Some(i) ==> i < self.images@.len() && self.images@[i as int].0 == number,
            decreases self.images@.len() - index,
        {
            if self.images[index].0 == number {
                at = Some(index);
                break;
            }
            index += 1;
        }
        let at = match at {
            Some(at) => at,
            None => {
                let measured = measure(&self.blorb, number);
                self.images.push((number, measured));
                proof {
                    assert forall|i: int| 0 <= i < self.images@.len() implies answers(
                        (#[trigger] self.images@[i]).1,
                        self.blorb,
                        self.images@[i].0,
                    ) by {
                        if i < self.images@.len() - 1 {
                            assert(self.images@[i] == old(self).images@[i]);
                        }
                    }
                }
                self.images.len() - 1
            },
        };
        proof {
            assert(self.images@[at as int].0 == number);
            assert(answers(self.images@[at as int].1, self.blorb, number));
        }
        match &self.images[at].1 {
            Some(info) => Some(info),
            None => None,
        }
    }

    /// The cover picture the Fspc chunk names, measured, or None.
    ///
    /// None for a bare story, a Blorb with no Fspc, or a cover whose
    /// dimensions cannot be read -- art is a courtesy, never a gate
    /// (Blorb: Frontispiece Chunk).
    pub fn frontispiece(&mut self) -> (found: Option<&ImageInfo>)
        requires
            old(self).wf(),
        ensures
            final(self).wf(),
            final(self).container() == old(self).container(),
            match old(self).container() {
                Some(container) => match container.frontispiece {
                    Some(number) => match (found, picture(old(self).container(), number)) {
                        (Some(info), Some(expected)) => shows(*info, number, expected),
                        (None, None) => true,
                        _ => false,
                    },
                    None => found is None,
                },
                None => found is None,
            },
    {
        let number = match &self.blorb {
            Some(container) => match container.frontispiece {
                Some(number) => number,
                None => return None,
            },
            None => return None,
        };
        self.image(number)
    }

    /// A picture whole, as a data: url a display draws directly: the
    /// Blorb's own bytes, PNG or JPEG by chunk kind (Blorb: Picture
    /// Resource Chunks). None for a number no picture answers.
    pub fn pictured(&mut self, number: u32) -> (url: Option<String>)
        requires
            old(self).wf(),
        ensures
            final(self).wf(),
            final(self).container() == old(self).container(),
            match (url, picture(old(self).container(), number)) {
                (Some(text), Some((kind, data, _width, _height))) => text@ == "data:"@ + media_type(
                    kind,
                ) + ";base64,"@ + base64(data),
                (None, None) => true,
                _ => false,
            },
    {
        match self.image(number) {
            Some(info) => Some(pictured(info)),
            None => None,
        }
    }

    /// A sound whole, as a data: url a display plays directly.
    ///
    /// AIFF -- the form Infocom-era sounds come in -- travels re-wrapped as
    /// WAVE, since a browser's decoder handles WAVE everywhere and AIFF
    /// almost nowhere; an Ogg sound travels as itself, which browsers
    /// decode natively (Blorb: Sound Resource Chunks). MOD music has no
    /// decoder on either side of the wire and answers None, as does an
    /// AIFF too broken to read -- a sound that cannot travel is a sound
    /// the display cannot start.
    pub fn audible(&mut self, number: u32) -> (url: Option<String>)
        requires
            old(self).wf(),
        ensures
            final(self).wf(),
            final(self).container() == old(self).container(),
            match (url, sound_of(old(self).container(), number)) {
                (Some(text), Some(expected)) => text@ == expected,
                (None, None) => true,
                _ => false,
            },
    {
        let mut index: usize = 0;
        let mut at: Option<usize> = None;
        while index < self.audible.len()
            invariant_except_break
                at is None,
            invariant
                index <= self.audible@.len(),
            ensures
                at matches Some(i) ==> i < self.audible@.len() && self.audible@[i as int].0 == number,
            decreases self.audible@.len() - index,
        {
            if self.audible[index].0 == number {
                at = Some(index);
                break;
            }
            index += 1;
        }
        let at = match at {
            Some(at) => at,
            None => {
                let held = match &self.blorb {
                    Some(container) => match container.resource(&USAGE_SOUND, number) {
                        Some(entry) => sounded(&entry.chunk),
                        None => None,
                    },
                    None => None,
                };
                self.audible.push((number, held));
                proof {
                    assert forall|i: int| 0 <= i < self.audible@.len() implies match (
                        (#[trigger] self.audible@[i]).1,
                        sound_of(self.blorb, self.audible@[i].0),
                    ) {
                        (Some(text), Some(expected)) => text@ == expected,
                        (None, None) => true,
                        _ => false,
                    } by {
                        if i < self.audible@.len() - 1 {
                            assert(self.audible@[i] == old(self).audible@[i]);
                        }
                    }
                }
                self.audible.len() - 1
            },
        };
        proof {
            assert(self.audible@[at as int].0 == number);
        }
        match &self.audible[at].1 {
            Some(text) => Some(text.clone()),
            None => None,
        }
    }

    /// A sound resource's bytes, or None if absent.
    ///
    /// AIFF sounds are stored as FORM chunks, and an AIFF file *is*
    /// that FORM -- header included (Blorb: Sound Resource Chunks).
    pub fn sound(&self, number: u32) -> (bytes: Option<Vec<u8>>)
        ensures
            match (bytes, found_in(self.container(), USAGE_SOUND, number)) {
                (Some(held), Some(entry)) => held@ == contents(
                    entry.chunk.chunk_id,
                    entry.chunk.payload@,
                ),
                (None, None) => true,
                _ => false,
            },
    {
        match &self.blorb {
            Some(container) => match container.resource(&USAGE_SOUND, number) {
                Some(entry) => Some(contents_of(&entry.chunk.chunk_id, &entry.chunk.payload)),
                None => None,
            },
            None => None,
        }
    }

    /// A data resource as its bytes and whether it is text.
    ///
    /// Blorb marks a data chunk TEXT or BINA (Blorb: Data Resource
    /// Chunks); the distinction only matters when the resource is
    /// opened as a Unicode stream, where text means UTF-8 and binary
    /// means four-byte words (Glk: Resource Streams). A FORM is a
    /// nested file, held whole, and binary.
    pub fn data(&self, number: u32) -> (found: Option<(Vec<u8>, bool)>)
        ensures
            match (found, found_in(self.container(), USAGE_DATA, number)) {
                (Some((held, text)), Some(entry)) => held@ == contents(
                    entry.chunk.chunk_id,
                    entry.chunk.payload@,
                ) && text == (entry.chunk.chunk_id@ == TEXT_ID@),
                (None, None) => true,
                _ => false,
            },
    {
        match &self.blorb {
            Some(container) => match container.resource(&USAGE_DATA, number) {
                Some(entry) => {
                    let held = contents_of(&entry.chunk.chunk_id, &entry.chunk.payload);
                    let text = same_id(&entry.chunk.chunk_id, &TEXT_ID);
                    Some((held, text))
                },
                None => None,
            },
            None => None,
        }
    }
}

} // verus!
