//! Glk's view of the Blorb: pictures measured, sounds reframed.

use voxam_core::aiff::decode;
use voxam_core::blorb::{Blorb, Resource};
use voxam_core::glk::resources::{b64, image_size, pictured, ImageInfo, Resources, PNG_ID};
use voxam_core::iff::{chunk, IffChunk};
use voxam_core::wav::riff;

fn png(width: u32, height: u32) -> Vec<u8> {
    let mut held = b"\x89PNG\r\n\x1a\n".to_vec();

    held.extend(13u32.to_be_bytes());
    held.extend(b"IHDR");
    held.extend(width.to_be_bytes());
    held.extend(height.to_be_bytes());

    held
}

fn jpeg(width: u32, height: u32) -> Vec<u8> {
    let mut held = b"\xff\xd8".to_vec();

    held.extend(b"\xff\x01");
    held.extend(b"\xff\xe0\x00\x04\x00\x00");
    held.extend(b"\xff\xc0\x00\x08\x08");
    held.extend((height as u16).to_be_bytes());
    held.extend((width as u16).to_be_bytes());

    held
}

#[test]
fn dimensions_are_read_from_the_bytes() {
    assert_eq!(image_size(&png(320, 200)), Some((320, 200)));
    assert_eq!(image_size(&jpeg(640, 400)), Some((640, 400)));
}

#[test]
fn unmeasurable_bytes_answer_none() {
    assert_eq!(image_size(b"\x89PNG\r\n\x1a\nIH"), None);
    assert_eq!(image_size(b"\xff\xd8\x00\x00\x00\x00"), None);
    assert_eq!(image_size(b"\xff\xd8\xff\xc0\x00\x08\x08"), None);
    assert_eq!(image_size(b"\xff\xd8\xff\xe0\x00\x04\x00\x00"), None);
    assert_eq!(image_size(b"GIF89a"), None);
}

#[test]
fn base64_pads_its_last_group() {
    assert_eq!(b64(b""), "");
    assert_eq!(b64(b"M"), "TQ==");
    assert_eq!(b64(b"Ma"), "TWE=");
    assert_eq!(b64(b"Man"), "TWFu");
    assert_eq!(b64(&[0xFB, 0xFF]), "+/8=");
}

#[test]
fn pictures_travel_as_data_urls() {
    let image = ImageInfo { number: 1, kind: PNG_ID, data: b"Man".to_vec(), width: 1, height: 1 };

    assert_eq!(pictured(&image), "data:image/png;base64,TWFu");

    let photo = ImageInfo { number: 2, kind: *b"JPEG", data: b"M".to_vec(), width: 1, height: 1 };

    assert_eq!(pictured(&photo), "data:image/jpeg;base64,TQ==");
}

/// One (usage, number, id, payload) row of a test Blorb.
type Row = ([u8; 4], u32, [u8; 4], Vec<u8>);

/// A Blorb as its index reads, offsets laid out the way a writer lays
/// them: the FORM prelude, the index chunk, then each chunk padded.
fn blorb(entries: &[Row]) -> Blorb {
    let mut offset = 12 + 8 + 4 + 12 * entries.len();
    let mut resources = Vec::new();

    for (usage, number, chunk_id, payload) in entries {
        resources.push(Resource {
            usage: *usage,
            number: *number,
            chunk: IffChunk { chunk_id: *chunk_id, payload: payload.clone(), offset },
        });

        offset += 8 + payload.len() + payload.len() % 2;
    }

    Blorb { resources, frontispiece: None }
}

// With no Blorb behind it, everything answers "nothing here" -- the
// right answer for a bare .ulx story.
#[test]
fn no_blorb_answers_nothing() {
    let mut bare = Resources::new(None);

    assert!(bare.image(1).is_none());
    assert!(bare.sound(1).is_none());
    assert!(bare.data(1).is_none());
    assert!(bare.frontispiece().is_none());
    assert!(bare.audible(1).is_none());
    assert!(bare.pictured(1).is_none());
}

// The Fspc chunk names the cover outright; a Blorb full of pictures
// but no Fspc offers nothing rather than a guess (Blorb: Frontispiece
// Chunk).
#[test]
fn the_frontispiece_answers_only_when_named() {
    let mut unnamed = Resources::new(Some(blorb(&[(*b"Pict", 1, *b"PNG ", png(32, 16))])));

    assert!(unnamed.frontispiece().is_none());
}

#[test]
fn a_named_frontispiece_is_the_measured_cover() {
    let mut container = blorb(&[
        (*b"Pict", 1, *b"PNG ", png(32, 16)),
        (*b"Pict", 2, *b"PNG ", b"not a picture".to_vec()),
    ]);

    container.frontispiece = Some(1);

    let mut named = Resources::new(Some(container.clone()));

    assert_eq!(named.frontispiece().map(|info| (info.width, info.height)), Some((32, 16)));

    container.frontispiece = Some(2);

    let mut unmeasurable = Resources::new(Some(container));

    assert!(unmeasurable.frontispiece().is_none());
}

/// A mono 8-bit AIFF FORM payload: two sample points at 16384Hz.
fn tiny_aiff() -> Vec<u8> {
    let mut comm = 1i16.to_be_bytes().to_vec();

    comm.extend(2u32.to_be_bytes());
    comm.extend(8i16.to_be_bytes());
    comm.extend(16397u16.to_be_bytes());
    comm.extend((1u64 << 63).to_be_bytes());

    let mut ssnd = 0u32.to_be_bytes().to_vec();

    ssnd.extend(0u32.to_be_bytes());
    ssnd.extend(b"\x01\xfe");

    let mut held = b"AIFF".to_vec();

    held.extend(chunk(b"COMM", &comm));
    held.extend(chunk(b"SSND", &ssnd));

    held
}

/// The base64 payload of a data: url.
fn decoded_payload(url: &str) -> Vec<u8> {
    let payload = url.split_once(',').expect("a data: url").1;
    let mut held = Vec::new();
    let mut bits = 0u32;
    let mut count = 0u32;

    for byte in payload.bytes().filter(|held| *held != b'=') {
        let value = match byte {
            b'A'..=b'Z' => byte - b'A',
            b'a'..=b'z' => byte - b'a' + 26,
            b'0'..=b'9' => byte - b'0' + 52,
            b'+' => 62,
            _ => 63,
        };

        bits = (bits << 6) | u32::from(value);
        count += 6;

        if count >= 8 {
            count -= 8;
            held.push((bits >> count) as u8);
        }
    }

    held
}

// Sounds travel the wire in containers browsers decode: the AIFF's
// points come back inside a WAVE data: url, byte for byte where the
// unsigned convention moves them; an Ogg travels as itself; MOD music,
// a broken AIFF, and an absent number answer None -- and every answer
// is remembered.
#[test]
fn sounds_travel_in_wire_containers() {
    let mut held = Resources::new(Some(blorb(&[
        (*b"Snd ", 3, *b"FORM", tiny_aiff()),
        (*b"Snd ", 4, *b"OGGV", b"OggS-ish".to_vec()),
        (*b"Snd ", 5, *b"MOD ", vec![0]),
        (*b"Snd ", 6, *b"FORM", b"AIFFjunk".to_vec()),
    ])));

    let url = held.audible(3).expect("the AIFF travelled");

    assert!(url.starts_with("data:audio/wav;base64,"));
    assert_eq!(&decoded_payload(&url)[44..], &[0x81, 0x7E]);
    assert_eq!(
        held.audible(4).as_deref(),
        Some(format!("data:audio/ogg;base64,{}", b64(b"OggS-ish")).as_str())
    );
    assert!(held.audible(5).is_none());
    assert!(held.audible(6).is_none());
    assert!(held.audible(9).is_none());
    assert_eq!(held.audible(3), held.audible(3));
}

// A picture is measured on first use and remembered after -- the
// unmeasurable and the absent are remembered as None the same way.
#[test]
fn pictures_are_measured_once() {
    let mut held = Resources::new(Some(blorb(&[
        (*b"Pict", 1, *b"PNG ", png(32, 16)),
        (*b"Pict", 2, *b"Rect", vec![0; 8]),
    ])));

    assert_eq!(
        held.image(1),
        Some(&ImageInfo {
            number: 1,
            kind: *b"PNG ",
            data: png(32, 16),
            width: 32,
            height: 16,
        })
    );
    assert!(held.image(2).is_none());
    assert!(held.image(9).is_none());
}

// A picture rides whole as a data: url, its media type told by the
// chunk kind (Blorb: Picture Resource Chunks).
#[test]
fn pictures_ride_as_data_urls() {
    let mut held = Resources::new(Some(blorb(&[
        (*b"Pict", 1, *b"PNG ", png(32, 16)),
        (*b"Pict", 2, *b"JPEG", jpeg(4, 2)),
    ])));

    assert_eq!(
        held.pictured(1).as_deref(),
        Some(format!("data:image/png;base64,{}", b64(&png(32, 16))).as_str())
    );
    assert_eq!(
        held.pictured(2).as_deref(),
        Some(format!("data:image/jpeg;base64,{}", b64(&jpeg(4, 2))).as_str())
    );
    assert!(held.pictured(9).is_none());
}

#[test]
fn sounds_and_data_come_out_as_files_hold_them() {
    let held = Resources::new(Some(blorb(&[
        (*b"Snd ", 1, *b"FORM", b"AIFFx".to_vec()),
        (*b"Snd ", 2, *b"OGGV", b"ogg".to_vec()),
        (*b"Data", 1, *b"TEXT", b"words".to_vec()),
        (*b"Data", 2, *b"BINA", vec![1, 2, 3]),
        (*b"Data", 3, *b"FORM", b"IFZS".to_vec()),
    ])));

    // A FORM is a whole nested file: header, body, and pad byte.
    assert_eq!(held.sound(1), Some(b"FORM\x00\x00\x00\x05AIFFx\x00".to_vec()));
    assert_eq!(held.sound(2), Some(b"ogg".to_vec()));
    assert_eq!(held.sound(3), None);
    assert_eq!(held.data(1), Some((b"words".to_vec(), true)));
    assert_eq!(held.data(2), Some((vec![1, 2, 3], false)));
    assert_eq!(held.data(3), Some((b"FORM\x00\x00\x00\x04IFZS".to_vec(), false)));
    assert_eq!(held.data(4), None);
}

#[test]
fn the_first_index_entry_answers() {
    let container = blorb(&[
        (*b"Pict", 7, *b"PNG ", png(1, 1)),
        (*b"Pict", 7, *b"PNG ", png(2, 2)),
        (*b"Snd ", 7, *b"OGGV", vec![9]),
    ]);

    assert_eq!(container.resource(b"Pict", 7).map(|found| found.chunk.payload.clone()), Some(png(1, 1)));
    assert_eq!(container.resource(b"Snd ", 7).map(|found| found.chunk.chunk_id), Some(*b"OGGV"));
    assert!(container.resource(b"Data", 7).is_none());
}

#[test]
fn a_sixteen_bit_stereo_aiff_becomes_a_little_endian_wave() {
    let mut comm = 2i16.to_be_bytes().to_vec();

    comm.extend(1u32.to_be_bytes());
    comm.extend(16i16.to_be_bytes());
    // 22050Hz: 1.3458251953125 * 2^14.
    comm.extend(16397u16.to_be_bytes());
    comm.extend(0xAC44_0000_0000_0000u64.to_be_bytes());

    let mut ssnd = 0u32.to_be_bytes().to_vec();

    ssnd.extend(0u32.to_be_bytes());
    ssnd.extend([0x12, 0x34, 0xAB, 0xCD]);

    let mut form = b"AIFF".to_vec();

    form.extend(chunk(b"COMM", &comm));
    form.extend(chunk(b"SSND", &ssnd));

    let sound = decode(&chunk(b"FORM", &form)).expect("a readable AIFF");

    assert_eq!((sound.channels, sound.rate, sound.bits), (2, 22050, 16));
    assert_eq!(sound.samples, vec![0x12, 0x34, 0xAB, 0xCD]);

    let wave = riff(&sound);
    let mut expected = b"RIFF".to_vec();

    expected.extend(40u32.to_le_bytes());
    expected.extend(b"WAVEfmt ");
    expected.extend(16u32.to_le_bytes());
    expected.extend(1u16.to_le_bytes());
    expected.extend(2u16.to_le_bytes());
    expected.extend(22050u32.to_le_bytes());
    expected.extend((22050u32 * 4).to_le_bytes());
    expected.extend(4u16.to_le_bytes());
    expected.extend(16u16.to_le_bytes());
    expected.extend(b"data");
    expected.extend(4u32.to_le_bytes());
    expected.extend([0x34, 0x12, 0xCD, 0xAB]);

    assert_eq!(wave, expected);
}

#[test]
fn an_aiff_missing_its_points_does_not_read() {
    let mut comm = 1i16.to_be_bytes().to_vec();

    comm.extend(4u32.to_be_bytes());
    comm.extend(8i16.to_be_bytes());
    comm.extend(16397u16.to_be_bytes());
    comm.extend((1u64 << 63).to_be_bytes());

    let mut ssnd = 0u32.to_be_bytes().to_vec();

    ssnd.extend(0u32.to_be_bytes());
    ssnd.extend(b"\x01\xfe");

    let mut form = b"AIFF".to_vec();

    form.extend(chunk(b"COMM", &comm));
    form.extend(chunk(b"SSND", &ssnd));

    // Four frames promised, two delivered.
    assert_eq!(decode(&chunk(b"FORM", &form)), None);
    assert_eq!(decode(b"FORM\x00\x00\x00\x04AIFC"), None);
}
