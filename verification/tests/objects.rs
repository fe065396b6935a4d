//! The object model: character rendering, memory arrays, streams,
//! buffer and grid contents, pair methods, and the plain records.

use voxam_core::glk::objects::{
    event_type, file_mode, file_usage, resize_grid, seek_mode, style, to_char, window_method,
    window_type, BufferData, Event, FileHandle, FileRef, Flow, GraphicsData, GridData, LineRequest,
    MemArray, PairData, Placed, SoundChannel, Stream, WindowKind,
};
use voxam_core::memory::Memory;

/// A memory whose RAM holds the tests' buffers.
fn ram() -> Memory {
    let mut data = vec![0u8; 256];
    data[..4].copy_from_slice(b"Glul");
    data[4..8].copy_from_slice(&0x0003_0102u32.to_be_bytes());
    data[8..12].copy_from_slice(&256u32.to_be_bytes());
    data[12..16].copy_from_slice(&256u32.to_be_bytes());
    data[16..20].copy_from_slice(&0x300u32.to_be_bytes());
    data[20..24].copy_from_slice(&256u32.to_be_bytes());

    Memory::new(data, 256, 0x300)
}

fn bytes_at(address: u32, count: u32) -> MemArray {
    MemArray { address, count, width: 1 }
}

fn words_at(address: u32, count: u32) -> MemArray {
    MemArray { address, count, width: 4 }
}

fn put_all(stream: &mut Stream, memory: &mut Memory, values: &[u32]) {
    for value in values {
        stream.put_char(memory, *value).unwrap();
    }
}

/// A grid of a size, laid out as a window's box would lay it.
fn grid(width: i64, height: i64) -> GridData {
    let mut data = GridData::default();

    resize_grid(&mut data, width, height);

    data
}

fn rows(data: &GridData) -> Vec<String> {
    data.rows()
}

#[test]
fn unprintable_values_render_as_question_marks() {
    assert_eq!(to_char(0x41), 'A');
    assert_eq!(to_char(0x110000), '?');
    assert_eq!(to_char(0xD800), '?');
}

#[test]
fn streams_enforce_their_directions() {
    let mut memory = ram();
    let mut silent = Stream::memory(Some(bytes_at(0x180, 2)), file_mode::READ, 0, false);
    let mut deaf = Stream::window(1);

    silent.put_char(&mut memory, 0x41).unwrap();
    deaf.put_char(&mut memory, 0x41).unwrap();

    assert_eq!(silent.writecount, 0);
    assert_eq!(deaf.writecount, 1);
    assert_eq!(deaf.get_char(&memory).unwrap(), -1);

    deaf.set_position(5, seek_mode::START).unwrap();

    assert_eq!(deaf.get_position().unwrap(), 0);
    assert_eq!(deaf.close(), (0, 1));
    assert!(deaf.disposed);
}

#[test]
fn byte_streams_substitute_what_they_cannot_hold() {
    let mut memory = ram();
    let mut narrow = Stream::memory(Some(bytes_at(0x180, 2)), file_mode::WRITE, 0, false);
    let mut wide = Stream::memory(Some(words_at(0x190, 2)), file_mode::WRITE, 0, true);

    put_all(&mut narrow, &mut memory, &[0x41, 0x2603]);
    put_all(&mut wide, &mut memory, &[0x41, 0x2603]);

    assert_eq!(memory.read_run(0x180, 2).unwrap(), [0x41, 0x3F]);
    assert_eq!(memory.read_word(0x190).unwrap(), 0x41);
    assert_eq!(memory.read_word(0x194).unwrap(), 0x2603);
}

#[test]
fn write_counts_include_what_overflowed() {
    let mut memory = ram();
    let mut short = Stream::memory(Some(bytes_at(0x180, 1)), file_mode::WRITE, 0, false);
    let mut null = Stream::memory(None, file_mode::WRITE, 0, false);

    put_all(&mut short, &mut memory, &[0x61, 0x62, 0x63]);
    put_all(&mut null, &mut memory, &[0x61, 0x62, 0x63]);

    assert_eq!(memory.read_byte(0x180).unwrap(), 0x61);
    assert_eq!(short.writecount, 3);
    assert_eq!(short.get_position().unwrap(), 3);
    assert_eq!(null.writecount, 3);

    let mut hollow = Stream::memory(None, file_mode::READ, 0, false);

    assert_eq!(hollow.get_char(&memory).unwrap(), -1);
}

#[test]
fn get_buffer_fills_until_something_runs_out() {
    let mut memory = ram();

    memory.write_run(0x180, &[0x61, 0x62, 0x63]).unwrap();
    memory.write_run(0x1A0, &[9, 9, 9, 9, 9]).unwrap();

    let mut source = Stream::memory(Some(bytes_at(0x180, 3)), file_mode::READ, 0, false);

    assert_eq!(source.get_buffer(&mut memory, bytes_at(0x1A0, 5)).unwrap(), 3);
    assert_eq!(memory.read_run(0x1A0, 5).unwrap(), [0x61, 0x62, 0x63, 9, 9]);
    assert_eq!(source.readcount, 3);

    memory.write_run(0x190, &[0x64, 0x65]).unwrap();

    let mut refill = Stream::memory(Some(bytes_at(0x190, 2)), file_mode::READ, 0, false);

    assert_eq!(refill.get_buffer(&mut memory, bytes_at(0x1B0, 2)).unwrap(), 2);
    assert_eq!(memory.read_run(0x1B0, 2).unwrap(), [0x64, 0x65]);
}

#[test]
fn get_line_keeps_the_newline_and_terminates() {
    let mut memory = ram();

    memory.write_run(0x180, &[0x61, 0x62, 0x0A, 0x63]).unwrap();
    memory.write_run(0x1A0, &[9, 9, 9, 9]).unwrap();

    let mut source = Stream::memory(Some(bytes_at(0x180, 4)), file_mode::READ, 0, false);

    assert_eq!(source.get_line(&mut memory, bytes_at(0x1A0, 4)).unwrap(), 3);
    assert_eq!(memory.read_run(0x1A0, 4).unwrap(), [0x61, 0x62, 0x0A, 0]);

    memory.write_run(0x1B0, &[9, 9, 9, 9]).unwrap();

    assert_eq!(source.get_line(&mut memory, bytes_at(0x1B0, 4)).unwrap(), 1);
    assert_eq!(memory.read_run(0x1B0, 4).unwrap(), [0x63, 0, 9, 9]);

    memory.write_run(0x1C0, &[9, 9]).unwrap();
    memory.write_run(0x190, &[0x64, 0x65, 0x66]).unwrap();

    let mut long = Stream::memory(Some(bytes_at(0x190, 3)), file_mode::READ, 0, false);

    assert_eq!(long.get_line(&mut memory, bytes_at(0x1C0, 2)).unwrap(), 1);
    assert_eq!(memory.read_run(0x1C0, 2).unwrap(), [0x64, 0]);

    assert_eq!(long.get_line(&mut memory, bytes_at(0x1D0, 0)).unwrap(), 0);
}

#[test]
fn memory_streams_seek_and_clamp() {
    let mut memory = ram();

    memory.write_run(0x180, &[0x61, 0x62, 0x63, 0x64]).unwrap();

    let mut stream = Stream::memory(Some(bytes_at(0x180, 4)), file_mode::READ_WRITE, 0, false);

    stream.set_position(2, seek_mode::START).unwrap();

    assert_eq!(stream.get_char(&memory).unwrap(), 0x63);

    stream.set_position(-2, seek_mode::CURRENT).unwrap();

    assert_eq!(stream.get_char(&memory).unwrap(), 0x62);

    stream.set_position(-1, seek_mode::END).unwrap();

    assert_eq!(stream.get_char(&memory).unwrap(), 0x64);
    assert_eq!(stream.get_char(&memory).unwrap(), -1);

    stream.set_position(-10, seek_mode::START).unwrap();

    assert_eq!(stream.get_position().unwrap(), 0);

    stream.set_position(10, seek_mode::START).unwrap();

    assert_eq!(stream.get_position().unwrap(), 4);

    let appender = Stream::memory(Some(bytes_at(0x190, 1)), file_mode::WRITE_APPEND, 0, false);

    assert!(appender.writable);
    assert!(!appender.readable);
}

#[test]
fn window_streams_hand_characters_back() {
    let mut memory = ram();
    let mut stream = Stream::window(7);

    assert!(!stream.readable);
    assert!(stream.unicode);
    assert_eq!(stream.put_char(&mut memory, 0x61).unwrap(), Some(0x61));
    assert_eq!(stream.writecount, 1);
}

#[test]
fn line_requests_hold_what_was_asked() {
    let mut request = LineRequest::new(Some(bytes_at(0x180, 3)), 1, true);
    request.echo = false;

    let hollow = LineRequest::new(None, 0, false);

    assert_eq!(request.capacity(), 3);
    assert_eq!(request.initlen, 1);
    assert!(request.unicode);
    assert!(!request.echo);
    assert!(request.terminators.is_empty());
    assert_eq!(hollow.capacity(), 0);
    assert!(hollow.echo);
}

#[test]
fn buffer_runs_split_on_style_and_link() {
    let mut data = BufferData::default();

    data.put_char(style::NORMAL, 0, 0x61);
    data.put_char(style::NORMAL, 0, 0x62);
    data.put_char(style::EMPHASIZED, 0, 0x63);
    data.put_char(style::NORMAL, 7, 0x64);

    assert_eq!(
        data.content,
        [
            Flow::Run { style: style::NORMAL, hyperlink: 0, text: "ab".into() },
            Flow::Run { style: style::EMPHASIZED, hyperlink: 0, text: "c".into() },
            Flow::Run { style: style::NORMAL, hyperlink: 7, text: "d".into() },
        ]
    );
    assert_eq!(data.text(), "abcd");

    assert_eq!(data.take_content().len(), 3);
    assert_eq!(data.text(), "");

    data.put_char(style::NORMAL, 0, 0x65);

    assert_eq!(data.take_text(), "e");
    assert_eq!(data.text(), "");

    data.put_char(style::NORMAL, 0, 0x66);
    data.clear();

    assert_eq!(data.text(), "");
}

#[test]
fn the_flow_carries_placed_pictures_and_breaks() {
    let mut data = BufferData::default();
    let placed = Placed {
        image: 3,
        url: "data:".into(),
        width: 4,
        height: 5,
        alignment: 1,
        hyperlink: 0,
    };

    data.put_char(style::NORMAL, 0, 0x61);
    data.put_char(style::NORMAL, 0, 0x62);
    data.put_placed(placed.clone());
    data.put_char(style::NORMAL, 0, 0x63);
    data.put_char(style::NORMAL, 0, 0x64);
    data.put_break();
    data.put_char(style::NORMAL, 0, 0x65);
    data.put_char(style::NORMAL, 0, 0x66);

    assert_eq!(data.text(), "abcdef");

    let flow = data.take_content();

    assert_eq!(flow.len(), 5);
    assert_eq!(flow[0], Flow::Run { style: style::NORMAL, hyperlink: 0, text: "ab".into() });
    assert_eq!(flow[1], Flow::Placed(placed));
    assert!(matches!(flow[3], Flow::Break));
}

#[test]
fn grids_write_wrap_and_drop() {
    let mut data = grid(3, 2);

    for character in [0x61, 0x62, 0x63, 0x64] {
        data.put_char(3, 2, style::NORMAL, 0, character);
    }

    assert_eq!(rows(&data), ["abc", "d  "]);

    data.move_cursor(0, 1);
    data.put_char(3, 2, style::NORMAL, 0, 0x0A);

    for character in "lost".bytes() {
        data.put_char(3, 2, style::NORMAL, 0, u32::from(character));
    }

    assert_eq!(rows(&data), ["abc", "d  "]);

    data.move_cursor(-2, 0);
    data.put_char(3, 2, style::NORMAL, 0, 0x7A);

    assert_eq!(rows(&data), ["abc", "d  "]);
}

#[test]
fn grids_keep_styles_and_links_per_cell() {
    let mut data = grid(2, 1);

    data.put_char(2, 1, style::HEADER, 5, 0x61);

    assert_eq!(data.styles[0], [style::HEADER, style::NORMAL]);
    assert_eq!(data.links[0], [5, 0]);
}

#[test]
fn grids_resize_keeping_what_fits() {
    let mut data = grid(4, 2);

    for character in "abcdef".bytes() {
        data.put_char(4, 2, style::NORMAL, 0, u32::from(character));
    }

    resize_grid(&mut data, 6, 3);

    assert_eq!(rows(&data), ["abcd  ", "ef    ", "      "]);

    data.move_cursor(5, 2);

    resize_grid(&mut data, 2, 1);

    assert_eq!(rows(&data), ["ab"]);
    assert_eq!((data.cursor_x, data.cursor_y), (2, 1));

    data.clear();

    assert_eq!(rows(&data), ["  "]);
}

#[test]
fn pair_methods_unpack_and_recompose() {
    let mut pair = PairData::new(1, 2, 2, window_method::LEFT | window_method::FIXED, 10);

    assert!(pair.vertical);
    assert!(pair.backward);
    assert!(pair.has_border);
    assert_eq!(pair.method(), window_method::LEFT | window_method::FIXED);

    pair.set_method(window_method::BELOW | window_method::PROPORTIONAL | window_method::NO_BORDER);

    assert!(!pair.vertical);
    assert!(!pair.backward);
    assert!(!pair.has_border);
    assert_eq!(
        pair.method(),
        window_method::BELOW | window_method::PROPORTIONAL | window_method::NO_BORDER
    );
}

#[test]
fn filerefs_and_channels_record_their_making() {
    let fileref = FileRef::new("save.glksave".into(), file_usage::SAVED_GAME | file_usage::TEXT_MODE, 9, true);

    assert_eq!(fileref.usage, file_usage::SAVED_GAME);
    assert!(fileref.text_mode);
    assert!(fileref.temporary);
    assert_eq!(fileref.rock, 9);
    assert!(!fileref.disposed);

    let channel = SoundChannel::new(0x8000, 4);

    assert_eq!(channel.volume, 0x8000);
    assert_eq!(channel.rock, 4);
    assert_eq!(channel.sound, 0);
    assert!(!channel.paused);
}

#[test]
fn events_default_to_nothing_happened() {
    let event = Event::none();

    assert_eq!(event.kind, event_type::NONE);
    assert_eq!(event.window, None);
    assert_eq!((event.val1, event.val2), (0, 0));

    let timer = Event::new(event_type::TIMER, Some(3), 1, 2);

    assert_eq!(timer.kind, event_type::TIMER);
    assert_eq!(timer.window, Some(3));
}

// Own checks.

#[test]
fn proportional_splits_take_their_percentage_rounded_down() {
    let pair = PairData::new(1, 2, 2, window_method::BELOW | window_method::PROPORTIONAL, 30);

    let (sized, other) = pair.split((0, 0, 80, 25), 0);

    assert_eq!(sized, (0, 18, 80, 25));
    assert_eq!(other, (0, 0, 80, 18));

    let left = PairData::new(1, 2, 2, window_method::LEFT | window_method::FIXED, 10);

    let (sized, other) = left.split((0, 0, 80, 25), 12);

    assert_eq!(sized, (0, 0, 12, 25));
    assert_eq!(other, (12, 0, 80, 25));

    let (sized, _) = left.split((0, 0, 80, 25), 500);

    assert_eq!(sized, (0, 0, 80, 25));
}

#[test]
fn window_kinds_answer_their_type_numbers() {
    assert_eq!(WindowKind::Blank.wintype(), window_type::BLANK);
    assert_eq!(WindowKind::Buffer(BufferData::default()).wintype(), window_type::TEXT_BUFFER);
    assert_eq!(WindowKind::Grid(GridData::default()).wintype(), window_type::TEXT_GRID);
    assert_eq!(WindowKind::Graphics(GraphicsData::default()).wintype(), window_type::GRAPHICS);
}

#[test]
fn text_file_streams_write_and_read_utf8() {
    let mut memory = ram();
    let handle = FileHandle { bytes: Vec::new(), position: 0 };
    let mut stream = Stream::file(handle, file_mode::READ_WRITE, 0, true, true);

    put_all(&mut stream, &mut memory, &[0x41, 0xE9, 0x2603, 0x1F600, 0xD800]);

    stream.set_position(0, seek_mode::START).unwrap();

    let mut read = Vec::new();
    loop {
        let value = stream.get_char(&memory).unwrap();
        if value < 0 {
            break;
        }
        read.push(value);
    }

    assert_eq!(read, [0x41, 0xE9, 0x2603, 0x1F600, 0x3F]);
    assert_eq!(stream.close(), (5, 5));
}

#[test]
fn binary_file_streams_hold_words_and_refuse_negative_seeks() {
    let mut memory = ram();
    let handle = FileHandle { bytes: vec![0xC3, 0x28, 0x41], position: 0 };
    let mut damaged = Stream::file(handle, file_mode::READ, 0, true, true);

    assert_eq!(damaged.get_char(&memory).unwrap(), 0x3F);
    assert_eq!(damaged.get_char(&memory).unwrap(), 0x41);
    assert_eq!(damaged.get_char(&memory).unwrap(), -1);

    let handle = FileHandle { bytes: Vec::new(), position: 0 };
    let mut words = Stream::file(handle, file_mode::READ_WRITE, 0, true, false);

    words.put_char(&mut memory, 0x0102_0304).unwrap();
    words.set_position(-4, seek_mode::END).unwrap();

    assert_eq!(words.get_char(&memory).unwrap(), 0x0102_0304);
    assert!(words.set_position(-9, seek_mode::CURRENT).is_err());
    assert_eq!(words.get_position().unwrap(), 4);
}

#[test]
fn rearranging_keeps_the_axis_and_swaps_sides() {
    let mut pair = PairData::new(1, 2, 2, window_method::LEFT | window_method::FIXED, 10);

    pair.set_arrangement(window_method::RIGHT | window_method::PROPORTIONAL, 50, Some(1)).unwrap();

    assert_eq!((pair.child1, pair.child2), (2, 1));
    assert_eq!(pair.method(), window_method::RIGHT | window_method::PROPORTIONAL);
    assert_eq!((pair.size, pair.key), (50, 1));

    let refused = pair.set_arrangement(window_method::ABOVE | window_method::FIXED, 3, None);

    assert!(refused.unwrap_err().to_string().contains("cannot change its axis"));
    assert_eq!((pair.child1, pair.child2, pair.size), (2, 1, 50));
}
