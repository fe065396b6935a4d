//! The stdio display: what it shows and what it makes of its input.

use voxam_core::glk::frontend::Asked;
use voxam_core::glk::objects::{file_mode, key_code, resize_grid, BufferData, GridData};
use voxam_core::glk::stdio::{trimmed, trimmed_end, visual_order, StdioFrontend};

/// An input source over a script of lines, as a host would wire one.
struct Script {
    lines: Vec<String>,
}

impl Script {
    fn new(lines: &[&str]) -> Self {
        Script { lines: lines.iter().map(|line| line.to_string()).collect() }
    }

    fn next(&mut self) -> Option<String> {
        if self.lines.is_empty() {
            None
        } else {
            Some(self.lines.remove(0))
        }
    }
}

/// One flush of a status grid above a buffer, drawn in visual order.
fn flush(
    display: &mut StdioFrontend,
    grid: &GridData,
    buffer: &mut BufferData,
    written: &mut String,
) {
    let (first, second) = visual_order(2, Some((0, 1, 40, 12)), 1, Some((0, 0, 40, 1)));

    for key in [first, second] {
        if key == 1 {
            if let Some(block) = display.render_grid(1, &grid.rows()) {
                written.push_str(&block);
            }
        } else {
            written.push_str(&buffer.take_text());
        }
    }
}

// A buffer streams once per drain; a grid draws as a block with its
// divider, and only when it changes.
#[test]
fn buffers_stream_and_grids_block() {
    let mut display = StdioFrontend::new().sized((40, 12));
    let mut grid = GridData::default();
    let mut buffer = BufferData::default();
    let mut written = String::new();

    resize_grid(&mut grid, 40, 1);

    for character in "Score: 10".chars() {
        grid.put_char(40, 1, 0, 0, u32::from(character));
    }

    for character in "Hello.\n".chars() {
        buffer.put_char(0, 0, u32::from(character));
    }

    flush(&mut display, &grid, &mut buffer, &mut written);
    flush(&mut display, &grid, &mut buffer, &mut written);

    // The status line above, the divider, the prose below -- and
    // neither printed twice.
    assert_eq!(
        written,
        "Score: 10\n----------------------------------------\nHello.\n"
    );
}

// A line is cut to the buffer's capacity; a key token becomes its Glk
// keycode; a bare Return reads as Return; the end of input ends the
// session.
#[test]
fn input_translates_the_grammar() {
    let display = StdioFrontend::new();
    let mut source = Script::new(&["northwest", "\u{81}rest", "", "x"]);

    assert_eq!(
        display.read_line(source.next(), 5),
        Asked::Answer(("north".into(), 0))
    );
    assert_eq!(display.read_char(source.next()), Asked::Answer(key_code::UP));
    assert_eq!(display.read_char(source.next()), Asked::Answer(key_code::RETURN));
    assert_eq!(display.read_char(source.next()), Asked::Answer(u32::from(b'x')));
    assert_eq!(display.read_line(source.next(), 8), Asked::End);
    assert_eq!(display.read_char(source.next()), Asked::End);
}

// The file prompt speaks its verb and takes the next line; empty
// cancels.
#[test]
fn the_file_prompt_asks_in_the_stream() {
    let display = StdioFrontend::new();
    let mut source = Script::new(&["saga", "  "]);
    let mut written = String::new();
    let mut prompt = |fmode: u32, source: &mut Script| {
        written.push_str(&display.prompt_question(0, fmode));
        display.prompt_answer(source.next())
    };

    assert_eq!(prompt(file_mode::WRITE, &mut source), Some("saga".into()));
    assert_eq!(prompt(file_mode::READ, &mut source), None);
    assert_eq!(prompt(file_mode::READ, &mut source), None);

    assert!(written.starts_with("Save to which file? "));
    assert!(written.contains("Load from which file? "));
}

#[test]
fn the_classic_measure_holds_until_another_is_chosen() {
    assert_eq!(StdioFrontend::new().size(), (80, 24));
    assert_eq!(StdioFrontend::new().sized((132, 50)).size(), (132, 50));
    assert!(StdioFrontend::new().echoes_input());
}

#[test]
fn a_blank_grid_draws_nothing() {
    let mut display = StdioFrontend::new();

    assert_eq!(display.render_grid(3, &vec!["    ".to_string(), String::new()]), None);
}

#[test]
fn a_changed_grid_draws_again_and_the_divider_stops_at_sixty() {
    let mut display = StdioFrontend::new().sized((200, 50));
    let dashes = "-".repeat(60);

    assert_eq!(
        display.render_grid(3, &vec!["Room   ".to_string(), "".to_string()]),
        Some(format!("Room\n\n{dashes}\n"))
    );
    assert_eq!(display.render_grid(3, &vec!["Room".to_string(), " ".to_string()]), None);
    assert_eq!(
        display.render_grid(3, &vec!["Hall".to_string()]),
        Some(format!("Hall\n{dashes}\n"))
    );
    // Another grid keeps its own memory.
    assert_eq!(
        display.render_grid(4, &vec!["Hall".to_string()]),
        Some(format!("Hall\n{dashes}\n"))
    );
}

#[test]
fn a_negative_width_draws_no_divider() {
    let mut display = StdioFrontend::new().sized((-5, 2));

    assert_eq!(display.render_grid(1, &vec!["x".to_string()]), Some("x\n\n".to_string()));
}

#[test]
fn white_space_is_trimmed_by_unicode() {
    assert_eq!(trimmed(" \t saga \u{3000}"), "saga");
    assert_eq!(trimmed("\u{a0}\u{2009}"), "");
    assert_eq!(trimmed_end("  a b  \n"), "  a b");
}

#[test]
fn siblings_show_top_to_bottom_then_left_to_right() {
    assert_eq!(visual_order(1, Some((0, 5, 10, 9)), 2, Some((0, 0, 10, 5))), (2, 1));
    assert_eq!(visual_order(1, Some((5, 0, 10, 9)), 2, Some((0, 0, 5, 9))), (2, 1));
    assert_eq!(visual_order(1, Some((0, 0, 10, 5)), 2, Some((0, 5, 10, 9))), (1, 2));
    // A window that is gone counts as the origin; ties keep their order.
    assert_eq!(visual_order(1, None, 2, Some((0, 0, 5, 5))), (1, 2));
    assert_eq!(visual_order(1, Some((0, 3, 5, 5)), 2, None), (2, 1));
}

#[test]
fn a_key_token_is_read_as_its_keycode() {
    let display = StdioFrontend::new();

    assert_eq!(display.read_char(Some("\u{84}".into())), Asked::Answer(key_code::RIGHT));
    assert_eq!(display.read_char(Some("\u{1b}x".into())), Asked::Answer(key_code::ESCAPE));
    assert_eq!(display.read_char(Some("é".into())), Asked::Answer(0xE9));
    assert_eq!(display.read_line(Some("abc".into()), 0), Asked::Answer((String::new(), 0)));
}
