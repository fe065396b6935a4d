//! The wrapper: styled wrapping, the pager, and the scrollback.

use voxam_core::glk::wrap::{plain, wrap, wrap_segments, Segment, Wrapper, SCROLLBACK};

/// One accumulated window, spoken to in plain text for brevity.
fn wrapped(width: usize, texts: &[&str]) -> Wrapper<u32> {
    let mut wrapper = Wrapper::new(width);

    wrapper.add(texts.iter().map(|text| (0, (*text).to_string())).collect());

    wrapper
}

fn shown(wrapper: &mut Wrapper<u32>) -> Vec<String> {
    wrapper.lines().iter().map(|line| plain(line)).collect()
}

fn seg(key: u32, text: &str) -> Segment<u32> {
    (key, text.to_string())
}

#[test]
fn wrap_breaks_at_spaces() {
    assert_eq!(wrap("the deep magic word", 9), ["the deep", "magic", "word"]);
}

#[test]
fn wrap_breaks_on_the_space_past_the_line() {
    assert_eq!(wrap("xyzzy plugh", 5), ["xyzzy", "plugh"]);
}

#[test]
fn wrap_cuts_a_word_wider_than_the_line() {
    assert_eq!(wrap("overincredulous", 6), ["overin", "credul", "ous"]);
}

#[test]
fn wrap_honours_newlines() {
    assert_eq!(wrap("above\n\nbelow", 20), ["above", "", "below"]);
}

#[test]
fn wrap_clamps_the_width() {
    assert_eq!(wrap("ab", 0), ["a", "b"]);
}

#[test]
fn wrap_segments_keeps_the_styles() {
    let lines = wrap_segments(&[seg(1, "bold text "), seg(2, "and italic")], 10);

    assert_eq!(lines, vec![vec![seg(1, "bold text")], vec![seg(2, "and italic")]]);
}

#[test]
fn wrap_segments_of_nothing_is_one_empty_line() {
    assert_eq!(wrap_segments::<u32>(&[], 10), vec![Vec::new()]);
}

#[test]
fn wrap_segments_leaves_blank_lines_empty() {
    let lines = wrap_segments(&[seg(0, "up\n\ndown")], 10);

    assert_eq!(lines, vec![vec![seg(0, "up")], Vec::new(), vec![seg(0, "down")]]);
}

#[test]
fn plain_strips_the_styling() {
    assert_eq!(plain(&[seg(1, "xy"), seg(2, "zzy")]), "xyzzy");
}

#[test]
fn the_wrapper_folds_pieces_into_the_open_paragraph() {
    let mut wrapper = wrapped(20, &["You are in a ", "maze", " of twisty passages"]);

    assert_eq!(shown(&mut wrapper), vec!["You are in a maze of", "twisty passages"]);
    assert_eq!(wrapper.lines()[0].len(), 1);
}

#[test]
fn the_wrapper_keeps_styles_apart() {
    let mut wrapper: Wrapper<u32> = Wrapper::new(30);

    wrapper.add(vec![seg(0, "a "), seg(0, ""), seg(1, "magic"), seg(0, " word\n"), seg(0, "")]);

    assert_eq!(wrapper.lines()[0], vec![seg(0, "a "), seg(1, "magic"), seg(0, " word")]);
}

#[test]
fn a_newline_breaks_the_paragraph() {
    let mut wrapper = wrapped(20, &["West of House\n", "You are standing"]);

    assert_eq!(shown(&mut wrapper), vec!["West of House", "You are standing"]);
}

#[test]
fn the_preview_does_not_commit() {
    let mut wrapper = wrapped(20, &["What now?\n", "> "]);

    let preview = wrapper.preview(&[seg(8, "go north")]);

    assert_eq!(plain(preview.last().expect("a previewed line")), "> go north");
    assert_eq!(shown(&mut wrapper), vec!["What now?", "> "]);
}

#[test]
fn an_empty_preview_is_the_lines() {
    let mut wrapper = wrapped(20, &["steady"]);
    let lines = wrapper.lines();

    assert_eq!(wrapper.preview(&[]), lines);
}

#[test]
fn a_view_that_fits_advances_seen() {
    let mut wrapper = wrapped(20, &["one\ntwo\nthree"]);

    let view = wrapper.view(5);
    let texts: Vec<String> = view.lines.iter().map(|line| plain(line)).collect();

    assert_eq!(texts, vec!["one", "two", "three"]);
    assert_eq!(view.start, 0);
    assert!(!view.more);
    assert_eq!(wrapper.seen, 3);
}

#[test]
fn a_full_window_waits_to_be_read() {
    let text: Vec<String> = (0..9).map(|index| index.to_string()).collect();
    let mut wrapper = wrapped(10, &[&text.join("\n")]);

    let first = wrapper.view(4);
    let texts: Vec<String> = first.lines.iter().map(|line| plain(line)).collect();

    assert!(first.more);
    assert_eq!(texts, vec!["0", "1", "2"]);
    assert_eq!(wrapper.view(4), first);

    wrapper.advance(4);

    let second = wrapper.view(4);

    assert!(second.more);
    assert_eq!(second.start, 2);

    wrapper.advance(4);

    let last = wrapper.view(4);
    let texts: Vec<String> = last.lines.iter().map(|line| plain(line)).collect();

    assert!(!last.more);
    assert!(texts.contains(&"8".to_string()));
}

#[test]
fn a_flat_window_shows_nothing() {
    let mut wrapper = wrapped(10, &["words"]);

    assert!(wrapper.view(0).lines.is_empty());
}

#[test]
fn a_tiny_window_still_turns_its_page() {
    let mut wrapper = wrapped(10, &["a\nb\nc"]);

    assert!(wrapper.view(1).more);

    wrapper.advance(1);

    assert_eq!(wrapper.seen, 1);
}

#[test]
fn catching_up_reads_everything() {
    let letters: Vec<String> = "abcdefgh".chars().map(String::from).collect();
    let mut wrapper = wrapped(10, &[&letters.join("\n")]);

    assert!(wrapper.view(3).more);

    wrapper.catch_up();

    assert!(!wrapper.view(3).more);
}

#[test]
fn a_resize_rewraps_from_the_paragraphs() {
    let mut wrapper = wrapped(20, &["hello wide world"]);

    assert_eq!(shown(&mut wrapper), vec!["hello wide world"]);

    wrapper.resize(10);

    assert_eq!(shown(&mut wrapper), vec!["hello wide", "world"]);

    wrapper.resize(10);

    assert_eq!(shown(&mut wrapper), vec!["hello wide", "world"]);
}

#[test]
fn clearing_forgets_everything() {
    let mut wrapper = wrapped(10, &["gone\n"]);

    wrapper.view(3);
    wrapper.clear();

    assert_eq!(shown(&mut wrapper), vec![""]);
    assert_eq!(wrapper.seen, 0);
}

#[test]
fn the_scrollback_is_bounded() {
    let mut wrapper: Wrapper<u32> = Wrapper::new(20);

    for index in 0..(SCROLLBACK + 202) {
        wrapper.add(vec![seg(0, &format!("turn {index}\n"))]);
    }

    let lines = shown(&mut wrapper);

    assert!(lines.len() <= SCROLLBACK + 3);
    assert_eq!(lines[0], "turn 200");
    assert_eq!(lines[lines.len() - 2], format!("turn {}", SCROLLBACK + 201));
}

// Own checks of the laws on concrete values.

#[test]
fn viewing_twice_is_the_same_view() {
    let letters: Vec<String> = "abcdefg".chars().map(String::from).collect();
    let mut wrapper = wrapped(10, &[&letters.join("\n")]);

    let first = wrapper.view(3);
    let seen = wrapper.seen;

    assert_eq!(wrapper.view(3), first);
    assert_eq!(wrapper.seen, seen);
    assert!(first.lines.len() <= 3);
}

#[test]
fn every_wrapped_line_fits_its_width() {
    for line in wrap("a quick brown fox jumps over the extraordinarily lazy dog", 7) {
        assert!(line.chars().count() <= 7);
    }
}

#[test]
fn wrapped_lines_rejoin_into_their_text() {
    let texts = ["the deep magic word", "a\nb c d e\n\nfgh ijk", "overincredulous words", ""];

    for text in texts {
        let newlines = text.matches('\n').count();
        let kept: String = text.chars().filter(|c| *c != ' ' && *c != '\n').collect();

        for width in [1, 3, 5, 9, 40] {
            let lines = wrap(text, width);
            let total: usize = lines.iter().map(|line| line.chars().count()).sum();
            let joined: String = lines.concat().chars().filter(|c| *c != ' ').collect();

            assert!(!lines.is_empty());
            assert!(lines.iter().all(|line| !line.contains('\n')), "{text:?} at {width}");
            assert!(total + newlines <= text.chars().count(), "{text:?} at {width}");
            assert!(lines.len() > newlines, "{text:?} at {width}");
            assert_eq!(joined, kept, "{text:?} at {width}");
        }
    }
}

#[test]
fn styled_lines_read_as_the_plain_text_wrapped() {
    let segments = vec![seg(1, "bold text "), seg(2, "and italic"), seg(1, " and more")];
    let joined: String = segments.iter().map(|segment| segment.1.as_str()).collect();

    for width in [4, 10, 13] {
        let lines: Vec<String> = wrap_segments(&segments, width).iter().map(|line| plain(line)).collect();
        assert_eq!(lines, wrap(&joined, width), "at {width}");
    }
}

#[test]
fn the_width_and_seen_count_are_read_back() {
    let mut wrapper = Wrapper::<u32>::new(0);
    assert_eq!(wrapper.line_width(), 1);
    assert_eq!(wrapper.lines_seen(), 0);
    wrapper.resize(30);
    assert_eq!(wrapper.line_width(), 30);
    wrapper.clear();
    assert_eq!((wrapper.line_width(), wrapper.lines_seen()), (30, 0));
}

#[test]
fn a_wrapper_shows_all_its_text_wrapped() {
    let runs = ["The quick brown fox\n", "jumps over\n\nthe lazy ", "dog at last"];
    let text: String = runs.concat();

    for width in [4, 7, 30] {
        let mut wrapper = wrapped(width, &runs);
        assert_eq!(shown(&mut wrapper), wrap(&text, width), "at {width}");
    }
}
