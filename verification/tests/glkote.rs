//! The protocol's vocabulary and the ids it names windows by.

use voxam_core::glk::glkote::{
    alignment_name, card_style, css, file_kind_name, file_mode_name, initial_text, key_for, key_of,
    grouped, styled, terminator_code, terminator_name, Composer, TextRun,
    accepted, after_answer, carries_partial, opening, opening_stanza, Accepted, Action, Input,
    Verdict,
};
use voxam_core::glk::objects::{file_mode, file_usage, key_code, style, LineRequest, MemArray};
use voxam_core::memory::Memory;
use voxam_core::error::VoxamError;
use voxam_core::glk::objects::{event_type, Event, Flow, Placed};
use voxam_core::glk::resources::{ImageInfo, PNG_ID};

#[test]
fn a_char_event_translates_its_key() {
    assert_eq!(key_of("A", true, false), 65);
    assert_eq!(key_of("left", true, false), key_code::LEFT);
    assert_eq!(key_of("borogove", true, false), key_code::UNKNOWN);
    assert_eq!(key_of("5", false, false), key_code::UNKNOWN);
    assert_eq!(key_of("λ", true, false), key_code::UNKNOWN);
    assert_eq!(key_of("λ", true, true), 0x3BB);
}

#[test]
fn terminators_name_escape_and_function_keys() {
    assert_eq!(terminator_name(key_code::ESCAPE).as_deref(), Some("escape"));
    assert_eq!(terminator_name(key_code::FUNC1).as_deref(), Some("func1"));
    assert_eq!(terminator_name(key_code::FUNC12).as_deref(), Some("func12"));
    assert_eq!(terminator_name(key_code::LEFT), None);

    assert_eq!(terminator_code("escape"), key_code::ESCAPE);
    assert_eq!(terminator_code("func3"), key_code::FUNC3);
    assert_eq!(terminator_code("func+12"), key_code::FUNC12);
    assert_eq!(terminator_code("func13"), 0);
    assert_eq!(terminator_code("func"), 0);
    assert_eq!(terminator_code("return"), 0);
}

#[test]
fn keys_are_named_or_unknown() {
    assert_eq!(key_for("pagedown"), key_code::PAGE_DOWN);
    assert_eq!(key_for("func10"), key_code::FUNC10);
    assert_eq!(key_for("func0"), key_code::UNKNOWN);
    assert_eq!(key_for(""), key_code::UNKNOWN);
}

#[test]
fn the_protocol_words_for_glk_numbers() {
    assert_eq!(alignment_name(2), "inlinedown");
    assert_eq!(alignment_name(9), "inlineup");
    assert_eq!(card_style("header"), style::HEADER);
    assert_eq!(card_style("plain"), style::NORMAL);
    assert_eq!(file_mode_name(file_mode::READ_WRITE), Some("readwrite"));
    assert_eq!(file_mode_name(0x04), None);
    assert_eq!(file_kind_name(file_usage::INPUT_RECORD | file_usage::TEXT_MODE), "command");
    assert_eq!(styled(style::BLOCK_QUOTE), "blockquote");
    assert_eq!(styled(40), "normal");
    assert_eq!(css(0x12AB_CDEF), "#ABCDEF");
    assert_eq!(css(0x0F), "#00000F");
}

#[test]
fn ids_are_minted_once_and_name_their_windows() {
    let mut composer = Composer::new();

    assert_eq!(composer.ident(40), 1);
    assert_eq!(composer.ident(7), 2);
    assert_eq!(composer.ident(40), 1);
    assert_eq!(composer.window_for(2), Some(7));
    assert_eq!(composer.window_for(1), Some(40));
    assert_eq!(composer.window_for(3), None);
}

#[test]
fn line_requests_show_their_prefilled_text() {
    let mut memory = Memory::new(vec![0u8; 256], 256, 0x300);
    memory.write_run(0x100, b"look").unwrap();

    let request = LineRequest::new(Some(MemArray { address: 0x100, count: 8, width: 1 }), 2, false);
    assert_eq!(initial_text(&request, &memory).unwrap(), "lo");

    let hollow = LineRequest::new(None, 3, false);
    assert_eq!(initial_text(&hollow, &memory).unwrap(), "");
}

fn run(style: &str, link: i64, text: &str) -> TextRun {
    TextRun { style: style.to_string(), link, text: text.to_string() }
}

#[test]
fn grid_cells_coalesce_into_named_runs() {
    let line: Vec<char> = "abcde".chars().collect();

    assert_eq!(
        grouped(&line, &[0, 0, 1, 1, 12], &[]),
        vec![run("normal", 0, "ab"), run("emphasized", 0, "cd"), run("normal", 0, "e")]
    );
    // A style past the eleven is dressed normal, and joins a normal run;
    // cells past the end of the styles and links are plain.
    assert_eq!(grouped(&line[..3], &[0, 15], &[3]), vec![run("normal", 3, "a"), run("normal", 0, "bc")]);
    assert_eq!(grouped(&[], &[1], &[1]), vec![]);
}

fn input(kind: &str, gen: Option<i64>, window: Option<i64>, text: &str) -> Input {
    Input {
        kind: kind.to_string(),
        gen,
        names_window: window.is_some(),
        window,
        textual: true,
        text: text.to_string(),
        number: None,
        x: None,
        y: None,
        terminator: None,
        response: None,
    }
}

#[test]
fn answers_reach_the_windows_they_name() {
    let mut composer = Composer::new();
    let shown = composer.ident(40);

    let mut line = input("line", Some(3), Some(shown), "go north");
    line.terminator = Some("escape".to_string());
    assert_eq!(
        accepted(&composer, 3, false, &line),
        Ok(Verdict::Line { window: 40, text: "go north".to_string(), terminator: key_code::ESCAPE })
    );

    let key = input("char", Some(3), Some(shown), "left");
    assert_eq!(
        accepted(&composer, 3, false, &key),
        Ok(Verdict::Char { window: 40, text: "left".to_string(), textual: true })
    );

    let mut click = input("mouse", Some(3), Some(shown), "");
    click.x = Some(4);
    click.y = Some(-1);
    assert_eq!(
        accepted(&composer, 3, false, &click),
        Ok(Verdict::Mouse { window: 40, x: 4, y: 0xFFFF_FFFF })
    );

    let mut link = input("hyperlink", Some(3), Some(shown), "7");
    link.number = Some(7);
    assert_eq!(accepted(&composer, 3, false, &link), Ok(Verdict::Hyperlink { window: 40, value: 7 }));

    assert_eq!(
        accepted(&composer, 3, false, &input("redraw", Some(3), Some(shown), "")),
        Ok(Verdict::Redraw { window: Some(40) })
    );
    assert_eq!(
        accepted(&composer, 3, false, &input("redraw", Some(3), None, "")),
        Ok(Verdict::Redraw { window: None })
    );
    assert_eq!(accepted(&composer, 3, false, &input("timer", Some(3), None, "")), Ok(Verdict::Timer));
    assert_eq!(accepted(&composer, 3, false, &input("sound", Some(3), None, "")), Ok(Verdict::Sound));
    assert_eq!(accepted(&composer, 3, false, &input("arrange", Some(3), None, "")), Ok(Verdict::Arrange));
    assert_eq!(accepted(&composer, 3, false, &input("external", Some(3), None, "")), Ok(Verdict::Nothing));
}

#[test]
fn stale_answers_ask_nothing_but_a_refresh_always_lands() {
    let mut composer = Composer::new();
    let shown = composer.ident(40);

    assert_eq!(
        accepted(&composer, 4, false, &input("line", Some(3), Some(shown), "x")),
        Ok(Verdict::Nothing)
    );
    assert_eq!(accepted(&composer, 4, false, &input("line", None, Some(shown), "x")), Ok(Verdict::Nothing));
    assert_eq!(accepted(&composer, 4, false, &input("refresh", Some(1), None, "")), Ok(Verdict::Refresh));
}

#[test]
fn an_unknown_window_is_refused() {
    let composer = Composer::new();
    let refused = accepted(&composer, 1, false, &input("char", Some(1), Some(99), "a"));

    assert_eq!(refused, Err(VoxamError::UnknownWindow { ident: Some(99) }));
    assert_eq!(refused.unwrap_err().to_string(), "no window is numbered 99");

    let mut unnamed = input("redraw", Some(1), None, "");
    unnamed.names_window = true;
    let refused = accepted(&composer, 1, false, &unnamed);
    assert_eq!(refused, Err(VoxamError::UnknownWindow { ident: None }));
    assert_eq!(refused.unwrap_err().to_string(), "no window is numbered None");
    assert_eq!(VoxamError::UnknownWindow { ident: Some(-3) }.to_string(), "no window is numbered -3");
}

#[test]
fn a_file_answer_lands_only_on_a_waiting_prompt() {
    let composer = Composer::new();
    let mut answer = input("specialresponse", Some(2), None, "save1");
    answer.response = Some("fileref_prompt".to_string());

    assert_eq!(
        accepted(&composer, 2, true, &answer),
        Ok(Verdict::File(Some("save1".to_string())))
    );
    assert_eq!(accepted(&composer, 2, false, &answer), Ok(Verdict::Nothing));

    answer.textual = false;
    assert_eq!(accepted(&composer, 2, true, &answer), Ok(Verdict::File(None)));

    answer.response = Some("other".to_string());
    assert_eq!(accepted(&composer, 2, true, &answer), Ok(Verdict::Nothing));
}

#[test]
fn partial_lines_ride_most_answers() {
    assert!(carries_partial("line"));
    assert!(carries_partial("char"));
    assert!(!carries_partial("init"));
    assert!(!carries_partial("specialresponse"));
    assert!(!carries_partial("refresh"));
    assert!(!carries_partial("debuginput"));
}

#[test]
fn the_serving_loop_passes_over_what_asks_nothing() {
    let event = Event::new(event_type::TIMER, None, 0, 0);

    assert_eq!(after_answer(Accepted::Event(event), false), Action::Deliver(event));
    assert_eq!(
        after_answer(Accepted::File(Some("a".to_string())), false),
        Action::DeliverFile(Some("a".to_string()))
    );
    assert_eq!(after_answer(Accepted::Nothing, true), Action::RunOn);
    assert_eq!(after_answer(Accepted::Nothing, false), Action::Pass);

    assert_eq!(opening_stanza(Some("init")), Ok(()));
    assert_eq!(opening_stanza(Some("line")), Err(VoxamError::NoOpening));
    assert_eq!(opening_stanza(None), Err(VoxamError::NoOpening));
    assert!(VoxamError::NoOpening.to_string().contains("opens with an init event"));
}

#[test]
fn the_opening_shows_the_cover_and_the_card() {
    let card = vec![
        ("header".to_string(), "Cloak".to_string()),
        ("normal".to_string(), "by R. Author".to_string()),
        ("emphasized".to_string(), "A demo".to_string()),
    ];

    assert_eq!(
        opening(None, &card),
        vec![
            Flow::Run { style: style::HEADER, hyperlink: 0, text: "Cloak".to_string() },
            Flow::Run { style: style::NORMAL, hyperlink: 0, text: "by R. Author".to_string() },
            Flow::Run { style: style::EMPHASIZED, hyperlink: 0, text: "A demo".to_string() },
        ]
    );

    let cover = ImageInfo { number: 1, kind: PNG_ID, data: b"Man".to_vec(), width: 20, height: 10 };
    let flows = opening(Some(&cover), &Vec::new());

    assert_eq!(
        flows,
        vec![
            Flow::Placed(Placed {
                image: 1,
                url: "data:image/png;base64,TWFu".to_string(),
                width: 20,
                height: 10,
                alignment: 1,
                hyperlink: 0,
            }),
            Flow::Run { style: style::NORMAL, hyperlink: 0, text: "\n".to_string() },
        ]
    );
    assert!(opening(None, &Vec::new()).is_empty());
}
