//! The function surface's pure work: slots, walks, buffers, case
//! mapping, normalization, the calendar, and the gestalt answers.

use voxam_core::glk::api::{
    break_out, chars_of, civil_from_days, date_to_simple, days_from_civil, file_name_for, fill_array,
    fill_event,
    gestalt_answer, gestalt_ext, glk_buffer_canon_decompose_uni, glk_buffer_canon_normalize_uni,
    glk_buffer_to_lower_case_uni, glk_buffer_to_title_case_uni, glk_buffer_to_upper_case_uni,
    glk_char_to_lower, glk_char_to_upper, is_printable, iterate, make_window_kind,
    pollable, split_seconds, store_chars, suffix_for, title_char, to_seconds, Abilities, Held,
    RefSlot, Stop, StructSlot, GLK_VERSION, fresh_temp_name, temp_name, time_to_date, date_to_time,
    simple_to_date,
};
use voxam_core::glk::objects::{event_type, file_usage, window_type, Event, MemArray};
use voxam_core::memory::Memory;

fn ram() -> Memory {
    Memory::new(vec![0u8; 256], 256, 0x300)
}

fn words_at(address: u32, count: u32) -> MemArray {
    MemArray { address, count, width: 4 }
}

fn load(memory: &mut Memory, array: MemArray, text: &str) {
    for (index, ch) in text.chars().enumerate() {
        array.set(memory, index as u32, ch as u32).unwrap();
    }
}

fn text_of(memory: &Memory, array: MemArray, count: u32) -> String {
    chars_of(memory, Some(array), count).unwrap().into_iter().collect()
}

#[test]
fn files_wear_the_suffix_of_their_use() {
    assert_eq!(suffix_for(file_usage::SAVED_GAME), ".glksave");
    assert_eq!(suffix_for(file_usage::TRANSCRIPT | file_usage::TEXT_MODE), ".txt");
    assert_eq!(suffix_for(file_usage::INPUT_RECORD), ".txt");
    assert_eq!(suffix_for(file_usage::DATA), ".glkdata");
}

#[test]
fn slots_hold_words_and_objects() {
    assert_eq!(Held::default(), Held::Word(0));
    assert_eq!(Held::Word(0xFFFF_FFFF).signed(), -1);
    assert_eq!(Held::Obj(0, Some(3)).word(), 0);

    let mut slot = StructSlot::new(3);
    assert_eq!(slot.0, vec![Held::Word(0); 3]);

    fill_event(&mut slot, Event::new(event_type::CHAR_INPUT, Some(2), 0x61, 0));
    assert_eq!(
        slot.0,
        vec![Held::Word(2), Held::Obj(0, Some(2)), Held::Word(0x61), Held::Word(0)]
    );
}

#[test]
fn walks_start_at_the_first_and_end_after_the_last() {
    let order = [5, 3, 9];
    let rocks = |key: u32| key * 10;
    let mut rock = Some(RefSlot::default());

    assert_eq!(iterate(&order, rocks, None, &mut rock), Some(5));
    assert_eq!(rock, Some(RefSlot(Held::Word(50))));
    assert_eq!(iterate(&order, rocks, Some(5), &mut rock), Some(3));
    assert_eq!(iterate(&order, rocks, Some(9), &mut rock), None);
    assert_eq!(rock, Some(RefSlot(Held::Word(0))));
    assert_eq!(iterate(&order, rocks, Some(7), &mut None), None);
}

#[test]
fn printable_means_latin1_and_newline() {
    assert!(is_printable(0x0A));
    assert!(is_printable(0x41));
    assert!(!is_printable(0x7F));
    assert!(is_printable(0xE9));
    assert!(!is_printable(0x100));
    assert!(pollable(event_type::TIMER));
    assert!(!pollable(event_type::LINE_INPUT));
}

#[test]
fn pair_windows_are_not_opened_by_type() {
    assert!(matches!(make_window_kind(window_type::PAIR, true), Err(Stop::Fault(_))));
    assert!(make_window_kind(window_type::GRAPHICS, false).unwrap().is_none());
    assert!(make_window_kind(window_type::TEXT_BUFFER, false).unwrap().is_some());
    assert!(make_window_kind(99, true).unwrap().is_none());
}

#[test]
fn buffers_fill_as_far_as_they_reach() {
    let mut memory = ram();
    let array = words_at(0x100, 2);

    assert_eq!(fill_array(&mut memory, Some(array), &[7, 8, 9]).unwrap(), 2);
    assert_eq!(memory.read_word(0x100).unwrap(), 7);
    assert_eq!(memory.read_word(0x104).unwrap(), 8);
    assert_eq!(memory.read_word(0x108).unwrap(), 0);
    assert_eq!(fill_array(&mut memory, None, &[1]).unwrap(), 0);

    assert_eq!(store_chars(&mut memory, Some(array), "xyz").unwrap(), 3);
    assert_eq!(text_of(&memory, array, 2), "xy");

    let rom = words_at(0x10, 1);
    assert!(fill_array(&mut memory, Some(rom), &[1]).is_err());
}

#[test]
fn case_maps_one_character_at_a_time() {
    assert_eq!(glk_char_to_lower(0x41), 0x61);
    assert_eq!(glk_char_to_upper(0xE9), 0xC9);
    assert_eq!(glk_char_to_upper(0xDF), 0xDF);
    assert_eq!(glk_char_to_lower(0xD800), 0xD800);

    assert_eq!(title_char('\u{01C6}'), "\u{01C5}");
    assert_eq!(title_char('\u{FB04}'), "Ffl");
    assert_eq!(title_char('a'), "A");
}

#[test]
fn buffers_change_case_in_place() {
    let mut memory = ram();
    let array = words_at(0x100, 8);

    load(&mut memory, array, "straße");
    assert_eq!(glk_buffer_to_upper_case_uni(&mut memory, Some(array), 6).unwrap(), 7);
    assert_eq!(text_of(&memory, array, 7), "STRASSE");

    assert_eq!(glk_buffer_to_lower_case_uni(&mut memory, Some(array), 7).unwrap(), 7);
    assert_eq!(text_of(&memory, array, 7), "strasse");

    load(&mut memory, array, "hELLO");
    assert_eq!(glk_buffer_to_title_case_uni(&mut memory, Some(array), 5, 1).unwrap(), 5);
    assert_eq!(text_of(&memory, array, 5), "Hello");

    load(&mut memory, array, "hELLO");
    assert_eq!(glk_buffer_to_title_case_uni(&mut memory, Some(array), 5, 0).unwrap(), 5);
    assert_eq!(text_of(&memory, array, 5), "HELLO");
}

#[test]
fn normalization_decomposes_and_recomposes() {
    let mut memory = ram();
    let array = words_at(0x100, 4);

    load(&mut memory, array, "é");
    assert_eq!(glk_buffer_canon_decompose_uni(&mut memory, Some(array), 1).unwrap(), 2);
    assert_eq!(text_of(&memory, array, 2), "e\u{0301}");

    assert_eq!(glk_buffer_canon_normalize_uni(&mut memory, Some(array), 2).unwrap(), 1);
    assert_eq!(text_of(&memory, array, 1), "é");
}

#[test]
fn seconds_split_into_signed_words() {
    assert_eq!(split_seconds(-1), (0xFFFF_FFFF, 0xFFFF_FFFF));
    assert_eq!(split_seconds(0x1_0000_0005), (1, 5));
    assert_eq!(split_seconds(-0x1_0000_0000), (0xFFFF_FFFF, 0));
}

#[test]
fn day_counts_and_dates_round_trip() {
    assert_eq!(civil_from_days(0), (1970, 1, 1));
    assert_eq!(civil_from_days(-1), (1969, 12, 31));
    assert_eq!(civil_from_days(11016), (2000, 2, 29));
    assert_eq!(days_from_civil(2000, 3, 1), 11017);

    for z in [-719_468, -1, 0, 59, 11016, 2_932_896] {
        let (year, month, day) = civil_from_days(z);
        assert_eq!(days_from_civil(year, month, day), z);
    }
}

#[test]
fn timestamps_break_out_into_dates() {
    assert_eq!(break_out(0, 7, true, 0), [1970, 1, 1, 4, 0, 0, 0, 7]);
    assert_eq!(break_out(3600, 0, false, -7200), [1969, 12, 31, 3, 23, 0, 0, 0]);
    assert_eq!(break_out(i64::MAX, 0, true, 0), [0; 8]);
}

#[test]
fn dates_collapse_into_timestamps() {
    let mut date = StructSlot::new(8);
    let fields = [1970, 1, 1, 0, 0, 0, 1, 0u32];
    date.0 = fields.iter().map(|value| Held::Word(*value)).collect();

    assert_eq!(to_seconds(&date, true, 0), Some(1));
    assert_eq!(to_seconds(&date, false, 3600), Some(-3599));
    assert_eq!(date_to_simple(Some(&date), 10, false, 3600), -360);
    assert_eq!(date_to_simple(Some(&date), 0, true, 0), -1);

    // A month of 13 is January of the next year; a day of 0 is the
    // last of the month before.
    let rolled = [1969, 13, 0, 0, 0, 0, 0, 0u32];
    date.0 = rolled.iter().map(|value| Held::Word(*value)).collect();
    assert_eq!(to_seconds(&date, true, 0), Some(-86_400));

    let short = StructSlot::new(3);
    assert_eq!(to_seconds(&short, true, 0), None);
}

#[test]
fn the_gestalt_answers_follow_the_display() {
    let nothing = Abilities::default();
    let canvas = Abilities { graphics: true, ..Abilities::default() };

    assert_eq!(gestalt_answer(0, 0, &nothing), GLK_VERSION);
    assert_eq!(gestalt_answer(1, 0xFFFF_FFFE, &nothing), 1);
    assert_eq!(gestalt_answer(1, 0xFFFF_FFFF, &nothing), 0);
    assert_eq!(gestalt_answer(2, 0x0A, &nothing), 0);
    assert_eq!(gestalt_answer(6, 0, &nothing), 0);
    assert_eq!(gestalt_answer(6, 0, &canvas), 1);
    assert_eq!(gestalt_answer(7, window_type::GRAPHICS, &canvas), 1);
    assert_eq!(gestalt_answer(7, window_type::TEXT_BUFFER, &canvas), 0);
    assert_eq!(gestalt_answer(11, 0, &nothing), 1);
    assert_eq!(gestalt_answer(13, 0, &canvas), 0);
    assert_eq!(gestalt_answer(99, 0, &canvas), 0);

    let mut memory = ram();
    let array = words_at(0x100, 1);
    assert_eq!(gestalt_ext(&mut memory, 3, 0x41, Some(array), &nothing).unwrap(), 2);
    assert_eq!(memory.read_word(0x100).unwrap(), 1);
}

#[test]
fn temporary_names_spell_their_noise() {
    assert_eq!(temp_name(&[0x00, 0xAB, 0x7F]), "voxam-glk-00ab7f");

    let fresh = fresh_temp_name().expect("the system has noise to give");
    assert!(fresh.starts_with("voxam-glk-"));
    assert_eq!(fresh.len(), 26);
}

fn words(values: &[u32]) -> StructSlot {
    StructSlot(values.iter().map(|value| Held::Word(*value)).collect())
}

#[test]
fn timevals_and_dates_convert_both_ways() {
    let mut date = StructSlot::new(8);

    time_to_date(Some(&words(&[0, 86_400 * 365, 5])), &mut date, true, 0);
    assert_eq!(date, words(&[1971, 1, 1, 5, 0, 0, 0, 5]));

    time_to_date(Some(&words(&[0xFFFF_FFFF, 0xFFFF_FFFF, 0])), &mut date, true, 0);
    assert_eq!(date, words(&[1969, 12, 31, 3, 23, 59, 59, 0]));

    time_to_date(None, &mut date, true, 0);
    assert_eq!(date, words(&[0; 8]));

    simple_to_date(1, 86_400, &mut date, true, 0);
    assert_eq!(date, words(&[1970, 1, 2, 5, 0, 0, 0, 0]));

    let mut time = StructSlot::new(3);

    date_to_time(Some(&words(&[1970, 1, 1, 0, 0, 0, 1, 250])), &mut time, true, 0);
    assert_eq!(time, words(&[0, 1, 250]));

    date_to_time(Some(&words(&[0, 1, 1, 0, 0, 0, 0, 0])), &mut time, true, 0);
    assert_eq!(time, words(&[0xFFFF_FFFF, 0xFFFF_FFFF, 0]));

    date_to_time(None, &mut time, true, 0);
    assert_eq!(time, words(&[0xFFFF_FFFF, 0xFFFF_FFFF, 0]));
}

#[test]
fn game_names_become_safe_file_names() {
    assert_eq!(file_name_for("sa<ve>:1.dat\"", file_usage::SAVED_GAME), "save1.glksave");
    assert_eq!(file_name_for("notes", file_usage::TRANSCRIPT), "notes.txt");
    assert_eq!(file_name_for("//", file_usage::DATA), "null.glkdata");
    assert_eq!(file_name_for(".hidden", file_usage::INPUT_RECORD), "null.txt");
    assert_eq!(file_name_for("a*b?c|d", file_usage::DATA), "abcd.glkdata");
}

#[test]
fn a_date_turns_back_into_its_time() {
    for seconds in [0u32, 1, 86_399, 951_782_400, 0x7FFF_FFFF, 0x8000_0000, 0xFFFF_FFFF] {
        let mut date = StructSlot::new(8);
        time_to_date(Some(&words(&[0, seconds, 123_456])), &mut date, true, 0);

        let mut time = StructSlot::new(3);
        date_to_time(Some(&date), &mut time, true, 0);

        assert_eq!(time, words(&[0, seconds, 123_456]), "{seconds}");
    }

    let mut date = StructSlot::new(8);
    time_to_date(Some(&words(&[0xFFFF_FFFF, 0xFFFF_FF00, 0])), &mut date, true, 3_600);
    let mut time = StructSlot::new(3);
    date_to_time(Some(&date), &mut time, true, 3_600);
    assert_eq!(time, words(&[0xFFFF_FFFF, 0xFFFF_FF00, 0]));

    let mut local = StructSlot::new(8);
    time_to_date(Some(&words(&[0, 1_000_000, 7])), &mut local, false, -18_000);
    date_to_time(Some(&local), &mut time, false, -18_000);
    assert_eq!(time, words(&[0, 1_000_000, 7]));
}
