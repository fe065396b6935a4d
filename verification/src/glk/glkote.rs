//! The GlkOte protocol's vocabulary, and the window ids it speaks in.
//!
//! A display speaking GlkOte names keys, alignments, styles, file
//! modes, and colors in its own words, and names windows by ids of its
//! own; this module turns Glk's numbers into those words and back,
//! mints the ids, and decides what a char event's value means. It also
//! holds a session's decisions: what a display's answer asks for, what
//! the serving loop does after it, and the opening a story shows.

use vstd::prelude::*;

use crate::error::VoxamError;
use crate::glk::api::{buffer_text, Outcome};
use crate::glk::objects::{
    file_mode, file_usage, key_code, piece_of, style, Event, Flow, LineRequest, Piece, Placed,
};
use crate::glk::resources::{base64, media_type, pictured, ImageInfo};
use crate::memory::Memory;
use crate::text::{chars_of, decimal, push_char, push_decimal, same_text, string_of};

verus! {

/// Glk's full volume, which the wire's own unit gain divides by.
pub const FULL_GAIN: u32 = 0x10000;

/// The highest character a Latin-1 char request can carry (Glk:
/// Character Input).
pub const LATIN_1_TOP: u32 = 0xFF;

/// The function key a number names: F1 to F12.
pub open spec fn function_key(number: nat) -> u32 {
    (key_code::FUNC1 - (number - 1)) as u32
}

/// A terminator keycode as the name the protocol can say: escape, or a
/// function key; Glk's other specials are dropped from the request,
/// which a library may do (Glk: Line Input Events).
pub open spec fn terminator_named(keycode: u32) -> Option<Seq<char>> {
    if keycode == key_code::ESCAPE {
        Some("escape"@)
    } else if key_code::FUNC12 <= keycode <= key_code::FUNC1 {
        Some("func"@ + decimal((key_code::FUNC1 - keycode + 1) as nat))
    } else {
        None
    }
}

/// A terminator keycode as the name the protocol can say.
pub fn terminator_name(keycode: u32) -> (name: Option<String>)
    ensures
        match (name, terminator_named(keycode)) {
            (Some(text), Some(expected)) => text@ == expected,
            (None, None) => true,
            _ => false,
        },
{
    if keycode == key_code::ESCAPE {
        return Some(String::from_str("escape"));
    }
    if key_code::FUNC12 <= keycode && keycode <= key_code::FUNC1 {
        let mut name = String::from_str("func");
        push_decimal(&mut name, (key_code::FUNC1 - keycode + 1) as u64);
        return Some(name);
    }
    None
}

/// Whether characters are all decimal digits.
pub open spec fn all_digits(text: Seq<char>) -> bool {
    forall|i: int| 0 <= i < text.len() ==> '0' <= #[trigger] text[i] <= '9'
}

/// The value of decimal digits.
pub open spec fn digits_value(text: Seq<char>) -> nat
    decreases text.len(),
{
    if text.len() == 0 {
        0
    } else {
        digits_value(text.drop_last()) * 10 + (text.last() as nat - '0' as nat) as nat
    }
}

/// The number a text parses as, the way an unsigned parse reads it: an
/// optional plus sign, then one or more decimal digits.
pub open spec fn parsed(text: Seq<char>) -> Option<nat> {
    let body = if text.len() > 0 && text[0] == '+' {
        text.drop_first()
    } else {
        text
    };
    if body.len() > 0 && all_digits(body) {
        Some(digits_value(body))
    } else {
        None
    }
}

/// The function key a name like "func3" names: "func" and a number
/// from 1 to 12.
pub open spec fn function_named(name: Seq<char>) -> Option<u32> {
    if name.len() >= 4 && name.subrange(0, 4) == "func"@ {
        match parsed(name.skip(4)) {
            Some(number) => if 1 <= number <= 12 {
                Some(function_key(number))
            } else {
                None
            },
            None => None,
        }
    } else {
        None
    }
}

/// The function key a name names, read off its digits; any number past
/// twelve counts as thirteen, since only one to twelve name a key.
fn function_number(name: &str) -> (key: Option<u32>)
    ensures
        key == function_named(name@),
{
    let chars = chars_of(name);
    proof {
        reveal_strlit("func");
    }
    if chars.len() < 4 || chars[0] != 'f' || chars[1] != 'u' || chars[2] != 'n' || chars[3] != 'c' {
        proof {
            if name@.len() >= 4 && name@.subrange(0, 4) == "func"@ {
                assert(name@.subrange(0, 4)[0] == 'f');
                assert(name@.subrange(0, 4)[1] == 'u');
                assert(name@.subrange(0, 4)[2] == 'n');
                assert(name@.subrange(0, 4)[3] == 'c');
            }
        }
        return None;
    }
    proof {
        assert(name@.subrange(0, 4) =~= "func"@);
    }
    let ghost rest = name@.skip(4);
    let mut start: usize = 4;
    if chars.len() > 4 && chars[4] == '+' {
        start = 5;
    }
    let ghost body = if rest.len() > 0 && rest[0] == '+' {
        rest.drop_first()
    } else {
        rest
    };
    proof {
        assert(body =~= chars@.skip(start as int));
    }
    if start >= chars.len() {
        return None;
    }
    let mut value: u32 = 0;
    let mut index = start;
    while index < chars.len()
        invariant
            chars@ == name@,
            name@.len() >= 4 && name@.subrange(0, 4) == "func"@,
            body == (if name@.skip(4).len() > 0 && name@.skip(4)[0] == '+' {
                name@.skip(4).drop_first()
            } else {
                name@.skip(4)
            }),
            start <= index <= chars@.len(),
            body == chars@.skip(start as int),
            all_digits(chars@.subrange(start as int, index as int)),
            value == if digits_value(chars@.subrange(start as int, index as int)) > 13 {
                13
            } else {
                digits_value(chars@.subrange(start as int, index as int))
            },
        decreases chars.len() - index,
    {
        let ch = chars[index];
        if ch < '0' || ch > '9' {
            proof {
                assert(body[index - start] == ch);
                assert(!all_digits(body));
            }
            return None;
        }
        let digit = ch as u32 - 48;
        proof {
            let before = chars@.subrange(start as int, index as int);
            let after = chars@.subrange(start as int, index + 1);
            assert(after.drop_last() =~= before);
            assert(after.last() == ch);
            assert(all_digits(after));
        }
        value = if value * 10 + digit > 13 {
            13
        } else {
            value * 10 + digit
        };
        index += 1;
    }
    proof {
        assert(chars@.subrange(start as int, chars@.len() as int) =~= body);
    }
    if 1 <= value && value <= 12 {
        Some(key_code::FUNC1 - (value - 1))
    } else {
        None
    }
}

/// The keycode a line event's terminator name reads back as; an
/// unnamed ending is an ordinary Return, reported as zero.
pub open spec fn terminator_coded(name: Seq<char>) -> u32 {
    if name == "escape"@ {
        key_code::ESCAPE
    } else {
        match function_named(name) {
            Some(key) => key,
            None => 0,
        }
    }
}

/// The keycode a line event's terminator name reads back as.
pub fn terminator_code(name: &str) -> (code: u32)
    ensures
        code == terminator_coded(name@),
{
    if same_text(name, "escape") {
        return key_code::ESCAPE;
    }
    match function_number(name) {
        Some(key) => key,
        None => 0,
    }
}

/// An image alignment value as the protocol's alignment name; a value
/// the library does not recognize draws inlineup (Glk: Graphics in
/// Text Buffer Windows).
pub open spec fn alignment_named(alignment: u32) -> Seq<char> {
    if alignment == 2 {
        "inlinedown"@
    } else if alignment == 3 {
        "inlinecenter"@
    } else if alignment == 4 {
        "marginleft"@
    } else if alignment == 5 {
        "marginright"@
    } else {
        "inlineup"@
    }
}

/// An image alignment value as the protocol's alignment name.
pub fn alignment_name(alignment: u32) -> (name: &'static str)
    ensures
        name@ == alignment_named(alignment),
{
    if alignment == 2 {
        "inlinedown"
    } else if alignment == 3 {
        "inlinecenter"
    } else if alignment == 4 {
        "marginleft"
    } else if alignment == 5 {
        "marginright"
    } else {
        "inlineup"
    }
}

/// The Glk style a story card's entry is dressed in: a header, an
/// emphasized line, or plain text.
pub open spec fn card_styled(name: Seq<char>) -> u32 {
    if name == "header"@ {
        style::HEADER
    } else if name == "emphasized"@ {
        style::EMPHASIZED
    } else {
        style::NORMAL
    }
}

/// A story card's protocol dress as Glk's own style number.
pub fn card_style(name: &str) -> (number: u32)
    ensures
        number == card_styled(name@),
{
    if same_text(name, "header") {
        style::HEADER
    } else if same_text(name, "emphasized") {
        style::EMPHASIZED
    } else {
        style::NORMAL
    }
}

/// The keycode a char event's key name stands for; a name from some
/// newer display reads as unknown (Glk: Character Input).
pub open spec fn keyed_name(name: Seq<char>) -> u32 {
    if name == "left"@ {
        key_code::LEFT
    } else if name == "right"@ {
        key_code::RIGHT
    } else if name == "up"@ {
        key_code::UP
    } else if name == "down"@ {
        key_code::DOWN
    } else if name == "return"@ {
        key_code::RETURN
    } else if name == "delete"@ {
        key_code::DELETE
    } else if name == "escape"@ {
        key_code::ESCAPE
    } else if name == "tab"@ {
        key_code::TAB
    } else if name == "pageup"@ {
        key_code::PAGE_UP
    } else if name == "pagedown"@ {
        key_code::PAGE_DOWN
    } else if name == "home"@ {
        key_code::HOME
    } else if name == "end"@ {
        key_code::END
    } else {
        match function_named(name) {
            Some(key) => key,
            None => key_code::UNKNOWN,
        }
    }
}

/// A named key of a char event as its Glk keycode.
pub fn key_for(name: &str) -> (code: u32)
    ensures
        code == keyed_name(name@),
{
    if same_text(name, "left") {
        key_code::LEFT
    } else if same_text(name, "right") {
        key_code::RIGHT
    } else if same_text(name, "up") {
        key_code::UP
    } else if same_text(name, "down") {
        key_code::DOWN
    } else if same_text(name, "return") {
        key_code::RETURN
    } else if same_text(name, "delete") {
        key_code::DELETE
    } else if same_text(name, "escape") {
        key_code::ESCAPE
    } else if same_text(name, "tab") {
        key_code::TAB
    } else if same_text(name, "pageup") {
        key_code::PAGE_UP
    } else if same_text(name, "pagedown") {
        key_code::PAGE_DOWN
    } else if same_text(name, "home") {
        key_code::HOME
    } else if same_text(name, "end") {
        key_code::END
    } else {
        match function_number(name) {
            Some(key) => key,
            None => key_code::UNKNOWN,
        }
    }
}

/// The keycode a char event's value lands as: a string of exactly one
/// character is that character -- the unknown key where it lies past
/// Latin-1 and the request cannot carry it -- and anything else is a
/// key's name. The value comes as the text it reads as, and whether it
/// arrived as a string.
pub open spec fn keyed_value(value: Seq<char>, textual: bool, unicode: bool) -> u32 {
    if textual && value.len() == 1 {
        if value[0] as u32 > LATIN_1_TOP && !unicode {
            key_code::UNKNOWN
        } else {
            value[0] as u32
        }
    } else {
        keyed_name(value)
    }
}

/// The keycode a char event's value lands as, for a request that can
/// or cannot carry Unicode.
pub fn key_of(value: &str, textual: bool, unicode: bool) -> (code: u32)
    ensures
        code == keyed_value(value@, textual, unicode),
{
    let chars = chars_of(value);
    if textual && chars.len() == 1 {
        let code = chars[0] as u32;
        if code > LATIN_1_TOP && !unicode {
            return key_code::UNKNOWN;
        }
        return code;
    }
    key_for(value)
}

/// A file mode in the protocol's names; a mode outside the four is
/// refused the way the file streams refuse it.
pub open spec fn file_mode_named(fmode: u32) -> Option<Seq<char>> {
    if fmode == file_mode::READ {
        Some("read"@)
    } else if fmode == file_mode::WRITE {
        Some("write"@)
    } else if fmode == file_mode::READ_WRITE {
        Some("readwrite"@)
    } else if fmode == file_mode::WRITE_APPEND {
        Some("writeappend"@)
    } else {
        None
    }
}

/// A file prompt's mode in the protocol's names.
pub fn file_mode_name(fmode: u32) -> (name: Option<&'static str>)
    ensures
        match (name, file_mode_named(fmode)) {
            (Some(text), Some(expected)) => text@ == expected,
            (None, None) => true,
            _ => false,
        },
{
    if fmode == file_mode::READ {
        Some("read")
    } else if fmode == file_mode::WRITE {
        Some("write")
    } else if fmode == file_mode::READ_WRITE {
        Some("readwrite")
    } else if fmode == file_mode::WRITE_APPEND {
        Some("writeappend")
    } else {
        None
    }
}

/// A file prompt's usage in the protocol's names.
pub open spec fn file_kind_named(usage: u32) -> Seq<char> {
    let kind = usage & file_usage::TYPE_MASK;
    if kind == file_usage::SAVED_GAME {
        "save"@
    } else if kind == file_usage::TRANSCRIPT {
        "transcript"@
    } else if kind == file_usage::INPUT_RECORD {
        "command"@
    } else {
        "data"@
    }
}

/// A file prompt's usage in the protocol's names.
pub fn file_kind_name(usage: u32) -> (name: &'static str)
    ensures
        name@ == file_kind_named(usage),
{
    let kind = usage & file_usage::TYPE_MASK;
    if kind == file_usage::SAVED_GAME {
        "save"
    } else if kind == file_usage::TRANSCRIPT {
        "transcript"
    } else if kind == file_usage::INPUT_RECORD {
        "command"
    } else {
        "data"
    }
}

/// The upper-case hexadecimal digit of a value below sixteen.
pub open spec fn upper_digit(value: int) -> char {
    if value < 10 {
        (('0' as int) + value) as char
    } else {
        (('A' as int) + value - 10) as char
    }
}

/// A color as CSS writes it: '#' and six upper-case hexadecimal digits
/// of its low 24 bits.
pub open spec fn css_color(color: u32) -> Seq<char> {
    let rgb = (color % 0x100_0000) as int;
    seq![
        '#',
        upper_digit((rgb / 0x10_0000) % 16),
        upper_digit((rgb / 0x1_0000) % 16),
        upper_digit((rgb / 0x1000) % 16),
        upper_digit((rgb / 0x100) % 16),
        upper_digit((rgb / 0x10) % 16),
        upper_digit(rgb % 16),
    ]
}

fn upper_digit_of(value: u32) -> (ch: char)
    requires
        value < 16,
    ensures
        ch == upper_digit(value as int),
{
    if value < 10 {
        ((value as u8) + 48) as char
    } else {
        ((value as u8) + 55) as char
    }
}

/// A color as CSS writes it.
pub fn css(color: u32) -> (text: String)
    ensures
        text@ == css_color(color),
{
    let rgb = color % 0x100_0000;
    let mut text = String::new();
    push_char(&mut text, '#');
    push_char(&mut text, upper_digit_of((rgb / 0x10_0000) % 16));
    push_char(&mut text, upper_digit_of((rgb / 0x1_0000) % 16));
    push_char(&mut text, upper_digit_of((rgb / 0x1000) % 16));
    push_char(&mut text, upper_digit_of((rgb / 0x100) % 16));
    push_char(&mut text, upper_digit_of((rgb / 0x10) % 16));
    push_char(&mut text, upper_digit_of(rgb % 16));
    proof {
        assert(text@ =~= css_color(color));
    }
    text
}

/// The protocol's names for Glk's eleven styles (GlkOte: Styles).
pub open spec fn style_names() -> Seq<Seq<char>> {
    seq![
        "normal"@,
        "emphasized"@,
        "preformatted"@,
        "header"@,
        "subheader"@,
        "alert"@,
        "note"@,
        "blockquote"@,
        "input"@,
        "user1"@,
        "user2"@,
    ]
}

/// A Glk style number as its protocol name. A number beyond the
/// eleven renders normal (Glk: Styles).
pub fn styled(number: u32) -> (name: &'static str)
    ensures
        name@ == if number < 11 {
            style_names()[number as int]
        } else {
            "normal"@
        },
{
    if number == style::EMPHASIZED {
        "emphasized"
    } else if number == style::PREFORMATTED {
        "preformatted"
    } else if number == style::HEADER {
        "header"
    } else if number == style::SUBHEADER {
        "subheader"
    } else if number == style::ALERT {
        "alert"
    } else if number == style::NOTE {
        "note"
    } else if number == style::BLOCK_QUOTE {
        "blockquote"
    } else if number == style::INPUT {
        "input"
    } else if number == style::USER1 {
        "user1"
    } else if number == style::USER2 {
        "user2"
    } else {
        "normal"
    }
}

/// The text a line request arrived pre-filled with: the first so-many
/// characters of its buffer.
pub fn initial_text(request: &LineRequest, memory: &Memory) -> (text: Outcome<String>)
    requires
        memory@.wf(),
    ensures
        match (text, buffer_text(memory@, request.buf, request.initlen)) {
            (Ok(held), Ok(expected)) => held@ == expected,
            (Err(stop), Err(expected)) => stop == expected,
            _ => false,
        },
{
    match crate::glk::api::chars_of(memory, request.buf, request.initlen) {
        Ok(chars) => Ok(string_of(chars.as_slice())),
        Err(stop) => Err(stop),
    }
}

/// One run of a grid row: cells sharing a style name and a link, the
/// grouping the painted displays read by.
#[derive(Debug, Clone, PartialEq, Eq)]
pub struct TextRun {
    /// The style's protocol name.
    pub style: String,
    /// The link value, zero for none.
    pub link: i64,
    /// The run's characters.
    pub text: String,
}

/// A style number's protocol name.
pub open spec fn style_name(number: u32) -> Seq<char> {
    if number < 11 {
        style_names()[number as int]
    } else {
        "normal"@
    }
}

/// A cell's style: its own, or normal past the end of the styles.
pub open spec fn cell_style(styles: Seq<u32>, at: int) -> u32 {
    if at < styles.len() {
        styles[at]
    } else {
        style::NORMAL
    }
}

/// A cell's link: its own, or none past the end of the links.
pub open spec fn cell_link(links: Seq<u32>, at: int) -> i64 {
    if at < links.len() {
        links[at] as i64
    } else {
        0
    }
}

/// The first cells of a row coalesced into runs -- name, link, and
/// text -- each cell joining the run before it where both share its
/// style name and link, and starting a run of its own otherwise.
pub open spec fn runs_of(line: Seq<char>, styles: Seq<u32>, links: Seq<u32>, count: nat) -> Seq<
    (Seq<char>, i64, Seq<char>),
>
    decreases count,
{
    if count == 0 {
        Seq::empty()
    } else {
        let before = runs_of(line, styles, links, (count - 1) as nat);
        let at = count - 1;
        let name = style_name(cell_style(styles, at));
        let link = cell_link(links, at);
        if before.len() > 0 && before.last().0 == name && before.last().1 == link {
            before.update(
                before.len() - 1,
                (name, link, before.last().2.push(line[at])),
            )
        } else {
            before.push((name, link, seq![line[at]]))
        }
    }
}

/// A run as its parts.
pub open spec fn run_view(run: TextRun) -> (Seq<char>, i64, Seq<char>) {
    (run.style@, run.link, run.text@)
}

/// One grid row's cells coalesced into named runs: per-cell dress
/// collapsed wherever adjacent cells share it. A style beyond the
/// eleven is dressed normal, and so joins a normal run.
pub fn grouped(line: &[char], styles: &[u32], links: &[u32]) -> (runs: Vec<TextRun>)
    ensures
        runs@.map_values(|run: TextRun| run_view(run)) == runs_of(
            line@,
            styles@,
            links@,
            line@.len(),
        ),
{
    let mut runs: Vec<TextRun> = Vec::new();
    let mut index: usize = 0;
    while index < line.len()
        invariant
            index <= line@.len(),
            runs@.map_values(|run: TextRun| run_view(run)) == runs_of(
                line@,
                styles@,
                links@,
                index as nat,
            ),
        decreases line@.len() - index,
    {
        let ghost before = runs@.map_values(|run: TextRun| run_view(run));
        let number = if index < styles.len() {
            styles[index]
        } else {
            style::NORMAL
        };
        let name = styled(number);
        let link: i64 = if index < links.len() {
            links[index] as i64
        } else {
            0
        };
        let character = line[index];
        let count = runs.len();
        let joins = count > 0 && same_text(runs[count - 1].style.as_str(), name)
            && runs[count - 1].link == link;
        if joins {
            let mut last = runs.pop().unwrap();
            push_char(&mut last.text, character);
            runs.push(last);
            proof {
                assert(runs@.map_values(|run: TextRun| run_view(run)) =~= before.update(
                    before.len() - 1,
                    (name@, link, before.last().2.push(character)),
                ));
            }
        } else {
            let mut text = String::new();
            push_char(&mut text, character);
            runs.push(TextRun { style: String::from_str(name), link, text });
            proof {
                assert(runs@.map_values(|run: TextRun| run_view(run)) =~= before.push(
                    (name@, link, seq![character]),
                ));
            }
        }
        index += 1;
    }
    runs
}

/// The verdict a display's answer hands the serving loop beside its
/// event.
#[derive(Debug, PartialEq, Eq)]
pub enum Accepted {
    /// An event to deliver to the suspended select.
    Event(Event),
    /// A file answer to hand the parked call, which travels up rather
    /// than completing here.
    File(Option<String>),
    /// The answer asked for nothing.
    Nothing,
}

/// Reads a library's windows into the protocol, minting the ids the
/// protocol knows them by.
pub struct Composer {
    idents: Vec<(u32, i64)>,
    next: i64,
}

/// The id a window already has in a list of (window, id) pairs.
pub open spec fn id_of(idents: Seq<(u32, i64)>, window: u32) -> Option<i64>
    decreases idents.len(),
{
    if idents.len() == 0 {
        None
    } else if idents[0].0 == window {
        Some(idents[0].1)
    } else {
        id_of(idents.drop_first(), window)
    }
}

/// The window an id names in a list of (window, id) pairs.
pub open spec fn window_of(idents: Seq<(u32, i64)>, ident: i64) -> Option<u32>
    decreases idents.len(),
{
    if idents.len() == 0 {
        None
    } else if idents[0].1 == ident {
        Some(idents[0].0)
    } else {
        window_of(idents.drop_first(), ident)
    }
}

/// Whether the ids of (window, id) pairs rise strictly.
pub open spec fn increasing(idents: Seq<(u32, i64)>) -> bool {
    forall|i: int, j: int| 0 <= i < j < idents.len() ==> idents[i].1 < idents[j].1
}

/// With ids distinct, the window an id names is the window it was
/// given to.
proof fn ids_invert(idents: Seq<(u32, i64)>, window: u32)
    requires
        increasing(idents),
        id_of(idents, window) is Some,
    ensures
        window_of(idents, id_of(idents, window)->0) == Some(window),
    decreases idents.len(),
{
    if idents[0].0 != window {
        let rest = idents.drop_first();
        assert(increasing(rest)) by {
            assert forall|i: int, j: int| 0 <= i < j < rest.len() implies rest[i].1 < rest[j].1 by {
                assert(rest[i] == idents[i + 1] && rest[j] == idents[j + 1]);
            }
        }
        ids_invert(rest, window);
        let ident = id_of(idents, window)->0;
        assert(idents[0].1 != ident) by {
            if idents[0].1 == ident {
                id_in(rest, window);
                let k = choose|k: int| 0 <= k < rest.len() && rest[k].1 == ident;
                assert(idents[k + 1].1 == ident);
            }
        }
    }
}

/// The id a window has is one of the ids listed.
proof fn id_in(idents: Seq<(u32, i64)>, window: u32)
    requires
        id_of(idents, window) is Some,
    ensures
        exists|k: int| 0 <= k < idents.len() && idents[k].1 == id_of(idents, window)->0,
    decreases idents.len(),
{
    if idents[0].0 != window {
        id_in(idents.drop_first(), window);
        let k = choose|k: int|
            0 <= k < idents.drop_first().len() && idents.drop_first()[k].1 == id_of(
                idents,
                window,
            )->0;
        assert(idents[k + 1].1 == id_of(idents, window)->0);
    } else {
        assert(idents[0].1 == id_of(idents, window)->0);
    }
}

impl Composer {
    /// The (window, id) pairs minted so far, oldest first.
    pub closed spec fn pairs(&self) -> Seq<(u32, i64)> {
        self.idents@
    }

    /// The next id to mint.
    pub closed spec fn upcoming(&self) -> i64 {
        self.next
    }

    /// Every id minted is below the next, and ids are positive.
    pub closed spec fn wf(&self) -> bool {
        &&& self.next >= 1
        &&& forall|i: int| 0 <= i < self.idents@.len() ==> 1 <= #[trigger] self.idents@[i].1
            < self.next
        &&& increasing(self.idents@)
    }

    /// An id a window was given keeps naming that window.
    pub proof fn ids_name_their_windows(&self, window: u32)
        requires
            self.wf(),
            id_of(self.pairs(), window) is Some,
        ensures
            window_of(self.pairs(), id_of(self.pairs(), window)->0) == Some(window),
    {
        ids_invert(self.idents@, window);
    }

    /// Open with no windows known and the first id unminted.
    pub fn new() -> (composer: Self)
        ensures
            composer.wf(),
            composer.pairs() == Seq::<(u32, i64)>::empty(),
            composer.upcoming() == 1,
    {
        Composer { idents: Vec::new(), next: 1 }
    }

    /// The window's protocol id, minted on first sight.
    pub fn ident(&mut self, window: u32) -> (ident: i64)
        requires
            old(self).wf(),
            old(self).upcoming() < i64::MAX,
        ensures
            final(self).wf(),
            match id_of(old(self).pairs(), window) {
                Some(known) => ident == known && final(self).pairs() == old(self).pairs()
                    && final(self).upcoming() == old(self).upcoming(),
                None => ident == old(self).upcoming() && final(self).pairs() == old(
                    self,
                ).pairs().push((window, ident)) && final(self).upcoming() == ident + 1,
            },
    {
        let mut index: usize = 0;
        proof {
            assert(self.idents@.skip(0) =~= self.idents@);
        }
        while index < self.idents.len()
            invariant
                self.wf(),
                self.idents@ == old(self).idents@,
                self.next == old(self).next,
                index <= self.idents@.len(),
                id_of(self.idents@, window) == id_of(self.idents@.skip(index as int), window),
            decreases self.idents.len() - index,
        {
            proof {
                assert(self.idents@.skip(index as int).drop_first() =~= self.idents@.skip(
                    index + 1,
                ));
            }
            if self.idents[index].0 == window {
                return self.idents[index].1;
            }
            index += 1;
        }
        let minted = self.next;
        self.next = self.next + 1;
        self.idents.push((window, minted));
        minted
    }

    /// The window an id names, while it lives; None after.
    pub fn window_for(&self, ident: i64) -> (window: Option<u32>)
        ensures
            window == window_of(self.pairs(), ident),
    {
        let mut index: usize = 0;
        proof {
            assert(self.idents@.skip(0) =~= self.idents@);
        }
        while index < self.idents.len()
            invariant
                index <= self.idents@.len(),
                window_of(self.idents@, ident) == window_of(self.idents@.skip(index as int), ident),
            decreases self.idents.len() - index,
        {
            proof {
                assert(self.idents@.skip(index as int).drop_first() =~= self.idents@.skip(
                    index + 1,
                ));
            }
            if self.idents[index].1 == ident {
                return Some(self.idents[index].0);
            }
            index += 1;
        }
        None
    }
}

/// How many pieces the cover takes at the head of the opening: the
/// picture and the line break after it, or none.
pub open spec fn cover_length(cover: Option<&ImageInfo>) -> int {
    if cover is Some {
        2
    } else {
        0
    }
}

/// The opening a story shows before its own first words: the cover
/// picture set flush left, as the data: url the display draws, and a
/// line break after it, when a cover is offered; then the story card's
/// entries, each a run in its own style (Blorb: Frontispiece Chunk;
/// Babel: The iFiction format).
pub fn opening(cover: Option<&ImageInfo>, card: &Vec<(String, String)>) -> (flows: Vec<Flow>)
    ensures
        flows@.len() == cover_length(cover) + card@.len(),
        cover matches Some(image) ==> (flows@[0] matches Flow::Placed(placed) && placed.image
            == image.number && placed.url@ == "data:"@ + media_type(image.kind) + ";base64,"@
            + base64(image.data@) && placed.width == image.width && placed.height
            == image.height && placed.alignment == 1 && placed.hyperlink == 0),
        cover is Some ==> piece_of(flows@[1]) == (Piece::Run {
            style: style::NORMAL,
            hyperlink: 0,
            text: "\n"@,
        }),
        forall|i: int|
            0 <= i < card@.len() ==> piece_of(#[trigger] flows@[cover_length(cover) + i]) == (
            Piece::Run { style: card_styled(card@[i].0@), hyperlink: 0, text: card@[i].1@ }),
{
    let mut flows: Vec<Flow> = Vec::new();
    if let Some(image) = cover {
        let url = pictured(image);
        flows.push(
            Flow::Placed(
                Placed {
                    image: image.number,
                    url,
                    width: image.width,
                    height: image.height,
                    alignment: 1,
                    hyperlink: 0,
                },
            ),
        );
        flows.push(Flow::Run { style: style::NORMAL, hyperlink: 0, text: String::from_str("\n") });
    }
    let ghost head = flows@;
    let skip = flows.len();
    let mut at: usize = 0;
    while at < card.len()
        invariant
            at <= card@.len(),
            skip == cover_length(cover),
            flows@.len() == skip + at,
            forall|i: int| 0 <= i < skip ==> flows@[i] == head[i],
            forall|i: int|
                0 <= i < at ==> piece_of(#[trigger] flows@[skip + i]) == (Piece::Run {
                    style: card_styled(card@[i].0@),
                    hyperlink: 0,
                    text: card@[i].1@,
                }),
        decreases card@.len() - at,
    {
        let style = card_style(card[at].0.as_str());
        let text = card[at].1.clone();
        flows.push(Flow::Run { style, hyperlink: 0, text });
        proof {
            assert(piece_of(flows@[skip + at as int]) == (Piece::Run {
                style: card_styled(card@[at as int].0@),
                hyperlink: 0,
                text: card@[at as int].1@,
            }));
        }
        at += 1;
    }
    proof {
        if cover is Some {
            assert(flows@[0] == head[0]);
            assert(flows@[1] == head[1]);
        }
    }
    flows
}

/// A display's answer, as the plain values the face reads of its
/// stanza.
#[derive(Debug, Clone, PartialEq, Eq)]
pub struct Input {
    /// The stanza's type; empty where it names none.
    pub kind: String,
    /// The generation it answers, where it carries an integer one.
    pub gen: Option<i64>,
    /// Whether it names a window at all.
    pub names_window: bool,
    /// The window id it names, where that is an integer.
    pub window: Option<i64>,
    /// Whether its value is a string.
    pub textual: bool,
    /// Its value as text: a string as it stands, an integer in decimal,
    /// a boolean as True or False, anything else empty.
    pub text: String,
    /// Its value, where that is an integer.
    pub number: Option<i64>,
    /// The mouse column, where it is an integer.
    pub x: Option<i64>,
    /// The mouse row, where it is an integer.
    pub y: Option<i64>,
    /// The key name that ended a line, where it names one.
    pub terminator: Option<String>,
    /// The special input a response answers, where it names one.
    pub response: Option<String>,
}

/// What a display's answer asks of the session.
#[derive(Debug, Clone, PartialEq, Eq)]
pub enum Verdict {
    /// The display lost its picture: every canvas hears a redraw, and
    /// the next update owes the whole picture (GlkOte: the refresh
    /// input event).
    Refresh,
    /// The answer asks for nothing here: a stale generation, or a
    /// kind this face does not carry.
    Nothing,
    /// A finished line for a window's line request, and the keycode
    /// that ended it.
    Line { window: u32, text: String, terminator: u32 },
    /// A key for a window's char request, as the value the display
    /// sent; whether it lands as itself depends on the request
    /// carrying Unicode.
    Char { window: u32, text: String, textual: bool },
    /// A click in a window.
    Mouse { window: u32, x: u32, y: u32 },
    /// A followed link in a window.
    Hyperlink { window: u32, value: u32 },
    /// The timer fired.
    Timer,
    /// A sound finished.
    Sound,
    /// A canvas to redraw, or every canvas.
    Redraw { window: Option<u32> },
    /// The display's size changed.
    Arrange,
    /// A file prompt's answer: the name, or a cancel.
    File(Option<String>),
}

/// Whether an answer of a kind carries the player's half-typed lines:
/// every kind but the opening, a special response, a refresh, and
/// debug input does.
pub open spec fn partial_carried(kind: Seq<char>) -> bool {
    !(kind == "init"@ || kind == "specialresponse"@ || kind == "refresh"@ || kind
        == "debuginput"@)
}

/// Whether an answer of a kind carries the player's half-typed lines.
pub fn carries_partial(kind: &str) -> (carried: bool)
    ensures
        carried == partial_carried(kind@),
{
    !(same_text(kind, "init") || same_text(kind, "specialresponse") || same_text(kind, "refresh")
        || same_text(kind, "debuginput"))
}

/// The window an answer's id names, or the fault for an id this
/// session never showed or none the protocol can read.
pub open spec fn named_window(idents: Seq<(u32, i64)>, ident: Option<i64>) -> Result<
    u32,
    VoxamError,
> {
    match ident {
        Some(held) => match window_of(idents, held) {
            Some(window) => Ok(window),
            None => Err(VoxamError::UnknownWindow { ident }),
        },
        None => Err(VoxamError::UnknownWindow { ident }),
    }
}

/// An integer field as a Glk word, an absent one as zero.
pub open spec fn word_of(value: Option<i64>) -> u32 {
    match value {
        Some(held) => held as u32,
        None => 0,
    }
}

/// What an answer asks of a session that shows windows by `idents`,
/// is at generation `generation`, and is or is not waiting on a file
/// prompt.
///
/// A refresh comes ahead of the generation gate, since a refreshing
/// display is out of sync by definition; any other answer to an older
/// generation asks for nothing (GlkOte: The Generation Number). A
/// window the answer names must be one the session showed. A special
/// response answers a file prompt only while one waits, and a value
/// that is not a string reads as a cancel (GlkOte: Special Input
/// Requests).
pub open spec fn verdict_of(
    idents: Seq<(u32, i64)>,
    generation: i64,
    prompting: bool,
    input: Input,
) -> Result<Verdict, VoxamError> {
    let kind = input.kind@;
    if kind == "refresh"@ {
        Ok(Verdict::Refresh)
    } else if input.gen != Some(generation) {
        Ok(Verdict::Nothing)
    } else if kind == "line"@ {
        match named_window(idents, input.window) {
            Ok(window) => Ok(
                Verdict::Line {
                    window,
                    text: input.text,
                    terminator: match input.terminator {
                        Some(name) => terminator_coded(name@),
                        None => 0,
                    },
                },
            ),
            Err(fault) => Err(fault),
        }
    } else if kind == "char"@ {
        match named_window(idents, input.window) {
            Ok(window) => Ok(Verdict::Char { window, text: input.text, textual: input.textual }),
            Err(fault) => Err(fault),
        }
    } else if kind == "mouse"@ {
        match named_window(idents, input.window) {
            Ok(window) => Ok(
                Verdict::Mouse { window, x: word_of(input.x), y: word_of(input.y) },
            ),
            Err(fault) => Err(fault),
        }
    } else if kind == "hyperlink"@ {
        match named_window(idents, input.window) {
            Ok(window) => Ok(Verdict::Hyperlink { window, value: word_of(input.number) }),
            Err(fault) => Err(fault),
        }
    } else if kind == "timer"@ {
        Ok(Verdict::Timer)
    } else if kind == "sound"@ {
        Ok(Verdict::Sound)
    } else if kind == "redraw"@ {
        if input.names_window {
            match named_window(idents, input.window) {
                Ok(window) => Ok(Verdict::Redraw { window: Some(window) }),
                Err(fault) => Err(fault),
            }
        } else {
            Ok(Verdict::Redraw { window: None })
        }
    } else if kind == "arrange"@ {
        Ok(Verdict::Arrange)
    } else if kind == "specialresponse"@ {
        if input.response.is_some() && input.response.unwrap()@ == "fileref_prompt"@ && prompting {
            Ok(
                Verdict::File(
                    if input.textual {
                        Some(input.text)
                    } else {
                        None
                    },
                ),
            )
        } else {
            Ok(Verdict::Nothing)
        }
    } else {
        Ok(Verdict::Nothing)
    }
}

/// The window an answer's id names.
fn window_named(composer: &Composer, ident: Option<i64>) -> (window: Result<u32, VoxamError>)
    ensures
        window == named_window(composer.pairs(), ident),
{
    match ident {
        Some(held) => match composer.window_for(held) {
            Some(window) => Ok(window),
            None => Err(VoxamError::UnknownWindow { ident }),
        },
        None => Err(VoxamError::UnknownWindow { ident }),
    }
}

/// An integer field as a Glk word, an absent one as zero.
fn word(value: Option<i64>) -> (held: u32)
    ensures
        held == word_of(value),
{
    match value {
        Some(number) => number as u32,
        None => 0,
    }
}

/// Take a display's answer: what it asks of a session whose windows
/// the composer names, at a generation, waiting or not on a file
/// prompt. Fails for a window this session never showed.
pub fn accepted(composer: &Composer, generation: i64, prompting: bool, input: &Input) -> (verdict:
    Result<Verdict, VoxamError>)
    ensures
        verdict == verdict_of(composer.pairs(), generation, prompting, *input),
{
    let kind = input.kind.as_str();
    if same_text(kind, "refresh") {
        return Ok(Verdict::Refresh);
    }
    let current = match input.gen {
        Some(held) => held == generation,
        None => false,
    };
    if !current {
        return Ok(Verdict::Nothing);
    }
    if same_text(kind, "line") {
        let terminator = match &input.terminator {
            Some(name) => terminator_code(name.as_str()),
            None => 0,
        };
        match window_named(composer, input.window) {
            Ok(window) => Ok(Verdict::Line { window, text: input.text.clone(), terminator }),
            Err(fault) => Err(fault),
        }
    } else if same_text(kind, "char") {
        match window_named(composer, input.window) {
            Ok(window) => Ok(
                Verdict::Char { window, text: input.text.clone(), textual: input.textual },
            ),
            Err(fault) => Err(fault),
        }
    } else if same_text(kind, "mouse") {
        match window_named(composer, input.window) {
            Ok(window) => Ok(Verdict::Mouse { window, x: word(input.x), y: word(input.y) }),
            Err(fault) => Err(fault),
        }
    } else if same_text(kind, "hyperlink") {
        match window_named(composer, input.window) {
            Ok(window) => Ok(Verdict::Hyperlink { window, value: word(input.number) }),
            Err(fault) => Err(fault),
        }
    } else if same_text(kind, "timer") {
        Ok(Verdict::Timer)
    } else if same_text(kind, "sound") {
        Ok(Verdict::Sound)
    } else if same_text(kind, "redraw") {
        if input.names_window {
            match window_named(composer, input.window) {
                Ok(window) => Ok(Verdict::Redraw { window: Some(window) }),
                Err(fault) => Err(fault),
            }
        } else {
            Ok(Verdict::Redraw { window: None })
        }
    } else if same_text(kind, "arrange") {
        Ok(Verdict::Arrange)
    } else if same_text(kind, "specialresponse") {
        let asked = match &input.response {
            Some(name) => same_text(name.as_str(), "fileref_prompt"),
            None => false,
        };
        if asked && prompting {
            if input.textual {
                Ok(Verdict::File(Some(input.text.clone())))
            } else {
                Ok(Verdict::File(None))
            }
        } else {
            Ok(Verdict::Nothing)
        }
    } else {
        Ok(Verdict::Nothing)
    }
}

/// What the serving loop does after a display's answer was taken.
#[derive(Debug, Clone, PartialEq, Eq)]
pub enum Action {
    /// Hand the event to the suspended select, then run the machine on.
    Deliver(Event),
    /// Hand the file answer to the parked call, then run the machine on.
    DeliverFile(Option<String>),
    /// Run the machine on: its wait has cleared.
    RunOn,
    /// Answer the display with a pass, and read its next answer.
    Pass,
}

/// The serving loop's step after an answer: an event or a file answer
/// is handed on, and an answer that asked for nothing runs the machine
/// on only where its wait has cleared, and is passed over otherwise.
pub open spec fn answer_action(accepted: Accepted, waiting_cleared: bool) -> Action {
    match accepted {
        Accepted::Event(event) => Action::Deliver(event),
        Accepted::File(name) => Action::DeliverFile(name),
        Accepted::Nothing => if waiting_cleared {
            Action::RunOn
        } else {
            Action::Pass
        },
    }
}

/// Decide the serving loop's step after an answer was taken.
pub fn after_answer(accepted: Accepted, waiting_cleared: bool) -> (action: Action)
    ensures
        action == answer_action(accepted, waiting_cleared),
{
    match accepted {
        Accepted::Event(event) => Action::Deliver(event),
        Accepted::File(name) => Action::DeliverFile(name),
        Accepted::Nothing => if waiting_cleared {
            Action::RunOn
        } else {
            Action::Pass
        },
    }
}

/// Check a conversation's first stanza: it must be the display's init
/// event, given here by its type where it names one (GlkOte: The
/// Application's Life Story).
pub fn opening_stanza(kind: Option<&str>) -> (checked: Result<(), VoxamError>)
    ensures
        checked is Ok <==> (kind matches Some(named) && named@ == "init"@),
        checked is Err ==> checked == Err::<(), VoxamError>(VoxamError::NoOpening),
{
    match kind {
        Some(named) => if same_text(named, "init") {
            Ok(())
        } else {
            Err(VoxamError::NoOpening)
        },
        None => Err(VoxamError::NoOpening),
    }
}

} // verus!
