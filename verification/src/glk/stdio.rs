//! A stdio display, in the manner of cheapglk: what it shows and what
//! it makes of the lines it reads.
//!
//! Text buffer windows stream as their contents accumulate; text grid
//! windows are drawn as a block whenever they change, which is what an
//! Inform status line amounts to on a terminal that cannot address the
//! cursor. Input is a line off the input source. The display's reading
//! and writing are its host's; every decision about them is here.

use vstd::prelude::*;

use crate::glk::frontend::Asked;
use crate::glk::objects::{file_mode, key_code, Box4};
use crate::text::{push_char, same_text};

verus! {

/// The display size a stdio session assumes unless told otherwise.
pub const DEFAULT_SIZE: (i64, i64) = (80, 24);

/// The status-line divider never grows past a sensible width, even on
/// a very wide terminal.
pub const DIVIDER_LIMIT: i64 = 60;

/// A recorded key token's character as the Glk keycode it means: the
/// Z-Machine's cursor codes and its escape (Glk: Character Input), so
/// one recorded arrow presses the same key on either machine.
pub fn token_keycode(character: char) -> (code: Option<u32>)
    ensures
        code == if character == '\u{81}' {
            Some(key_code::UP)
        } else if character == '\u{82}' {
            Some(key_code::DOWN)
        } else if character == '\u{83}' {
            Some(key_code::LEFT)
        } else if character == '\u{84}' {
            Some(key_code::RIGHT)
        } else if character == '\u{1b}' {
            Some(key_code::ESCAPE)
        } else {
            None::<u32>
        },
{
    if character == '\u{81}' {
        Some(key_code::UP)
    } else if character == '\u{82}' {
        Some(key_code::DOWN)
    } else if character == '\u{83}' {
        Some(key_code::LEFT)
    } else if character == '\u{84}' {
        Some(key_code::RIGHT)
    } else if character == '\u{1b}' {
        Some(key_code::ESCAPE)
    } else {
        None
    }
}

/// Whether a character is white space: Unicode's White_Space property,
/// which is what std's `char::is_whitespace` answers.
pub open spec fn is_white(ch: char) -> bool {
    let value = ch as u32;
    ||| 0x09 <= value <= 0x0D
    ||| value == 0x20
    ||| value == 0x85
    ||| value == 0xA0
    ||| value == 0x1680
    ||| 0x2000 <= value <= 0x200A
    ||| value == 0x2028
    ||| value == 0x2029
    ||| value == 0x202F
    ||| value == 0x205F
    ||| value == 0x3000
}

/// Whether a character is white space.
pub fn white(ch: char) -> (answer: bool)
    ensures
        answer == is_white(ch),
{
    let value = ch as u32;
    (0x09 <= value && value <= 0x0D) || value == 0x20 || value == 0x85 || value == 0xA0
        || value == 0x1680 || (0x2000 <= value && value <= 0x200A) || value == 0x2028
        || value == 0x2029 || value == 0x202F || value == 0x205F || value == 0x3000
}

/// Text with its leading white space taken off.
pub open spec fn trim_start(text: Seq<char>) -> Seq<char>
    decreases text.len(),
{
    if text.len() > 0 && is_white(text[0]) {
        trim_start(text.drop_first())
    } else {
        text
    }
}

/// Text with its trailing white space taken off.
pub open spec fn trim_end(text: Seq<char>) -> Seq<char>
    decreases text.len(),
{
    if text.len() > 0 && is_white(text.last()) {
        trim_end(text.drop_last())
    } else {
        text
    }
}

/// Text with the white space at both ends taken off.
pub open spec fn trim(text: Seq<char>) -> Seq<char> {
    trim_end(trim_start(text))
}

/// The characters from one place to another, as a string.
fn span(chars: &Vec<char>, from: usize, to: usize) -> (text: String)
    requires
        from <= to <= chars.len(),
    ensures
        text@ == chars@.subrange(from as int, to as int),
{
    let mut text = String::new();
    let mut index = from;
    while index < to
        invariant
            from <= index <= to <= chars.len(),
            text@ == chars@.subrange(from as int, index as int),
        decreases to - index,
    {
        push_char(&mut text, chars[index]);
        index += 1;
        proof {
            assert(chars@.subrange(from as int, index as int) == chars@.subrange(
                from as int,
                index - 1,
            ).push(chars@[index - 1]));
        }
    }
    text
}

/// Where the trailing white space of the characters before `to` starts.
fn end_of_text(chars: &Vec<char>, from: usize, to: usize) -> (end: usize)
    requires
        from <= to <= chars.len(),
    ensures
        from <= end <= to,
        trim_end(chars@.subrange(from as int, to as int)) == chars@.subrange(from as int, end as int),
{
    let mut end = to;
    while end > from && white(chars[end - 1])
        invariant
            from <= end <= to <= chars.len(),
            trim_end(chars@.subrange(from as int, to as int)) == trim_end(
                chars@.subrange(from as int, end as int),
            ),
        decreases end,
    {
        proof {
            let part = chars@.subrange(from as int, end as int);
            assert(part.drop_last() == chars@.subrange(from as int, end - 1));
        }
        end -= 1;
    }
    end
}

/// A string with its trailing white space taken off.
pub fn trimmed_end(text: &str) -> (out: String)
    ensures
        out@ == trim_end(text@),
{
    let chars = crate::text::chars_of(text);
    let end = end_of_text(&chars, 0, chars.len());
    proof {
        assert(chars@.subrange(0, chars@.len() as int) == chars@);
    }
    span(&chars, 0, end)
}

/// A string with the white space at both ends taken off.
pub fn trimmed(text: &str) -> (out: String)
    ensures
        out@ == trim(text@),
{
    let chars = crate::text::chars_of(text);
    let count = chars.len();
    let mut start: usize = 0;
    proof {
        assert(chars@.subrange(0, count as int) == chars@);
    }
    while start < count && white(chars[start])
        invariant
            start <= count == chars.len(),
            trim_start(chars@) == trim_start(chars@.subrange(start as int, count as int)),
        decreases count - start,
    {
        proof {
            let part = chars@.subrange(start as int, count as int);
            assert(part.drop_first() == chars@.subrange(start + 1, count as int));
        }
        start += 1;
    }
    proof {
        assert(chars@.subrange(0, count as int) == chars@);
    }
    let end = end_of_text(&chars, start, count);
    span(&chars, start, end)
}

/// Each row's characters.
pub open spec fn rows_view(rows: Seq<String>) -> Seq<Seq<char>> {
    rows.map_values(|row: String| row@)
}

/// Rows, each followed by a line end.
pub open spec fn lines_of(rows: Seq<Seq<char>>) -> Seq<char>
    decreases rows.len(),
{
    if rows.len() == 0 {
        Seq::empty()
    } else {
        lines_of(rows.drop_last()) + rows.last() + seq!['\n']
    }
}

/// How wide the status-line divider is drawn on a display so wide.
pub open spec fn divider_width(width: i64) -> int {
    if width < 0 {
        0
    } else if width > DIVIDER_LIMIT {
        DIVIDER_LIMIT as int
    } else {
        width as int
    }
}

/// A grid as a block: its rows, then the divider under them.
pub open spec fn block_of(rows: Seq<Seq<char>>, width: i64) -> Seq<char> {
    lines_of(rows) + Seq::new(divider_width(width) as nat, |_i: int| '-') + seq!['\n']
}

/// Whether every row is empty.
pub open spec fn all_blank(rows: Seq<Seq<char>>) -> bool {
    forall|i: int| 0 <= i < rows.len() ==> (#[trigger] rows[i]).len() == 0
}

/// A line's first characters, as many as a buffer holds.
pub open spec fn cut_to(line: Seq<char>, maxlen: u32) -> Seq<char> {
    if line.len() <= maxlen {
        line
    } else {
        line.take(maxlen as int)
    }
}

/// What a keystroke read off a line means: Return for a bare line, the
/// keycode a key token stands for, or the first character itself.
pub open spec fn key_of_line(line: Seq<char>) -> u32 {
    if line.len() == 0 {
        key_code::RETURN
    } else if line[0] == '\u{81}' {
        key_code::UP
    } else if line[0] == '\u{82}' {
        key_code::DOWN
    } else if line[0] == '\u{83}' {
        key_code::LEFT
    } else if line[0] == '\u{84}' {
        key_code::RIGHT
    } else if line[0] == '\u{1b}' {
        key_code::ESCAPE
    } else {
        line[0] as u32
    }
}

/// The question a file prompt asks, by what the file is opened for.
pub open spec fn file_question(fmode: u32) -> Seq<char> {
    if fmode == file_mode::READ {
        "Load from which file? "@
    } else {
        "Save to which file? "@
    }
}

/// The order two sibling windows show in: top to bottom, then left to
/// right, by the top-left corner of each box (a window that is gone
/// counts as the origin); siblings at one corner keep their order.
pub open spec fn shows_first(first: Option<Box4>, second: Option<Box4>) -> bool {
    let (top1, left1) = match first {
        Some(bbox) => (bbox.1, bbox.0),
        None => (0i64, 0i64),
    };
    let (top2, left2) = match second {
        Some(bbox) => (bbox.1, bbox.0),
        None => (0i64, 0i64),
    };
    top1 < top2 || (top1 == top2 && left1 <= left2)
}

/// Two sibling windows in the order they show in, so that a status
/// line split off above its buffer prints above it.
pub fn visual_order(first: u32, first_box: Option<Box4>, second: u32, second_box: Option<Box4>) -> (order: (u32, u32))
    ensures
        order == if shows_first(first_box, second_box) {
            (first, second)
        } else {
            (second, first)
        },
{
    let (top1, left1) = match first_box {
        Some(bbox) => (bbox.1, bbox.0),
        None => (0i64, 0i64),
    };
    let (top2, left2) = match second_box {
        Some(bbox) => (bbox.1, bbox.0),
        None => (0i64, 0i64),
    };
    if top1 < top2 || (top1 == top2 && left1 <= left2) {
        (first, second)
    } else {
        (second, first)
    }
}

/// A display over an output writer and an input source: the measure it
/// answers with, and the grids it last drew, by window key, so that a
/// grid is redrawn only when it changes.
pub struct StdioFrontend {
    size: Option<(i64, i64)>,
    grids: Vec<(u32, Vec<String>)>,
}

impl StdioFrontend {
    /// Each grid's key is remembered once.
    pub closed spec fn wf(&self) -> bool {
        forall|i: int, j: int|
            0 <= i < j < self.grids@.len() ==> #[trigger] self.grids@[i].0 != #[trigger] self.grids@[j].0
    }

    /// The size the display was given, if one was.
    pub closed spec fn chosen(&self) -> Option<(i64, i64)> {
        self.size
    }

    /// The rows last drawn for a grid window, if it was drawn.
    pub closed spec fn drawn(&self, key: u32) -> Option<Seq<Seq<char>>> {
        if exists|i: int| 0 <= i < self.grids@.len() && self.grids@[i].0 == key {
            let i = choose|i: int| 0 <= i < self.grids@.len() && self.grids@[i].0 == key;
            Some(rows_view(self.grids@[i].1@))
        } else {
            None
        }
    }

    /// The measure a stdio display answers with.
    pub open spec fn measure(&self) -> (i64, i64) {
        match self.chosen() {
            Some(size) => size,
            None => DEFAULT_SIZE,
        }
    }

    /// The rows of a grid as drawn: each trimmed at the end.
    pub open spec fn shown(rows: Seq<String>) -> Seq<Seq<char>> {
        rows_view(rows).map_values(|row: Seq<char>| trim_end(row))
    }

    /// What drawing a grid's rows does: where some row shows and the
    /// rows differ from those last drawn for the grid, the block of them
    /// at the display's width, remembered; otherwise nothing.
    pub open spec fn renders(
        before: StdioFrontend,
        after: StdioFrontend,
        key: u32,
        rows: Seq<String>,
        block: Option<String>,
    ) -> bool {
        let shown = StdioFrontend::shown(rows);
        &&& after.chosen() == before.chosen()
        &&& if all_blank(shown) || before.drawn(key) == Some(shown) {
            &&& block is None
            &&& forall|other: u32| after.drawn(other) == before.drawn(other)
        } else {
            &&& block matches Some(text) && text@ == block_of(shown, before.measure().0)
            &&& after.drawn(key) == Some(shown)
            &&& forall|other: u32| other != key ==> after.drawn(other) == before.drawn(other)
        }
    }

    /// A grid is drawn only when it changes: drawing the same rows a
    /// second time draws nothing.
    pub proof fn a_grid_draws_once(
        first: StdioFrontend,
        second: StdioFrontend,
        third: StdioFrontend,
        key: u32,
        rows: Seq<String>,
        block: Option<String>,
        again: Option<String>,
    )
        requires
            StdioFrontend::renders(first, second, key, rows, block),
            StdioFrontend::renders(second, third, key, rows, again),
        ensures
            again is None,
            forall|other: u32| third.drawn(other) == second.drawn(other),
    {
    }

    /// A display at the classic 80x24 that has drawn nothing.
    pub fn new() -> (display: Self)
        ensures
            display.wf(),
            display.chosen() == None::<(i64, i64)>,
            forall|key: u32| display.drawn(key) == None::<Seq<Seq<char>>>,
    {
        StdioFrontend { size: None, grids: Vec::new() }
    }

    /// The same display at a size other than the classic 80x24.
    pub fn sized(self, size: (i64, i64)) -> (display: Self)
        requires
            self.wf(),
        ensures
            display.wf(),
            display.chosen() == Some(size),
            forall|key: u32| display.drawn(key) == self.drawn(key),
    {
        let display = StdioFrontend { size: Some(size), grids: self.grids };
        proof {
            assert(display.grids@ == self.grids@);
            assert forall|key: u32| display.drawn(key) == self.drawn(key) by {}
        }
        display
    }

    /// A terminal echoes as the player types, so Glk does not echo the
    /// line into the window as well.
    pub fn echoes_input(&self) -> (echoes: bool)
        ensures
            echoes,
    {
        true
    }

    /// The chosen measure, or the classic 80x24.
    pub fn size(&self) -> (size: (i64, i64))
        ensures
            size == self.measure(),
    {
        match self.size {
            Some(size) => size,
            None => DEFAULT_SIZE,
        }
    }

    /// A line request's answer from the line the source gave: the
    /// line cut to what the buffer holds, or the end of the session
    /// where the input has ended.
    pub fn read_line(&self, line: Option<String>, maxlen: u32) -> (answer: Asked<(String, u32)>)
        ensures
            match line {
                None => answer is End,
                Some(text) => answer matches Asked::Answer((cut, terminator)) && cut@ == cut_to(
                    text@,
                    maxlen,
                ) && terminator == 0,
            },
    {
        match line {
            None => Asked::End,
            Some(text) => {
                let chars = crate::text::chars_of(text.as_str());
                let end = if chars.len() <= maxlen as usize {
                    chars.len()
                } else {
                    maxlen as usize
                };
                let cut = span(&chars, 0, end);
                proof {
                    assert(chars@.subrange(0, chars@.len() as int) == chars@);
                }
                Asked::Answer((cut, 0))
            },
        }
    }

    /// A character request's answer from the line the source gave: the
    /// input is line-buffered, so a keystroke is the line's first
    /// character -- a bare Return reads as the Return keycode, and a
    /// replayed key token as the keycode it means.
    pub fn read_char(&self, line: Option<String>) -> (answer: Asked<u32>)
        ensures
            match line {
                None => answer is End,
                Some(text) => answer == Asked::Answer(key_of_line(text@)),
            },
    {
        match line {
            None => Asked::End,
            Some(text) => {
                let chars = crate::text::chars_of(text.as_str());
                if chars.len() == 0 {
                    Asked::Answer(key_code::RETURN)
                } else {
                    let first = chars[0];
                    match token_keycode(first) {
                        Some(code) => Asked::Answer(code),
                        None => Asked::Answer(first as u32),
                    }
                }
            },
        }
    }

    /// What a file prompt says in the stream before it reads a name.
    pub fn prompt_question(&self, _usage: u32, fmode: u32) -> (question: String)
        ensures
            question@ == file_question(fmode),
    {
        if fmode == file_mode::READ {
            String::from_str("Load from which file? ")
        } else {
            String::from_str("Save to which file? ")
        }
    }

    /// The name a file prompt settles on from the line the source gave:
    /// the line trimmed; an empty name cancels, and so does the end of
    /// input.
    pub fn prompt_answer(&self, line: Option<String>) -> (name: Option<String>)
        ensures
            match line {
                None => name is None,
                Some(text) => if trim(text@).len() == 0 {
                    name is None
                } else {
                    name matches Some(chosen) && chosen@ == trim(text@)
                },
            },
    {
        match line {
            None => None,
            Some(text) => {
                let chosen = trimmed(text.as_str());
                if chosen.as_str().unicode_len() == 0 {
                    None
                } else {
                    Some(chosen)
                }
            },
        }
    }

    /// Where a grid's key is remembered, if it is.
    fn find_grid(&self, key: u32) -> (found: Option<usize>)
        requires
            self.wf(),
        ensures
            match found {
                Some(i) => i < self.grids@.len() && self.grids@[i as int].0 == key && self.drawn(key)
                    == Some(rows_view(self.grids@[i as int].1@)),
                None => self.drawn(key) is None,
            },
    {
        let mut index: usize = 0;
        while index < self.grids.len()
            invariant
                self.wf(),
                index <= self.grids@.len(),
                forall|j: int| 0 <= j < index ==> self.grids@[j].0 != key,
            decreases self.grids@.len() - index,
        {
            if self.grids[index].0 == key {
                proof {
                    assert(self.grids@[index as int].0 == key);
                    let i = choose|i: int| 0 <= i < self.grids@.len() && self.grids@[i].0 == key;
                    assert(i == index as int);
                }
                return Some(index);
            }
            index += 1;
        }
        None
    }

    /// A grid's rows as the display draws them: a block, its rows
    /// trimmed at the end and the divider under them, where some row
    /// shows and the rows differ from what was drawn for that grid
    /// last; nothing otherwise. The rows drawn are remembered.
    pub fn render_grid(&mut self, key: u32, rows: &Vec<String>) -> (block: Option<String>)
        requires
            old(self).wf(),
        ensures
            final(self).wf(),
            StdioFrontend::renders(*old(self), *final(self), key, rows@, block),
    {
        let ghost shown = StdioFrontend::shown(rows@);
        let mut cut: Vec<String> = Vec::new();
        let mut blank = true;
        let mut index: usize = 0;
        while index < rows.len()
            invariant
                index <= rows@.len(),
                shown == StdioFrontend::shown(rows@),
                cut@.len() == index,
                forall|j: int| 0 <= j < index ==> (#[trigger] cut@[j])@ == shown[j],
                blank == forall|j: int| 0 <= j < index ==> (#[trigger] shown[j]).len() == 0,
            decreases rows@.len() - index,
        {
            let row = trimmed_end(rows[index].as_str());
            proof {
                assert(shown[index as int] == row@);
            }
            if row.as_str().unicode_len() != 0 {
                blank = false;
            }
            cut.push(row);
            index += 1;
        }
        proof {
            assert(rows_view(cut@) == shown);
        }
        if blank {
            return None;
        }
        let found = self.find_grid(key);
        match found {
            Some(at) => {
                if self.same_rows(at, &cut) {
                    return None;
                }
            },
            None => {},
        }
        let width = self.size().0;
        let text = block_text(&cut, width);
        let ghost before = *self;
        match found {
            Some(at) => {
                self.grids.set(at, (key, cut));
                proof {
                    assert(self.grids@[at as int].0 == key);
                    assert forall|other: u32| other != key implies self.drawn(other) == before.drawn(other) by {
                        assert forall|i: int| 0 <= i < self.grids@.len() implies (self.grids@[i].0 == other) == (before.grids@[i].0 == other) by {}
                        if exists|i: int| 0 <= i < before.grids@.len() && before.grids@[i].0 == other {
                            let i = choose|i: int| 0 <= i < before.grids@.len() && before.grids@[i].0 == other;
                            assert(self.grids@[i].0 == other);
                        }
                    }
                }
            },
            None => {
                self.grids.push((key, cut));
                proof {
                    let last = self.grids@.len() - 1;
                    assert(self.grids@[last].0 == key);
                    assert forall|other: u32| other != key implies self.drawn(other) == before.drawn(other) by {
                        if exists|i: int| 0 <= i < before.grids@.len() && before.grids@[i].0 == other {
                            let i = choose|i: int| 0 <= i < before.grids@.len() && before.grids@[i].0 == other;
                            assert(self.grids@[i].0 == other);
                        }
                    }
                }
            },
        }
        Some(text)
    }

    /// Whether the rows remembered at a place are these rows.
    fn same_rows(&self, at: usize, rows: &Vec<String>) -> (same: bool)
        requires
            at < self.grids@.len(),
        ensures
            same == (rows_view(self.grids@[at as int].1@) == rows_view(rows@)),
    {
        let held = &self.grids[at].1;
        if held.len() != rows.len() {
            proof {
                assert(rows_view(held@).len() != rows_view(rows@).len());
            }
            return false;
        }
        let mut index: usize = 0;
        while index < rows.len()
            invariant
                held@ == self.grids@[at as int].1@,
                held@.len() == rows@.len(),
                index <= rows@.len(),
                forall|j: int| 0 <= j < index ==> (#[trigger] held@[j])@ == rows@[j]@,
            decreases rows@.len() - index,
        {
            if !same_text(held[index].as_str(), rows[index].as_str()) {
                proof {
                    assert(rows_view(held@)[index as int] != rows_view(rows@)[index as int]);
                }
                return false;
            }
            index += 1;
        }
        proof {
            assert(rows_view(held@) =~= rows_view(rows@));
        }
        true
    }
}

/// A grid's block of text: each row and a line end, then the divider.
fn block_text(rows: &Vec<String>, width: i64) -> (text: String)
    ensures
        text@ == block_of(rows_view(rows@), width),
{
    let mut text = String::new();
    let mut index: usize = 0;
    while index < rows.len()
        invariant
            index <= rows@.len(),
            text@ == lines_of(rows_view(rows@).take(index as int)),
        decreases rows@.len() - index,
    {
        text.append(rows[index].as_str());
        push_char(&mut text, '\n');
        index += 1;
        proof {
            let taken = rows_view(rows@).take(index as int);
            assert(taken.drop_last() == rows_view(rows@).take(index - 1));
        }
    }
    proof {
        assert(rows_view(rows@).take(rows@.len() as int) == rows_view(rows@));
    }
    let dashes: i64 = if width < 0 {
        0
    } else if width > DIVIDER_LIMIT {
        DIVIDER_LIMIT
    } else {
        width
    };
    let ghost lines = text@;
    let mut drawn: i64 = 0;
    while drawn < dashes
        invariant
            0 <= drawn <= dashes <= DIVIDER_LIMIT,
            text@ == lines + Seq::new(drawn as nat, |_i: int| '-'),
        decreases dashes - drawn,
    {
        push_char(&mut text, '-');
        drawn += 1;
        proof {
            assert(lines + Seq::new(drawn as nat, |_i: int| '-') == lines + Seq::new((drawn - 1) as nat, |_i: int| '-').push('-'));
        }
    }
    push_char(&mut text, '\n');
    text
}

} // verus!
