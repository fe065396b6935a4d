//! Glk's object model: the plain parts of windows, streams, filerefs,
//! sound channels, and events.
//!
//! The opaque classes a game holds references to (Glk: Opaque
//! Objects) are declared here with the constants that describe them.
//! Objects name each other by internal keys; character buffers are
//! coordinates into VM memory rather than live views, with the memory
//! passed to every operation that touches one. A window's contents --
//! a buffer's flow, a grid's cells -- are kept and changed here; how
//! many cells a window's box holds is the display's measurement and
//! is handed in.

use vstd::prelude::*;

use crate::error::VoxamError;
use crate::memory::{read_at, refusal, span_of, width_reads_back, write_at, Memory, MemoryState};
use crate::text::{char_from, is_scalar, push_char, string_of};

pub mod window_type;
pub mod window_method;
pub mod event_type;
pub mod style;
pub mod seek_mode;
pub mod file_mode;
pub mod file_usage;
pub mod key_code;

verus! {

/// What a non-Unicode stream substitutes for a character it cannot
/// hold: '?', the placeholder the spec names (Glk: Output).
pub const UNPRINTABLE: u32 = 0x3F;

/// The last Unicode code point.
pub const MAX_UNICODE: u32 = 0x10FFFF;

/// The line feed character.
pub const NEWLINE: u32 = 0x0A;

// The surrogate block: reserved for UTF-16 pairs, so the values are
// not independently encodable characters.
const SURROGATE_FIRST: u32 = 0xD800;

const SURROGATE_LAST: u32 = 0xDFFF;

// One past the last character a byte stream can hold.
const BYTE_LIMIT: u32 = 0x100;

/// A window's bounding box: (left, top, right, bottom), in display
/// units.
pub type Box4 = (i64, i64, i64, i64);

/// The character a Glulx value renders as: itself where it is a
/// Unicode scalar value, '?' otherwise.
pub open spec fn rendered(value: u32) -> char {
    if is_scalar(value) {
        value as char
    } else {
        '?'
    }
}

/// Render a Glulx character value as text.
///
/// Glulx characters are arbitrary 32-bit values, so a game can print
/// something that is not a Unicode code point at all. Anything
/// outside the Unicode range, and the surrogate block (which is not
/// independently encodable), becomes '?' (Glk: Output).
pub fn to_char(value: u32) -> (ch: char)
    ensures
        ch == rendered(value),
{
    if value > MAX_UNICODE || (SURROGATE_FIRST <= value && value <= SURROGATE_LAST) {
        return '?';
    }
    match char_from(value) {
        Some(ch) => ch,
        None => '?',
    }
}

// -- buffers ----------------------------------------------------------------
/// A character array in VM memory: coordinates, not a copy.
///
/// Holding coordinates and indexing lazily means a retained array --
/// one Glk keeps after the call returns, such as a pending line
/// request's buffer -- stays valid across a resize of memory.
#[derive(Debug, Clone, Copy, PartialEq, Eq, Structural)]
pub struct MemArray {
    /// Where the array begins.
    pub address: u32,
    /// The element count the call named.
    pub count: u32,
    /// Bytes per element: 1 for the char types, 4 otherwise.
    pub width: u32,
}

impl MemArray {
    /// The address of an element, wrapping at the top of the
    /// 32-bit space.
    pub open spec fn element(self, index: u32) -> u32 {
        ((self.address as int + index as int * self.width as int) % 0x1_0000_0000) as u32
    }

    /// What reading an element answers from a memory.
    pub open spec fn got(self, memory: MemoryState, index: u32) -> Result<u32, VoxamError> {
        let at = self.element(index);
        if at + span_of(self.width) <= memory.endmem() {
            Ok(read_at(memory.bytes, at as int, self.width))
        } else {
            Err(VoxamError::OutOfRange { address: at })
        }
    }

    /// Whether writing an element is accepted by a memory.
    pub open spec fn settable(self, memory: MemoryState, index: u32) -> bool {
        memory.writable(self.element(index), span_of(self.width))
    }

    /// A memory after writing an element, where the write is accepted.
    pub open spec fn put(self, memory: MemoryState, index: u32, value: u32) -> MemoryState {
        if self.settable(memory, index) {
            memory.with_bytes(write_at(memory.bytes, self.element(index) as int, self.width, value))
        } else {
            memory
        }
    }

    /// What writing an element answers.
    pub open spec fn put_result(self, memory: MemoryState, index: u32) -> Result<(), VoxamError> {
        if self.settable(memory, index) {
            Ok(())
        } else {
            Err(refusal(self.element(index), memory.ramstart))
        }
    }

    fn element_address(&self, index: u32) -> (at: u32)
        ensures
            at == self.element(index),
    {
        let offset = index.wrapping_mul(self.width);
        let at = self.address.wrapping_add(offset);
        proof {
            let m: int = 0x1_0000_0000;
            let a = self.address as int;
            let p = index as int * self.width as int;
            assert(offset == p % m);
            assert(0 <= p % m < m);
            assert((a + p) % m == (a + p % m) % m) by {
                vstd::arithmetic::div_mod::lemma_add_mod_noop(a, p, m);
                vstd::arithmetic::div_mod::lemma_small_mod(a as nat, m as nat);
            }
            let r = a + p % m;
            assert(r % m == if r >= m { r - m } else { r }) by (nonlinear_arith)
                requires
                    0 <= r < 2 * m,
                    m == 0x1_0000_0000,
            ;
        }
        at
    }

    /// Read one element.
    pub fn get(&self, memory: &Memory, index: u32) -> (result: Result<u32, VoxamError>)
        requires
            memory@.wf(),
        ensures
            result == self.got(memory@, index),
    {
        memory.read(self.element_address(index), self.width)
    }

    /// Write one element; the memory layer masks to width.
    pub fn set(&self, memory: &mut Memory, index: u32, value: u32) -> (result: Result<
        (),
        VoxamError,
    >)
        requires
            old(memory)@.wf(),
        ensures
            final(memory)@.wf(),
            result == self.put_result(old(memory)@, index),
            final(memory)@ == self.put(old(memory)@, index, value),
    {
        memory.write(self.element_address(index), self.width, value)
    }
}


// -- windows ----------------------------------------------------------------
/// A pending line request on a window (Glk: Line Input Events).
#[derive(Debug, Clone, PartialEq, Eq)]
pub struct LineRequest {
    /// The buffer the line lands in, or None.
    pub buf: Option<MemArray>,
    /// How many characters of it are pre-filled.
    pub initlen: u32,
    /// Whether the buffer holds words rather than bytes.
    pub unicode: bool,
    /// Whether the finished line is echoed to the window (Glk: Line
    /// Input Events, via set_echo_line_event).
    pub echo: bool,
    /// The special keys that may end the line.
    pub terminators: Vec<u32>,
}

impl LineRequest {
    /// Record what the request asked for: echoed, with no
    /// terminators beyond the usual.
    pub fn new(buf: Option<MemArray>, initlen: u32, unicode: bool) -> (request: Self)
        ensures
            request.buf == buf,
            request.initlen == initlen,
            request.unicode == unicode,
            request.echo,
            request.terminators@ == Seq::<u32>::empty(),
    {
        LineRequest { buf, initlen, unicode, echo: true, terminators: Vec::new() }
    }

    /// The buffer's length; zero for the null buffer.
    pub fn capacity(&self) -> (count: u32)
        ensures
            count == match self.buf {
                Some(array) => array.count,
                None => 0,
            },
    {
        match self.buf {
            Some(array) => array.count,
            None => 0,
        }
    }
}

/// One picture set into a buffer's text flow: the Pict's number, the
/// picture whole as a data: url, the size the draw asked for, the
/// alignment value naming how the text meets it, and the link value
/// it was drawn under.
#[derive(Debug, Clone, PartialEq, Eq)]
pub struct Placed {
    pub image: u32,
    pub url: String,
    pub width: u32,
    pub height: u32,
    pub alignment: u32,
    pub hyperlink: u32,
}

/// A span of window text sharing one style and link value, a picture
/// set into the flow, or a flow break (Glk: Graphics in Text Buffer
/// Windows).
#[derive(Debug, Clone, PartialEq)]
pub enum Flow {
    Run { style: u32, hyperlink: u32, text: String },
    Placed(Placed),
    Break,
}

/// A piece of a buffer's flow as a mathematical value.
pub enum Piece {
    Run { style: u32, hyperlink: u32, text: Seq<char> },
    Placed(Placed),
    Break,
}

/// The mathematical value of a piece of flow.
pub open spec fn piece_of(flow: Flow) -> Piece {
    match flow {
        Flow::Run { style, hyperlink, text } => Piece::Run { style, hyperlink, text: text@ },
        Flow::Placed(placed) => Piece::Placed(placed),
        Flow::Break => Piece::Break,
    }
}

/// The mathematical value of a flow.
pub open spec fn pieces(content: Seq<Flow>) -> Seq<Piece> {
    content.map_values(|flow: Flow| piece_of(flow))
}

/// A flow after a character is written in a style under a link value:
/// the last run grows when it is text in the same style and link, and
/// a new run starts otherwise -- a placed picture or a break ends the
/// run it follows.
pub open spec fn written(flow: Seq<Piece>, style: u32, hyperlink: u32, glyph: char) -> Seq<Piece> {
    if flow.len() > 0 && (flow.last() matches Piece::Run { style: s, hyperlink: h, text } && s
        == style && h == hyperlink) {
        flow.drop_last().push(
            Piece::Run { style, hyperlink, text: flow.last()->Run_text.push(glyph) },
        )
    } else {
        flow.push(Piece::Run { style, hyperlink, text: seq![glyph] })
    }
}

/// The text of a flow, styles and pictures flattened away.
pub open spec fn flattened(flow: Seq<Piece>) -> Seq<char>
    decreases flow.len(),
{
    if flow.len() == 0 {
        Seq::empty()
    } else {
        flattened(flow.drop_last()) + match flow.last() {
            Piece::Run { text, .. } => text,
            _ => Seq::empty(),
        }
    }
}

/// The contents a text buffer window accumulates until a display
/// drains them.
#[derive(Debug, Default)]
pub struct BufferData {
    /// Runs, pictures, and breaks, oldest first.
    pub content: Vec<Flow>,
}

impl BufferData {
    /// Write a character in a style under a link value: onto the last
    /// run while both hold, into a new run otherwise.
    pub fn put_char(&mut self, style: u32, hyperlink: u32, character: u32)
        ensures
            pieces(final(self).content@) == written(
                pieces(old(self).content@),
                style,
                hyperlink,
                rendered(character),
            ),
    {
        let glyph = to_char(character);
        let count = self.content.len();
        let ghost before = pieces(self.content@);
        let extends = count > 0 && match &self.content[count - 1] {
            Flow::Run { style: run_style, hyperlink: run_link, .. } => *run_style == style
                && *run_link == hyperlink,
            _ => false,
        };
        if extends {
            match self.content.pop() {
                Some(Flow::Run { style: run_style, hyperlink: run_link, mut text }) => {
                    push_char(&mut text, glyph);
                    self.content.push(Flow::Run { style: run_style, hyperlink: run_link, text });
                },
                Some(other) => {
                    self.content.push(other);
                },
                None => {},
            }
            proof {
                assert(pieces(self.content@) =~= written(before, style, hyperlink, glyph));
            }
        } else {
            let mut text = String::new();
            push_char(&mut text, glyph);
            self.content.push(Flow::Run { style, hyperlink, text });
            proof {
                assert(text@ =~= seq![glyph]);
                assert(pieces(self.content@) =~= written(before, style, hyperlink, glyph));
            }
        }
    }

    /// Set a picture into the flow, after everything written so far.
    pub fn put_placed(&mut self, placed: Placed)
        ensures
            pieces(final(self).content@) == pieces(old(self).content@).push(Piece::Placed(placed)),
    {
        self.content.push(Flow::Placed(placed));
        proof {
            assert(pieces(self.content@) =~= pieces(old(self).content@).push(Piece::Placed(placed)));
        }
    }

    /// Set a flow break into the flow (Glk: Graphics in Text Buffer
    /// Windows).
    pub fn put_break(&mut self)
        ensures
            pieces(final(self).content@) == pieces(old(self).content@).push(Piece::Break),
    {
        self.content.push(Flow::Break);
        proof {
            assert(pieces(self.content@) =~= pieces(old(self).content@).push(Piece::Break));
        }
    }

    /// The accumulated text, styles and pictures flattened away.
    pub fn text(&self) -> (text: String)
        ensures
            text@ == flattened(pieces(self.content@)),
    {
        let mut text = String::new();
        let mut index: usize = 0;
        while index < self.content.len()
            invariant
                index <= self.content@.len(),
                text@ == flattened(pieces(self.content@.take(index as int))),
            decreases self.content.len() - index,
        {
            match &self.content[index] {
                Flow::Run { text: run, .. } => text.append(run.as_str()),
                _ => {},
            }
            proof {
                assert(pieces(self.content@.take(index + 1)).drop_last() =~= pieces(
                    self.content@.take(index as int),
                ));
            }
            index += 1;
        }
        proof {
            assert(self.content@.take(self.content@.len() as int) =~= self.content@);
        }
        text
    }

    /// Hand the whole flow over and start empty.
    pub fn take_content(&mut self) -> (content: Vec<Flow>)
        ensures
            content@ == old(self).content@,
            final(self).content@ == Seq::<Flow>::empty(),
    {
        let mut content: Vec<Flow> = Vec::new();
        std::mem::swap(&mut content, &mut self.content);
        content
    }

    /// Hand the text over, flattened, and start empty.
    pub fn take_text(&mut self) -> (text: String)
        ensures
            text@ == flattened(pieces(old(self).content@)),
            final(self).content@ == Seq::<Flow>::empty(),
    {
        let text = self.text();
        self.content.clear();
        text
    }

    /// Erase everything.
    pub fn clear(&mut self)
        ensures
            final(self).content@ == Seq::<Flow>::empty(),
    {
        self.content.clear();
    }
}

/// A count that cannot fall below zero.
pub open spec fn clamp0(n: i64) -> nat {
    if n < 0 {
        0
    } else {
        n as nat
    }
}

/// The rows of a grid as a mathematical value.
pub open spec fn grid_cells<T>(rows: Seq<Vec<T>>) -> Seq<Seq<T>> {
    rows.map_values(|row: Vec<T>| row@)
}

/// Rows regrown to a width and a height, keeping what still fits and
/// filling the rest with a blank.
pub open spec fn fitted<T>(rows: Seq<Seq<T>>, width: nat, height: nat, blank: T) -> Seq<Seq<T>> {
    Seq::new(
        height,
        |i: int|
            Seq::new(
                width,
                |j: int|
                    if i < rows.len() && j < rows[i].len() {
                        rows[i][j]
                    } else {
                        blank
                    },
            ),
    )
}

/// Whether rows are a full width by height block.
pub open spec fn block<T>(rows: Seq<Seq<T>>, width: nat, height: nat) -> bool {
    rows.len() == height && forall|i: int| 0 <= i < height ==> #[trigger] rows[i].len() == width
}

/// A character grid with a cursor (Glk: Text Grid Windows). The
/// characters, their styles, and their link values are held as
/// parallel row lists, resized whenever the layout hands over a new
/// box.
#[derive(Debug, Default)]
pub struct GridData {
    pub lines: Vec<Vec<char>>,
    pub styles: Vec<Vec<u32>>,
    pub links: Vec<Vec<u32>>,
    pub cursor_x: i64,
    pub cursor_y: i64,
}

/// A row regrown to a width, keeping what fits.
fn fit_row<T: Copy>(row: &Vec<T>, width: usize, blank: T) -> (fit: Vec<T>)
    ensures
        fit@ == Seq::new(width as nat, |j: int| if j < row@.len() { row@[j] } else { blank }),
{
    let mut fit: Vec<T> = Vec::new();
    let mut index: usize = 0;
    while index < width
        invariant
            index <= width,
            fit@ == Seq::new(index as nat, |j: int| if j < row@.len() { row@[j] } else { blank }),
        decreases width - index,
    {
        if index < row.len() {
            fit.push(row[index]);
        } else {
            fit.push(blank);
        }
        index += 1;
        proof {
            assert(fit@ =~= Seq::new(
                index as nat,
                |j: int| if j < row@.len() { row@[j] } else { blank },
            ));
        }
    }
    fit
}

/// Rows regrown to a width and a height, keeping what fits.
fn fit_rows<T: Copy>(rows: &Vec<Vec<T>>, width: usize, height: usize, blank: T) -> (fit: Vec<
    Vec<T>,
>)
    ensures
        grid_cells(fit@) == fitted(grid_cells(rows@), width as nat, height as nat, blank),
{
    let mut fit: Vec<Vec<T>> = Vec::new();
    let empty: Vec<T> = Vec::new();
    let mut index: usize = 0;
    while index < height
        invariant
            index <= height,
            empty@ == Seq::<T>::empty(),
            grid_cells(fit@) == fitted(grid_cells(rows@), width as nat, height as nat, blank).take(
                index as int,
            ),
        decreases height - index,
    {
        let row = if index < rows.len() {
            fit_row(&rows[index], width, blank)
        } else {
            fit_row(&empty, width, blank)
        };
        let ghost before = fit@;
        fit.push(row);
        proof {
            let whole = fitted(grid_cells(rows@), width as nat, height as nat, blank);
            assert(row@ =~= whole[index as int]);
            assert(grid_cells(fit@) =~= grid_cells(before).push(row@));
            assert(whole.take(index + 1) =~= whole.take(index as int).push(whole[index as int]));
        }
        index += 1;
    }
    proof {
        let whole = fitted(grid_cells(rows@), width as nat, height as nat, blank);
        assert(whole.take(height as int) =~= whole);
    }
    fit
}

/// A row with every cell blanked.
fn blank_row(row: &Vec<char>) -> (blank: Vec<char>)
    ensures
        blank@ == Seq::new(row@.len(), |j: int| ' '),
{
    let mut blank: Vec<char> = Vec::new();
    let mut index: usize = 0;
    while index < row.len()
        invariant
            index <= row@.len(),
            blank@ == Seq::new(index as nat, |j: int| ' '),
        decreases row.len() - index,
    {
        blank.push(' ');
        index += 1;
        proof {
            assert(blank@ =~= Seq::new(index as nat, |j: int| ' '));
        }
    }
    blank
}

impl GridData {
    /// Whether every row list is a full block of a width and height.
    pub open spec fn shaped(self, width: i64, height: i64) -> bool {
        &&& block(grid_cells(self.lines@), clamp0(width), clamp0(height))
        &&& block(grid_cells(self.styles@), clamp0(width), clamp0(height))
        &&& block(grid_cells(self.links@), clamp0(width), clamp0(height))
    }

    /// Where a character lands: at the cursor, or at the start of the
    /// next row when the cursor has passed the right edge.
    pub open spec fn landing(self, width: i64) -> (int, int) {
        if self.cursor_x >= width {
            (0, self.cursor_y + 1)
        } else {
            (self.cursor_x as int, self.cursor_y as int)
        }
    }

    /// Write a character at the cursor and advance (Glk: Text Grid
    /// Windows): a newline moves to the start of the next row and
    /// prints nothing, the right edge wraps, and anything landing
    /// outside the grid is dropped. The width and height are the
    /// window's, in cells.
    pub fn put_char(
        &mut self,
        width: i64,
        height: i64,
        style: u32,
        hyperlink: u32,
        character: u32,
    )
        requires
            old(self).shaped(width, height),
            old(self).cursor_x < i64::MAX,
            old(self).cursor_y < i64::MAX,
        ensures
            final(self).shaped(width, height),
            character == NEWLINE ==> {
                &&& final(self).cursor_x == 0
                &&& final(self).cursor_y == old(self).cursor_y + 1
                &&& grid_cells(final(self).lines@) == grid_cells(old(self).lines@)
                &&& grid_cells(final(self).styles@) == grid_cells(old(self).styles@)
                &&& grid_cells(final(self).links@) == grid_cells(old(self).links@)
            },
            character != NEWLINE ==> {
                let (x, y) = old(self).landing(width);
                let inside = 0 <= y < height && 0 <= x < width;
                &&& final(self).cursor_x == x + 1
                &&& final(self).cursor_y == y
                &&& grid_cells(final(self).lines@) == if inside {
                    grid_cells(old(self).lines@).update(
                        y,
                        grid_cells(old(self).lines@)[y].update(x, rendered(character)),
                    )
                } else {
                    grid_cells(old(self).lines@)
                }
                &&& grid_cells(final(self).styles@) == if inside {
                    grid_cells(old(self).styles@).update(
                        y,
                        grid_cells(old(self).styles@)[y].update(x, style),
                    )
                } else {
                    grid_cells(old(self).styles@)
                }
                &&& grid_cells(final(self).links@) == if inside {
                    grid_cells(old(self).links@).update(
                        y,
                        grid_cells(old(self).links@)[y].update(x, hyperlink),
                    )
                } else {
                    grid_cells(old(self).links@)
                }
            },
    {
        if character == NEWLINE {
            self.cursor_x = 0;
            self.cursor_y = self.cursor_y + 1;
            return;
        }
        if self.cursor_x >= width {
            self.cursor_x = 0;
            self.cursor_y = self.cursor_y + 1;
        }
        if 0 <= self.cursor_y && self.cursor_y < height && 0 <= self.cursor_x && self.cursor_x
            < width {
            proof {
                assert(self.lines@.len() == clamp0(height));
                assert(self.cursor_y < self.lines.len());
                assert(grid_cells(self.lines@)[self.cursor_y as int].len() == clamp0(width));
                assert(self.cursor_x < self.lines@[self.cursor_y as int].len());
            }
            let row = self.cursor_y as usize;
            let column = self.cursor_x as usize;
            proof {
                assert(grid_cells(self.lines@)[row as int].len() == clamp0(width));
                assert(grid_cells(self.styles@)[row as int].len() == clamp0(width));
                assert(grid_cells(self.links@)[row as int].len() == clamp0(width));
            }
            let ghost lines = grid_cells(self.lines@);
            let ghost styles = grid_cells(self.styles@);
            let ghost links = grid_cells(self.links@);
            let mut line: Vec<char> = Vec::new();
            std::mem::swap(&mut line, &mut self.lines[row]);
            line[column] = to_char(character);
            self.lines[row] = line;
            let mut styled: Vec<u32> = Vec::new();
            std::mem::swap(&mut styled, &mut self.styles[row]);
            styled[column] = style;
            self.styles[row] = styled;
            let mut linked: Vec<u32> = Vec::new();
            std::mem::swap(&mut linked, &mut self.links[row]);
            linked[column] = hyperlink;
            self.links[row] = linked;
            proof {
                assert(grid_cells(self.lines@) =~= lines.update(
                    row as int,
                    lines[row as int].update(column as int, rendered(character)),
                ));
                assert(grid_cells(self.styles@) =~= styles.update(
                    row as int,
                    styles[row as int].update(column as int, style),
                ));
                assert(grid_cells(self.links@) =~= links.update(
                    row as int,
                    links[row as int].update(column as int, hyperlink),
                ));
            }
        }
        self.cursor_x = self.cursor_x + 1;
    }

    /// Blank every cell and send the cursor home.
    pub fn clear(&mut self)
        ensures
            grid_cells(final(self).lines@) == grid_cells(old(self).lines@).map_values(
                |row: Seq<char>| Seq::new(row.len(), |j: int| ' '),
            ),
            final(self).styles == old(self).styles,
            final(self).links == old(self).links,
            final(self).cursor_x == 0,
            final(self).cursor_y == 0,
    {
        let mut blanked: Vec<Vec<char>> = Vec::new();
        let mut index: usize = 0;
        while index < self.lines.len()
            invariant
                index <= self.lines@.len(),
                grid_cells(blanked@) == grid_cells(self.lines@.take(index as int)).map_values(
                    |row: Seq<char>| Seq::new(row.len(), |j: int| ' '),
                ),
            decreases self.lines.len() - index,
        {
            let row = blank_row(&self.lines[index]);
            let ghost before = blanked@;
            blanked.push(row);
            index += 1;
            proof {
                assert(grid_cells(blanked@) =~= grid_cells(before).push(row@));
                assert(self.lines@.take(index as int) =~= self.lines@.take(index - 1).push(
                    self.lines@[index - 1],
                ));
                assert(grid_cells(self.lines@.take(index as int)) =~= grid_cells(
                    self.lines@.take(index - 1),
                ).push(self.lines@[index - 1]@));
                assert(grid_cells(blanked@) =~= grid_cells(self.lines@.take(index as int)).map_values(
                    |row: Seq<char>| Seq::new(row.len(), |j: int| ' '),
                ));
            }
        }
        proof {
            assert(self.lines@.take(self.lines@.len() as int) =~= self.lines@);
        }
        self.lines = blanked;
        self.cursor_x = 0;
        self.cursor_y = 0;
    }

    /// The rows, one string each.
    pub fn rows(&self) -> (rows: Vec<String>)
        ensures
            rows@.map_values(|row: String| row@) == grid_cells(self.lines@),
    {
        let mut rows: Vec<String> = Vec::new();
        let mut index: usize = 0;
        while index < self.lines.len()
            invariant
                index <= self.lines@.len(),
                rows@.map_values(|row: String| row@) == grid_cells(self.lines@.take(index as int)),
            decreases self.lines.len() - index,
        {
            let row = string_of(self.lines[index].as_slice());
            let ghost before = rows@;
            rows.push(row);
            index += 1;
            proof {
                assert(rows@.map_values(|row: String| row@) =~= before.map_values(
                    |row: String| row@,
                ).push(row@));
                assert(self.lines@.take(index as int) =~= self.lines@.take(index - 1).push(
                    self.lines@[index - 1],
                ));
                assert(grid_cells(self.lines@.take(index as int)) =~= grid_cells(
                    self.lines@.take(index - 1),
                ).push(self.lines@[index - 1]@));
                assert(rows@.map_values(|row: String| row@) =~= grid_cells(
                    self.lines@.take(index as int),
                ));
            }
        }
        proof {
            assert(self.lines@.take(self.lines@.len() as int) =~= self.lines@);
        }
        rows
    }

    /// Put the cursor where the game asks. Past-the-edge positions
    /// are legal: output there falls into the void until the cursor
    /// comes back inside.
    pub fn move_cursor(&mut self, x: i64, y: i64)
        ensures
            final(self).cursor_x == x,
            final(self).cursor_y == y,
            final(self).lines == old(self).lines,
            final(self).styles == old(self).styles,
            final(self).links == old(self).links,
    {
        self.cursor_x = x;
        self.cursor_y = y;
    }
}

/// Grow or trim a grid's rows to a width and a height, keeping what
/// still fits; the cursor is clamped into the new bounds.
pub fn resize_grid(data: &mut GridData, width: i64, height: i64)
    requires
        width <= usize::MAX,
        height <= usize::MAX,
    ensures
        grid_cells(final(data).lines@) == fitted(
            grid_cells(old(data).lines@),
            clamp0(width),
            clamp0(height),
            ' ',
        ),
        grid_cells(final(data).styles@) == fitted(
            grid_cells(old(data).styles@),
            clamp0(width),
            clamp0(height),
            style::NORMAL,
        ),
        grid_cells(final(data).links@) == fitted(
            grid_cells(old(data).links@),
            clamp0(width),
            clamp0(height),
            0u32,
        ),
        final(data).shaped(width, height),
        final(data).cursor_x == if old(data).cursor_x < clamp0(width) {
            old(data).cursor_x as int
        } else {
            clamp0(width) as int
        },
        final(data).cursor_y == if old(data).cursor_y < clamp0(height) {
            old(data).cursor_y as int
        } else {
            clamp0(height) as int
        },
{
    let columns: usize = if width < 0 {
        0
    } else {
        width as usize
    };
    let rows: usize = if height < 0 {
        0
    } else {
        height as usize
    };
    data.lines = fit_rows(&data.lines, columns, rows, ' ');
    data.styles = fit_rows(&data.styles, columns, rows, style::NORMAL);
    data.links = fit_rows(&data.links, columns, rows, 0u32);
    let wide = columns as i64;
    let tall = rows as i64;
    if data.cursor_x > wide {
        data.cursor_x = wide;
    }
    if data.cursor_y > tall {
        data.cursor_y = tall;
    }
}

/// A grid of pixels (Glk: Graphics Windows). The pixels themselves
/// live in the display; the model holds the box and the requests.
#[derive(Debug, Default, Clone, Copy, PartialEq, Eq, Structural)]
pub struct GraphicsData {
    /// Raised by a rearrange that changed a real box: the canvas
    /// cleared, and the game is owed a redraw event (Glk: Window
    /// Events).
    pub moved: bool,
}

/// An internal node: a split of two (Glk: Window Arrangement).
#[derive(Debug, Clone, Copy)]
pub struct PairData {
    /// The window on the split's unconstrained side -- the original
    /// window, until a re-arrangement flips the direction and swaps
    /// the children.
    pub child1: u32,
    /// The window on the side the direction names, which carries the
    /// size constraint -- the split-off window, at first.
    pub child2: u32,
    /// The window the split's size is *measured* against. Only the
    /// measurement: the constraint sits on child2's side wherever the
    /// key lives (Glk: Changing Window Constraints).
    pub key: u32,
    /// The split's size, in the key window's units, or as a
    /// percentage for a proportional split.
    pub size: u32,
    /// The box the constrained side received, kept for displays that
    /// draw borders.
    pub sized_box: Box4,
    pub direction: u32,
    pub division: u32,
    pub has_border: bool,
    pub vertical: bool,
    pub backward: bool,
}

/// The length of a box along the split's axis.
pub open spec fn extent_of(bbox: Box4, vertical: bool) -> int {
    if vertical {
        bbox.2 - bbox.0
    } else {
        bbox.3 - bbox.1
    }
}

/// Where a split falls along an extent, in display units: a
/// proportional split's percentage of the extent, rounded down, or
/// the key window's measure of the size -- clamped into the extent
/// either way.
pub open spec fn split_at(extent: int, size: u32, division: u32, key_extent: int) -> int {
    let raw = if division == window_method::PROPORTIONAL {
        (extent * size) / 100
    } else {
        key_extent
    };
    let room = if extent < 0 {
        0
    } else {
        extent
    };
    if raw < 0 {
        0
    } else if raw > room {
        room
    } else {
        raw
    }
}

/// The boxes a split gives: child2's sized box first, then child1's.
pub open spec fn split_boxes(bbox: Box4, vertical: bool, backward: bool, split: int) -> (Box4, Box4) {
    let (left, top, right, bottom) = bbox;
    let first = if backward {
        split
    } else {
        extent_of(bbox, vertical) - split
    };
    let (box1, box2) = if vertical {
        (
            (left, top, (left + first) as i64, bottom),
            ((left + first) as i64, top, right, bottom),
        )
    } else {
        (
            (left, top, right, (top + first) as i64),
            (left, (top + first) as i64, right, bottom),
        )
    };
    if backward {
        (box1, box2)
    } else {
        (box2, box1)
    }
}

/// Floor division by a hundred.
fn hundredths(value: i64) -> (quotient: i64)
    requires
        value > i64::MIN,
    ensures
        quotient == value / 100,
{
    if value >= 0 {
        value / 100
    } else {
        let magnitude = (-value) as u64;
        let rounded = (magnitude + 99) / 100;
        proof {
            assert(-(value as int) == magnitude);
            assert((value as int) / 100 == -(((magnitude + 99) as int) / 100)) by (nonlinear_arith)
                requires
                    value < 0,
                    magnitude == -value,
            ;
        }
        -(rounded as i64)
    }
}

impl PairData {
    /// A pair's parts, as a method word unpacks into them.
    pub open spec fn unpacks(self, method: u32) -> bool {
        let direction = method & window_method::DIR_MASK;
        &&& self.direction == direction
        &&& self.division == method & window_method::DIVISION_MASK
        &&& self.has_border == (method & window_method::BORDER_MASK == window_method::BORDER)
        &&& self.vertical == (direction == window_method::LEFT || direction
            == window_method::RIGHT)
        &&& self.backward == (direction == window_method::LEFT || direction
            == window_method::ABOVE)
    }

    /// The method word a pair's parts recompose into.
    pub open spec fn composed(self) -> u32 {
        self.direction | self.division | if self.has_border {
            window_method::BORDER
        } else {
            window_method::NO_BORDER
        }
    }

    /// Join two windows under a split method.
    pub fn new(child1: u32, child2: u32, key: u32, method: u32, size: u32) -> (pair: Self)
        ensures
            pair.child1 == child1,
            pair.child2 == child2,
            pair.key == key,
            pair.size == size,
            pair.sized_box == (0i64, 0i64, 0i64, 0i64),
            pair.unpacks(method),
    {
        let mut pair = PairData {
            child1,
            child2,
            key,
            size,
            sized_box: (0, 0, 0, 0),
            direction: 0,
            division: 0,
            has_border: true,
            vertical: false,
            backward: false,
        };
        pair.set_method(method);
        pair
    }

    /// Unpack a method word into the split's parts.
    pub fn set_method(&mut self, method: u32)
        ensures
            final(self).unpacks(method),
            final(self).child1 == old(self).child1,
            final(self).child2 == old(self).child2,
            final(self).key == old(self).key,
            final(self).size == old(self).size,
            final(self).sized_box == old(self).sized_box,
    {
        self.direction = method & window_method::DIR_MASK;
        self.division = method & window_method::DIVISION_MASK;
        self.has_border = (method & window_method::BORDER_MASK) == window_method::BORDER;
        self.vertical = self.direction == window_method::LEFT || self.direction
            == window_method::RIGHT;
        self.backward = self.direction == window_method::LEFT || self.direction
            == window_method::ABOVE;
    }

    /// The split's parts recomposed into a method word.
    pub fn method(&self) -> (method: u32)
        ensures
            method == self.composed(),
    {
        let border = if self.has_border {
            window_method::BORDER
        } else {
            window_method::NO_BORDER
        };
        self.direction | self.division | border
    }

    /// Change the split (Glk: Changing Window Constraints): a new
    /// method, size, and -- where one is named -- key window. The
    /// windows never flip or rotate: a method on the other axis is
    /// refused, and changing the direction within the axis moves the
    /// constraint to the other child while the glass stays where it
    /// is, which is carried by swapping the children.
    pub fn set_arrangement(&mut self, method: u32, size: u32, key: Option<u32>) -> (result: Result<
        (),
        VoxamError,
    >)
        ensures
            ({
                let direction = method & window_method::DIR_MASK;
                let vertical = direction == window_method::LEFT || direction == window_method::RIGHT;
                let backward = direction == window_method::LEFT || direction == window_method::ABOVE;
                if vertical != old(self).vertical {
                    &&& result == Err::<(), VoxamError>(VoxamError::AxisChanged)
                    &&& final(self).direction == old(self).direction
                    &&& final(self).division == old(self).division
                    &&& final(self).has_border == old(self).has_border
                    &&& final(self).vertical == old(self).vertical
                    &&& final(self).backward == old(self).backward
                    &&& final(self).child1 == old(self).child1
                    &&& final(self).child2 == old(self).child2
                    &&& final(self).key == old(self).key
                    &&& final(self).size == old(self).size
                } else {
                    &&& result is Ok
                    &&& final(self).unpacks(method)
                    &&& final(self).size == size
                    &&& final(self).key == match key {
                        Some(named) => named,
                        None => old(self).key,
                    }
                    &&& if backward != old(self).backward {
                        final(self).child1 == old(self).child2 && final(self).child2 == old(
                            self,
                        ).child1
                    } else {
                        final(self).child1 == old(self).child1 && final(self).child2 == old(
                            self,
                        ).child2
                    }
                    &&& final(self).sized_box == old(self).sized_box
                }
            }),
    {
        let direction = method & window_method::DIR_MASK;
        let vertical = direction == window_method::LEFT || direction == window_method::RIGHT;
        let backward = direction == window_method::LEFT || direction == window_method::ABOVE;
        if vertical != self.vertical {
            return Err(VoxamError::AxisChanged);
        }
        if backward != self.backward {
            let first = self.child1;
            self.child1 = self.child2;
            self.child2 = first;
        }
        self.set_method(method);
        self.size = size;
        match key {
            Some(named) => {
                self.key = named;
            },
            None => {},
        }
        Ok(())
    }

    /// The boxes this split gives its children inside a box: child2's
    /// sized box first, then child1's. A proportional split is a
    /// percentage of the extent, rounded down; a fixed one is the key
    /// window's measure of the size in display units, which only the
    /// display can take and hands in. The direction decides the sides
    /// outright: child2 sits on the named side.
    pub fn split(&self, bbox: Box4, key_extent: i64) -> (boxes: (Box4, Box4))
        requires
            i64::MIN < extent_of(bbox, self.vertical) <= i64::MAX,
            self.division == window_method::PROPORTIONAL ==> i64::MIN < extent_of(
                bbox,
                self.vertical,
            ) * self.size <= i64::MAX,
        ensures
            boxes == split_boxes(
                bbox,
                self.vertical,
                self.backward,
                split_at(extent_of(bbox, self.vertical), self.size, self.division, key_extent as int),
            ),
    {
        let (left, top, right, bottom) = bbox;
        let extent = if self.vertical {
            right - left
        } else {
            bottom - top
        };
        let raw = if self.division == window_method::PROPORTIONAL {
            hundredths(extent * (self.size as i64))
        } else {
            key_extent
        };
        let room = if extent < 0 {
            0
        } else {
            extent
        };
        let split = if raw < 0 {
            0
        } else if raw > room {
            room
        } else {
            raw
        };
        let first = if self.backward {
            split
        } else {
            extent - split
        };
        let (box1, box2) = if self.vertical {
            let middle = left + first;
            ((left, top, middle, bottom), (middle, top, right, bottom))
        } else {
            let middle = top + first;
            ((left, top, right, middle), (left, middle, right, bottom))
        };
        if self.backward {
            (box1, box2)
        } else {
            (box2, box1)
        }
    }
}

/// A stream keeps every character a byte can hold: below 0x100 a
/// character is stored as itself in a byte stream as in a Unicode one;
/// from 0x100 on, a Unicode stream keeps it and a byte stream stores
/// '?' instead. So a writable window stream hands back each character
/// below 0x100 as it was written, and a writable memory stream with
/// room lays it in its buffer as itself.
pub proof fn streams_keep_every_byte(stream: StreamState, memory: MemoryState, character: u32)
    requires
        stream.writable,
    ensures
        character < 0x100 ==> stored(true, character) == character && stored(false, character)
            == character,
        character >= 0x100 ==> stored(true, character) == character && stored(false, character)
            == 0x3F,
        character < 0x100 && stream.holding is Window ==> put_step(stream, memory, character).2
            == Ok::<Option<u32>, VoxamError>(Some(character)),
        character < 0x100 ==> match stream.holding {
            Holding::Memory { buf: Some(array), position } => position < array.count
                && array.settable(memory, position) ==> put_step(stream, memory, character).1
                == array.put(memory, position, character),
            _ => true,
        },
{
}

/// A character written to a memory stream reads back from the same
/// place: after a write at the stream's mark, a stream reading from
/// that mark gets the character a byte stream or a Unicode stream
/// keeps -- the character itself below 0x100 in either, and '?' past it
/// in a byte stream.
pub proof fn memory_streams_read_back(
    stream: StreamState,
    memory: MemoryState,
    character: u32,
    array: MemArray,
    position: u32,
)
    requires
        memory.wf(),
        stream.writable,
        stream.readable,
        stream.holding == (Holding::Memory { buf: Some(array), position }),
        position < array.count,
        array.settable(memory, position),
        stream.unicode ==> array.width == 4,
        !stream.unicode ==> array.width == 1,
    ensures
        ({
            let (written, after, _) = put_step(stream, memory, character);
            let rewound = StreamState { holding: Holding::Memory { buf: Some(array), position }, ..written };
            get_step(rewound, after).1 == Ok::<i64, VoxamError>(stored(stream.unicode, character) as i64)
        }),
{
    let c = stored(stream.unicode, character);
    let at = array.element(position);
    width_reads_back(memory.bytes, at as int, array.width, c);
    if !stream.unicode {
        assert(c < 256);
        assert(c % 256 == c);
    }
}

/// A split puts the sized box on the side its direction names, the
/// split's length along the axis and the whole box across it: against
/// the left edge for left, the right edge for right, the top for above,
/// the bottom for below. The other box takes the rest, and the two meet
/// where the sized one ends.
pub proof fn splits_sit_on_the_named_side(bbox: Box4, vertical: bool, backward: bool, split: int)
    requires
        bbox.0 <= bbox.2,
        bbox.1 <= bbox.3,
        0 <= split <= extent_of(bbox, vertical),
    ensures
        ({
            let (sized, other) = split_boxes(bbox, vertical, backward, split);
            &&& vertical && backward ==> sized.0 == bbox.0 && sized.2 == bbox.0 + split
                && other.0 == sized.2 && other.2 == bbox.2
            &&& vertical && !backward ==> sized.2 == bbox.2 && sized.0 == bbox.2 - split
                && other.0 == bbox.0 && other.2 == sized.0
            &&& !vertical && backward ==> sized.1 == bbox.1 && sized.3 == bbox.1 + split
                && other.1 == sized.3 && other.3 == bbox.3
            &&& !vertical && !backward ==> sized.3 == bbox.3 && sized.1 == bbox.3 - split
                && other.1 == bbox.1 && other.3 == sized.1
            &&& vertical ==> sized.1 == bbox.1 && sized.3 == bbox.3 && other.1 == bbox.1
                && other.3 == bbox.3
            &&& !vertical ==> sized.0 == bbox.0 && sized.2 == bbox.2 && other.0 == bbox.0
                && other.2 == bbox.2
        }),
{
}

/// A pair's split lies within its box: the point a split falls at is
/// never before the box's start nor past its extent.
pub proof fn splits_fall_inside(extent: int, size: u32, division: u32, key_extent: int)
    ensures
        0 <= split_at(extent, size, division, key_extent),
        extent >= 0 ==> split_at(extent, size, division, key_extent) <= extent,
        division != window_method::PROPORTIONAL && 0 <= key_extent <= extent ==> split_at(
            extent,
            size,
            division,
            key_extent,
        ) == key_extent,
{
}

/// A pair split by a method's direction puts its sized box on that
/// side of its box: a window opened above another takes the top of the
/// box, one below the bottom, one to the left the left edge, one to the
/// right the right edge; a proportional split takes the percentage of
/// the box, rounded down.
pub proof fn pairs_split_toward_their_direction(pair: PairData, method: u32, bbox: Box4, key_extent: int)
    requires
        pair.unpacks(method),
        bbox.0 <= bbox.2,
        bbox.1 <= bbox.3,
    ensures
        ({
            let extent = extent_of(bbox, pair.vertical);
            let split = split_at(extent, pair.size, pair.division, key_extent);
            let (sized, other) = split_boxes(bbox, pair.vertical, pair.backward, split);
            &&& pair.direction == window_method::ABOVE ==> sized.1 == bbox.1 && sized.3 - sized.1
                == split && other.3 == bbox.3 && sized.0 == bbox.0 && sized.2 == bbox.2
            &&& pair.direction == window_method::BELOW ==> sized.3 == bbox.3 && sized.3 - sized.1
                == split && other.1 == bbox.1 && sized.0 == bbox.0 && sized.2 == bbox.2
            &&& pair.direction == window_method::LEFT ==> sized.0 == bbox.0 && sized.2 - sized.0
                == split && other.2 == bbox.2 && sized.1 == bbox.1 && sized.3 == bbox.3
            &&& pair.direction == window_method::RIGHT ==> sized.2 == bbox.2 && sized.2 - sized.0
                == split && other.0 == bbox.0 && sized.1 == bbox.1 && sized.3 == bbox.3
            &&& pair.division == window_method::PROPORTIONAL && pair.size <= 100 ==> split == (
            extent * pair.size) / 100
        }),
{
    let extent = extent_of(bbox, pair.vertical);
    let split = split_at(extent, pair.size, pair.division, key_extent);
    splits_fall_inside(extent, pair.size, pair.division, key_extent);
    splits_sit_on_the_named_side(bbox, pair.vertical, pair.backward, split);
    if pair.division == window_method::PROPORTIONAL && pair.size <= 100 {
        assert(0 <= (extent * pair.size) / 100 <= extent) by (nonlinear_arith)
            requires
                extent >= 0,
                pair.size <= 100,
        ;
    }
}

/// A pair's method word, unpacked and recomposed, is the word's
/// direction, division, and border bits again.
pub proof fn methods_recompose(method: u32)
    ensures
        (method & window_method::DIR_MASK) | (method & window_method::DIVISION_MASK) | (if method
            & window_method::BORDER_MASK == window_method::BORDER {
            window_method::BORDER
        } else {
            window_method::NO_BORDER
        }) == method & 0x1FF,
{
    assert((method & 0x0F) | (method & 0xF0) | (if method & 0x100 == 0 {
        0u32
    } else {
        0x100u32
    }) == method & 0x1FF) by (bit_vector);
}

/// How a window holds its contents.
#[derive(Debug)]
pub enum WindowKind {
    /// A window that is always blank (Glk: Blank Windows).
    Blank,
    /// A scrolling text window (Glk: Text Buffer Windows).
    Buffer(BufferData),
    /// A character grid with a cursor (Glk: Text Grid Windows).
    Grid(GridData),
    /// A grid of pixels (Glk: Graphics Windows).
    Graphics(GraphicsData),
    /// An internal node: a split of two (Glk: Window Arrangement).
    Pair(PairData),
}

impl WindowKind {
    /// The type number of a window holding these contents (Glk: The
    /// Types of Windows).
    pub open spec fn type_of(self) -> u32 {
        match self {
            WindowKind::Blank => window_type::BLANK,
            WindowKind::Buffer(_) => window_type::TEXT_BUFFER,
            WindowKind::Grid(_) => window_type::TEXT_GRID,
            WindowKind::Graphics(_) => window_type::GRAPHICS,
            WindowKind::Pair(_) => window_type::PAIR,
        }
    }

    /// The window's type number (Glk: The Types of Windows).
    pub fn wintype(&self) -> (wintype: u32)
        ensures
            wintype == self.type_of(),
    {
        match self {
            WindowKind::Blank => window_type::BLANK,
            WindowKind::Buffer(_) => window_type::TEXT_BUFFER,
            WindowKind::Grid(_) => window_type::TEXT_GRID,
            WindowKind::Graphics(_) => window_type::GRAPHICS,
            WindowKind::Pair(_) => window_type::PAIR,
        }
    }
}

// -- other opaque classes ---------------------------------------------------
/// A reference to a file (Glk: File References).
#[derive(Debug, Clone, PartialEq, Eq)]
pub struct FileRef {
    /// The 32-bit value the game filed the reference under.
    pub rock: u32,
    /// Whether the reference has been destroyed.
    pub disposed: bool,
    /// The path the reference names.
    pub filename: String,
    /// What the file is for, masked to the type bits.
    pub usage: u32,
    /// Whether the file opens in text mode.
    pub text_mode: bool,
    /// Whether the file dies with the reference.
    pub temporary: bool,
}

impl FileRef {
    /// Record what the file is and how it is meant to open.
    pub fn new(filename: String, usage: u32, rock: u32, temporary: bool) -> (fileref: Self)
        ensures
            fileref.rock == rock,
            !fileref.disposed,
            fileref.filename@ == filename@,
            fileref.usage == usage & file_usage::TYPE_MASK,
            fileref.text_mode == (usage & file_usage::TEXT_MODE != 0),
            fileref.temporary == temporary,
    {
        FileRef {
            rock,
            disposed: false,
            filename,
            usage: usage & file_usage::TYPE_MASK,
            text_mode: usage & file_usage::TEXT_MODE != 0,
            temporary,
        }
    }
}

/// A sound channel (Glk: Sound).
#[derive(Debug, Clone, PartialEq, Eq, Structural)]
pub struct SoundChannel {
    /// The 32-bit value the game filed the channel under.
    pub rock: u32,
    /// Whether the channel has been destroyed.
    pub disposed: bool,
    /// As a fraction of 0x10000, which is full volume (Glk: Other
    /// Sound Channel Functions).
    pub volume: u32,
    /// The resource number playing, or 0 for silence.
    pub sound: u32,
    /// How many plays were asked for.
    pub repeats: u32,
    /// The nonzero value a finished play reports with.
    pub notify: u32,
    /// Whether the channel is paused.
    pub paused: bool,
}

impl SoundChannel {
    /// Open silent, at the volume asked for.
    pub fn new(volume: u32, rock: u32) -> (channel: Self)
        ensures
            channel == (SoundChannel {
                rock,
                disposed: false,
                volume,
                sound: 0,
                repeats: 0,
                notify: 0,
                paused: false,
            }),
    {
        SoundChannel { rock, disposed: false, volume, sound: 0, repeats: 0, notify: 0, paused: false }
    }
}

// -- events -----------------------------------------------------------------
/// One Glk event: the four fields of event_t (Glk: Events).
#[derive(Debug, Clone, Copy, PartialEq, Eq, Structural)]
pub struct Event {
    /// The event type -- event_t calls this field "type".
    pub kind: u32,
    /// The internal id of the window the event belongs to, or None.
    pub window: Option<u32>,
    /// The first value; meaning depends on the type.
    pub val1: u32,
    /// The second value.
    pub val2: u32,
}

impl Event {
    /// Build an event.
    pub fn new(kind: u32, window: Option<u32>, val1: u32, val2: u32) -> (event: Self)
        ensures
            event == (Event { kind, window, val1, val2 }),
    {
        Event { kind, window, val1, val2 }
    }

    /// The event that means "nothing happened".
    pub fn none() -> (event: Self)
        ensures
            event == (Event { kind: event_type::NONE, window: None, val1: 0, val2: 0 }),
    {
        Self::new(event_type::NONE, None, 0, 0)
    }
}

// -- streams ----------------------------------------------------------------
/// The UTF-8 bytes of a Unicode scalar value.
pub open spec fn utf8_encoding(c: u32) -> Seq<u8> {
    if c < 0x80 {
        seq![c as u8]
    } else if c < 0x800 {
        seq![(0xC0 + c / 64) as u8, (0x80 + c % 64) as u8]
    } else if c < 0x10000 {
        seq![(0xE0 + c / 4096) as u8, (0x80 + (c / 64) % 64) as u8, (0x80 + c % 64) as u8]
    } else {
        seq![
            (0xF0 + c / 262144) as u8,
            (0x80 + (c / 4096) % 64) as u8,
            (0x80 + (c / 64) % 64) as u8,
            (0x80 + c % 64) as u8,
        ]
    }
}

/// Whether a byte continues a UTF-8 sequence.
pub open spec fn continues(byte: u8) -> bool {
    0x80 <= byte <= 0xBF
}

/// The scalar value bytes encode, where they are the well-formed
/// UTF-8 of exactly one: the shortest form, no surrogate, nothing
/// past 0x10FFFF.
pub open spec fn utf8_scalar(bytes: Seq<u8>) -> Option<u32> {
    if bytes.len() == 1 && bytes[0] < 0x80 {
        Some(bytes[0] as u32)
    } else if bytes.len() == 2 && 0xC0 <= bytes[0] <= 0xDF && continues(bytes[1]) {
        let value = (bytes[0] - 0xC0) * 64 + (bytes[1] - 0x80);
        if value >= 0x80 {
            Some(value as u32)
        } else {
            None
        }
    } else if bytes.len() == 3 && 0xE0 <= bytes[0] <= 0xEF && continues(bytes[1]) && continues(
        bytes[2],
    ) {
        let value = (bytes[0] - 0xE0) * 4096 + (bytes[1] - 0x80) * 64 + (bytes[2] - 0x80);
        if value >= 0x800 && !(0xD800 <= value <= 0xDFFF) {
            Some(value as u32)
        } else {
            None
        }
    } else if bytes.len() == 4 && 0xF0 <= bytes[0] <= 0xF7 && continues(bytes[1]) && continues(
        bytes[2],
    ) && continues(bytes[3]) {
        let value = (bytes[0] - 0xF0) * 262144 + (bytes[1] - 0x80) * 4096 + (bytes[2] - 0x80) * 64
            + (bytes[3] - 0x80);
        if 0x10000 <= value <= 0x10FFFF {
            Some(value as u32)
        } else {
            None
        }
    } else {
        None
    }
}

/// How many bytes follow a UTF-8 lead byte, or none for a byte that
/// cannot lead.
pub open spec fn trailing(lead: u8) -> Option<nat> {
    if lead < 0x80 {
        Some(0)
    } else if lead >= 0xF0 {
        Some(3)
    } else if lead >= 0xE0 {
        Some(2)
    } else if lead >= 0xC0 {
        Some(1)
    } else {
        None
    }
}

/// A big-endian value of up to four bytes.
pub open spec fn be_value(bytes: Seq<u8>) -> u32
    decreases bytes.len(),
{
    if bytes.len() == 0 {
        0
    } else {
        ((be_value(bytes.drop_last()) as int * 256 + bytes.last() as int) % 0x1_0000_0000) as u32
    }
}

/// The four big-endian bytes of a word.
pub open spec fn be_bytes(value: u32) -> Seq<u8> {
    seq![
        (value / 16777216) as u8,
        ((value / 65536) % 256) as u8,
        ((value / 256) % 256) as u8,
        (value % 256) as u8,
    ]
}

/// Bytes after a write at a mark: laid in there, the gap before it
/// (if the mark is past the end) filled with zeroes.
pub open spec fn laid(bytes: Seq<u8>, at: nat, data: Seq<u8>) -> Seq<u8> {
    let end = if at + data.len() > bytes.len() {
        at + data.len()
    } else {
        bytes.len() as nat
    };
    Seq::new(
        end,
        |i: int|
            if at <= i < at + data.len() {
                data[i - at]
            } else if i < bytes.len() {
                bytes[i]
            } else {
                0u8
            },
    )
}

/// The bytes a read of a count takes from a mark: as many as there
/// are, up to the count.
pub open spec fn taken(bytes: Seq<u8>, at: nat, count: nat) -> Seq<u8> {
    if at >= bytes.len() {
        Seq::empty()
    } else if at + count > bytes.len() {
        bytes.subrange(at as int, bytes.len() as int)
    } else {
        bytes.subrange(at as int, (at + count) as int)
    }
}

/// The bytes behind a file stream and its mark.
///
/// A file stream reads and writes these bytes: resource data as it
/// stands, or what a file held when it was opened. Writing past the
/// end grows them, with zeroes across any gap; seeking anywhere at or
/// past the start is allowed.
#[derive(Debug)]
pub struct FileHandle {
    pub bytes: Vec<u8>,
    pub position: u64,
}

impl FileHandle {
    /// Lay bytes in at the mark and move past them.
    fn write_bytes(&mut self, data: &[u8])
        requires
            old(self).position + data@.len() <= usize::MAX,
        ensures
            final(self).bytes@ == laid(old(self).bytes@, old(self).position as nat, data@),
            final(self).position == old(self).position + data@.len(),
    {
        let at = self.position as usize;
        let ghost start = self.bytes@;
        while self.bytes.len() < at
            invariant
                self.bytes@.len() <= at || self.bytes@.len() == start.len(),
                self.bytes@ == Seq::new(
                    self.bytes@.len(),
                    |i: int|
                        if i < start.len() {
                            start[i]
                        } else {
                            0u8
                        },
                ),
                self.bytes@.len() >= start.len(),
                self.position == old(self).position,
                at == self.position,
            decreases at - self.bytes.len(),
        {
            self.bytes.push(0);
            proof {
                assert(self.bytes@ =~= Seq::new(
                    self.bytes@.len(),
                    |i: int|
                        if i < start.len() {
                            start[i]
                        } else {
                            0u8
                        },
                ));
            }
        }
        let mut index: usize = 0;
        while index < data.len()
            invariant
                index <= data@.len(),
                at + data@.len() <= usize::MAX,
                at == old(self).position,
                self.position == old(self).position,
                self.bytes@ == laid(start, at as nat, data@.take(index as int)),
            decreases data.len() - index,
        {
            let ghost before = self.bytes@;
            if at + index < self.bytes.len() {
                self.bytes.set(at + index, data[index]);
            } else {
                self.bytes.push(data[index]);
            }
            index += 1;
            proof {
                assert(self.bytes@ =~= laid(start, at as nat, data@.take(index as int)));
            }
        }
        proof {
            assert(data@.take(data@.len() as int) =~= data@);
        }
        self.position = self.position + data.len() as u64;
    }

    /// Read up to a count of bytes from the mark and move past them.
    fn read_bytes(&mut self, count: usize) -> (data: Vec<u8>)
        ensures
            data@ == taken(old(self).bytes@, old(self).position as nat, count as nat),
            final(self).bytes == old(self).bytes,
            final(self).position == old(self).position + data@.len(),
    {
        let mut data: Vec<u8> = Vec::new();
        if self.position >= self.bytes.len() as u64 {
            return data;
        }
        let at = self.position as usize;
        let end = if count > self.bytes.len() - at {
            self.bytes.len()
        } else {
            at + count
        };
        let mut index = at;
        while index < end
            invariant
                at <= index <= end <= self.bytes@.len(),
                data@ == self.bytes@.subrange(at as int, index as int),
            decreases end - index,
        {
            data.push(self.bytes[index]);
            index += 1;
            proof {
                assert(data@ =~= self.bytes@.subrange(at as int, index as int));
            }
        }
        self.position = end as u64;
        data
    }
}

/// How a stream holds its characters.
#[derive(Debug)]
pub enum StreamKind {
    /// A window's output stream, never readable (Glk: Window
    /// Streams); the window's internal id. Emitted characters are
    /// handed back for the window to take.
    Window(u32),
    /// A stream over an array in the game's memory (Glk: Memory
    /// Streams). A null buffer is legal: the stream then discards
    /// writes but still counts them, which is how a game measures
    /// output length.
    Memory { buf: Option<MemArray>, position: u32 },
    /// A stream over a file's bytes, or over resource bytes (Glk: File
    /// Streams, Glk: Resource Streams). A byte stream holds one
    /// Latin-1 byte per character in either mode; a Unicode stream
    /// holds four-byte big-endian words in binary mode and UTF-8, with
    /// no byte-order mark, in text mode.
    File { handle: FileHandle, utf8: bool, width: u32 },
}

/// A stream: a sink, a source, or both (Glk: Streams).
#[derive(Debug)]
pub struct Stream {
    /// The 32-bit value the game filed the stream under (Glk: Rocks).
    pub rock: u32,
    /// Whether the stream has been destroyed.
    pub disposed: bool,
    /// Whether characters can be read from it.
    pub readable: bool,
    /// Whether characters can be written to it.
    pub writable: bool,
    /// Whether it holds full words; a byte stream substitutes '?' for
    /// anything above 0xFF (Glk: Output).
    pub unicode: bool,
    /// Characters read so far.
    pub readcount: u32,
    /// Characters written so far, discards included.
    pub writecount: u32,
    /// The link value written output belongs to; zero means "not a
    /// link" (Glk: Creating Hyperlinks).
    pub hyperlink: u32,
    /// How the characters are held.
    pub kind: StreamKind,
}

/// How a stream holds its characters, as a mathematical value.
pub enum Holding {
    Window(u32),
    Memory { buf: Option<MemArray>, position: u32 },
    File { bytes: Seq<u8>, position: u64, utf8: bool, width: u32 },
}

/// A stream as a mathematical value.
pub struct StreamState {
    pub rock: u32,
    pub disposed: bool,
    pub readable: bool,
    pub writable: bool,
    pub unicode: bool,
    pub readcount: u32,
    pub writecount: u32,
    pub hyperlink: u32,
    pub holding: Holding,
}

impl View for Stream {
    type V = StreamState;

    open spec fn view(&self) -> StreamState {
        StreamState {
            rock: self.rock,
            disposed: self.disposed,
            readable: self.readable,
            writable: self.writable,
            unicode: self.unicode,
            readcount: self.readcount,
            writecount: self.writecount,
            hyperlink: self.hyperlink,
            holding: match self.kind {
                StreamKind::Window(window) => Holding::Window(window),
                StreamKind::Memory { buf, position } => Holding::Memory { buf, position },
                StreamKind::File { handle, utf8, width } => Holding::File {
                    bytes: handle.bytes@,
                    position: handle.position,
                    utf8,
                    width,
                },
            },
        }
    }
}

/// Whether a file mode reads.
pub open spec fn reads(fmode: u32) -> bool {
    fmode == file_mode::READ || fmode == file_mode::READ_WRITE
}

/// Whether a file mode writes.
pub open spec fn writes(fmode: u32) -> bool {
    fmode == file_mode::WRITE || fmode == file_mode::READ_WRITE || fmode
        == file_mode::WRITE_APPEND
}

fn mode_readable(fmode: u32) -> (readable: bool)
    ensures
        readable == reads(fmode),
{
    fmode == file_mode::READ || fmode == file_mode::READ_WRITE
}

fn mode_writable(fmode: u32) -> (writable: bool)
    ensures
        writable == writes(fmode),
{
    fmode == file_mode::WRITE || fmode == file_mode::READ_WRITE || fmode
        == file_mode::WRITE_APPEND
}

/// What a stream stores for a character: a byte stream takes '?' for
/// anything past 0xFF.
pub open spec fn stored(unicode: bool, character: u32) -> u32 {
    if !unicode && character >= 0x100 {
        UNPRINTABLE
    } else {
        character
    }
}

/// The value of the character a Glulx value renders as.
pub open spec fn shown(character: u32) -> u32 {
    if is_scalar(character) {
        character
    } else {
        UNPRINTABLE
    }
}

/// The bytes a file stream writes for a character: its UTF-8 in a
/// text-mode Unicode stream, one byte in a byte stream, four
/// big-endian bytes otherwise.
pub open spec fn file_bytes(utf8: bool, width: u32, character: u32) -> Seq<u8> {
    if utf8 {
        utf8_encoding(shown(character))
    } else if width == 1 {
        seq![(character % 256) as u8]
    } else {
        be_bytes(character)
    }
}

/// A stream, memory, and answer after a character is written.
///
/// An unwritable stream takes nothing and counts nothing. Otherwise
/// the write is counted before anything else -- "it will count the
/// number of characters written into the stream, not the number that
/// fit" (Glk: Memory Streams). A window stream hands the character
/// back; a memory stream stores it while it fits and advances its
/// mark regardless; a file stream lays its bytes in at the mark.
pub open spec fn put_step(stream: StreamState, memory: MemoryState, character: u32) -> (
    StreamState,
    MemoryState,
    Result<Option<u32>, VoxamError>,
) {
    if !stream.writable {
        (stream, memory, Ok(None))
    } else {
        let c = stored(stream.unicode, character);
        let counted = StreamState {
            writecount: vstd::wrapping::u32_specs::wrapping_add(stream.writecount, 1),
            ..stream
        };
        match stream.holding {
            Holding::Window(_) => (counted, memory, Ok(Some(c))),
            Holding::Memory { buf, position } => {
                let moved = StreamState {
                    holding: Holding::Memory {
                        buf,
                        position: vstd::wrapping::u32_specs::wrapping_add(position, 1),
                    },
                    ..counted
                };
                match buf {
                    Some(array) => if position < array.count {
                        if array.settable(memory, position) {
                            (moved, array.put(memory, position, c), Ok(None))
                        } else {
                            (counted, memory, Err(refusal(array.element(position), memory.ramstart)))
                        }
                    } else {
                        (moved, memory, Ok(None))
                    },
                    None => (moved, memory, Ok(None)),
                }
            },
            Holding::File { bytes, position, utf8, width } => {
                let data = file_bytes(utf8, width, c);
                (
                    StreamState {
                        holding: Holding::File {
                            bytes: laid(bytes, position as nat, data),
                            position: (position + data.len()) as u64,
                            utf8,
                            width,
                        },
                        ..counted
                    },
                    memory,
                    Ok(None),
                )
            },
        }
    }
}

/// A file stream's mark moved, and a value read, counted where it is
/// a character rather than the end.
pub open spec fn after_read(stream: StreamState, position: u64, value: i64) -> (StreamState, Result<
    i64,
    VoxamError,
>) {
    let moved = match stream.holding {
        Holding::File { bytes, utf8, width, .. } => Holding::File { bytes, position, utf8, width },
        _ => stream.holding,
    };
    (
        StreamState {
            holding: moved,
            readcount: if value >= 0 {
                vstd::wrapping::u32_specs::wrapping_add(stream.readcount, 1)
            } else {
                stream.readcount
            },
            ..stream
        },
        Ok(value),
    )
}

/// The character a UTF-8 file stream reads at a mark, and where the
/// mark goes: one sequence, its length read off the lead byte. Damaged
/// UTF-8 -- a stray continuation byte, or a sequence the bytes end in
/// the middle of -- reads as '?'; the end reads as -1.
pub open spec fn utf8_read(bytes: Seq<u8>, position: u64) -> (u64, i64) {
    if position >= bytes.len() {
        (position, -1i64)
    } else {
        let lead = bytes[position as int];
        match trailing(lead) {
            None => ((position + 1) as u64, UNPRINTABLE as i64),
            Some(extra) => if extra == 0 {
                ((position + 1) as u64, lead as i64)
            } else {
                let rest = taken(bytes, (position + 1) as nat, extra);
                let value = match utf8_scalar(seq![lead] + rest) {
                    Some(value) => value,
                    None => UNPRINTABLE,
                };
                ((position + 1 + rest.len()) as u64, value as i64)
            },
        }
    }
}

/// A stream, and the answer, after a character is read: -1 at the end
/// and from a stream that cannot be read.
pub open spec fn get_step(stream: StreamState, memory: MemoryState) -> (StreamState, Result<
    i64,
    VoxamError,
>) {
    if !stream.readable {
        (stream, Ok(-1i64))
    } else {
        match stream.holding {
            Holding::Window(_) => (stream, Ok(-1i64)),
            Holding::Memory { buf, position } => match buf {
                Some(array) => if position < array.count {
                    match array.got(memory, position) {
                        Ok(value) => (
                            StreamState {
                                holding: Holding::Memory { buf, position: (position + 1) as u32 },
                                readcount: vstd::wrapping::u32_specs::wrapping_add(
                                    stream.readcount,
                                    1,
                                ),
                                ..stream
                            },
                            Ok(value as i64),
                        ),
                        Err(error) => (stream, Err(error)),
                    }
                } else {
                    (stream, Ok(-1i64))
                },
                None => (stream, Ok(-1i64)),
            },
            Holding::File { bytes, position, utf8, width } => if utf8 {
                let (moved, value) = utf8_read(bytes, position);
                after_read(stream, moved, value)
            } else {
                let got = taken(bytes, position as nat, width as nat);
                let moved = (position + got.len()) as u64;
                if got.len() < width {
                    after_read(stream, moved, -1i64)
                } else {
                    after_read(stream, moved, be_value(got) as i64)
                }
            },
        }
    }
}

/// Whether a stream can take one more character without its mark
/// running off the end of the address space.
pub open spec fn has_room(stream: StreamState) -> bool {
    match stream.holding {
        Holding::File { position, .. } => position + 4 <= usize::MAX,
        _ => true,
    }
}

/// Whether a stream's reads fit their scratch space: a file stream
/// reads at most four bytes a character.
pub open spec fn readable_width(stream: StreamState) -> bool {
    match stream.holding {
        Holding::File { width, .. } => width <= 4,
        _ => true,
    }
}

/// A stream, memory, and answer after a buffer is filled from the
/// stream, from an element on: until the buffer or the stream runs
/// out, no terminal null placed (Glk: How To Read).
pub open spec fn buffer_filled(
    stream: StreamState,
    memory: MemoryState,
    target: MemArray,
    index: nat,
) -> (StreamState, MemoryState, Result<u32, VoxamError>)
    decreases target.count - index,
{
    if index >= target.count {
        (stream, memory, Ok(target.count))
    } else {
        let (read, answer) = get_step(stream, memory);
        match answer {
            Err(error) => (read, memory, Err(error)),
            Ok(value) => if value < 0 {
                (read, memory, Ok(index as u32))
            } else if !target.settable(memory, index as u32) {
                (read, memory, Err(refusal(target.element(index as u32), memory.ramstart)))
            } else {
                buffer_filled(
                    read,
                    target.put(memory, index as u32, value as u32),
                    target,
                    index + 1,
                )
            },
        }
    }
}

/// A line read so far, terminated: the null laid in after it.
pub open spec fn line_ended(
    stream: StreamState,
    memory: MemoryState,
    target: MemArray,
    count: nat,
) -> (StreamState, MemoryState, Result<u32, VoxamError>) {
    if target.settable(memory, count as u32) {
        (stream, target.put(memory, count as u32, 0), Ok(count as u32))
    } else {
        (stream, memory, Err(refusal(target.element(count as u32), memory.ramstart)))
    }
}

/// A stream, memory, and answer after a line is read on, from a count
/// of characters stored: up to one less than the buffer holds, through
/// a newline if one comes, then terminated (Glk: How To Read).
pub open spec fn line_read(
    stream: StreamState,
    memory: MemoryState,
    target: MemArray,
    count: nat,
) -> (StreamState, MemoryState, Result<u32, VoxamError>)
    decreases target.count - count,
{
    if count + 1 >= target.count {
        line_ended(stream, memory, target, count)
    } else {
        let (read, answer) = get_step(stream, memory);
        match answer {
            Err(error) => (read, memory, Err(error)),
            Ok(value) => if value < 0 {
                line_ended(read, memory, target, count)
            } else if !target.settable(memory, count as u32) {
                (read, memory, Err(refusal(target.element(count as u32), memory.ramstart)))
            } else if value == NEWLINE {
                line_ended(read, target.put(memory, count as u32, value as u32), target, count + 1)
            } else {
                line_read(read, target.put(memory, count as u32, value as u32), target, count + 1)
            },
        }
    }
}

/// Where a memory stream's mark lands: measured from the start, the
/// mark, or the end, and clamped to the buffer.
pub open spec fn memory_sought(mark: u32, capacity: u32, position: i64, mode: u32) -> u32 {
    let sought = if mode == seek_mode::CURRENT {
        position + mark
    } else if mode == seek_mode::END {
        position + capacity
    } else {
        position as int
    };
    if sought < 0 {
        0
    } else if sought > capacity {
        capacity
    } else {
        sought as u32
    }
}

/// Where a file stream's mark lands, or nothing for a position before
/// the start; an unknown mode measures from the start, where a negative
/// position means the start itself.
pub open spec fn file_sought(mark: u64, length: nat, position: i64, mode: u32) -> Option<u64> {
    let sought = if mode == seek_mode::CURRENT {
        mark + position
    } else if mode == seek_mode::END {
        length + position
    } else if position < 0 {
        0
    } else {
        position as int
    };
    if 0 <= sought <= u64::MAX {
        Some(sought as u64)
    } else {
        None
    }
}

/// Whether a seek's arithmetic stays in range: a memory stream measures
/// from its mark or end in 64 bits.
pub open spec fn seek_fits(stream: StreamState, position: i64) -> bool {
    match stream.holding {
        Holding::Memory { .. } => i64::MIN + 0xFFFF_FFFF <= position <= i64::MAX - 0xFFFF_FFFF,
        _ => true,
    }
}

/// The UTF-8 bytes of a scalar value.
fn encode_utf8(c: u32) -> (bytes: Vec<u8>)
    requires
        c <= 0x10FFFF,
    ensures
        bytes@ == utf8_encoding(c),
{
    let mut bytes: Vec<u8> = Vec::new();
    if c < 0x80 {
        bytes.push(c as u8);
    } else if c < 0x800 {
        bytes.push((0xC0 + c / 64) as u8);
        bytes.push((0x80 + c % 64) as u8);
    } else if c < 0x10000 {
        bytes.push((0xE0 + c / 4096) as u8);
        bytes.push((0x80 + (c / 64) % 64) as u8);
        bytes.push((0x80 + c % 64) as u8);
    } else {
        bytes.push((0xF0 + c / 262144) as u8);
        bytes.push((0x80 + (c / 4096) % 64) as u8);
        bytes.push((0x80 + (c / 64) % 64) as u8);
        bytes.push((0x80 + c % 64) as u8);
    }
    proof {
        assert(bytes@ =~= utf8_encoding(c));
    }
    bytes
}

/// The scalar value bytes encode as UTF-8, where they are well formed.
fn decode_utf8(bytes: &Vec<u8>) -> (value: Option<u32>)
    ensures
        value == utf8_scalar(bytes@),
{
    let length = bytes.len();
    if length == 1 && bytes[0] < 0x80 {
        Some(bytes[0] as u32)
    } else if length == 2 && 0xC0 <= bytes[0] && bytes[0] <= 0xDF && 0x80 <= bytes[1] && bytes[1]
        <= 0xBF {
        let value = (bytes[0] as u32 - 0xC0) * 64 + (bytes[1] as u32 - 0x80);
        if value >= 0x80 {
            Some(value)
        } else {
            None
        }
    } else if length == 3 && 0xE0 <= bytes[0] && bytes[0] <= 0xEF && 0x80 <= bytes[1] && bytes[1]
        <= 0xBF && 0x80 <= bytes[2] && bytes[2] <= 0xBF {
        let value = (bytes[0] as u32 - 0xE0) * 4096 + (bytes[1] as u32 - 0x80) * 64 + (bytes[2] as u32
            - 0x80);
        if value >= 0x800 && !(0xD800 <= value && value <= 0xDFFF) {
            Some(value)
        } else {
            None
        }
    } else if length == 4 && 0xF0 <= bytes[0] && bytes[0] <= 0xF7 && 0x80 <= bytes[1] && bytes[1]
        <= 0xBF && 0x80 <= bytes[2] && bytes[2] <= 0xBF && 0x80 <= bytes[3] && bytes[3] <= 0xBF {
        let value = (bytes[0] as u32 - 0xF0) * 262144 + (bytes[1] as u32 - 0x80) * 4096 + (bytes[2] as u32
            - 0x80) * 64 + (bytes[3] as u32 - 0x80);
        if 0x10000 <= value && value <= 0x10FFFF {
            Some(value)
        } else {
            None
        }
    } else {
        None
    }
}

/// A big-endian value of the bytes read.
fn be_of(bytes: &Vec<u8>) -> (value: u32)
    ensures
        value == be_value(bytes@),
{
    let mut value: u32 = 0;
    let mut index: usize = 0;
    while index < bytes.len()
        invariant
            index <= bytes@.len(),
            value == be_value(bytes@.take(index as int)),
        decreases bytes.len() - index,
    {
        let byte = bytes[index];
        proof {
            assert(bytes@.take(index + 1).drop_last() =~= bytes@.take(index as int));
            assert(((value % 0x100_0000) * 256 + byte) == ((value as int * 256 + byte as int)
                % 0x1_0000_0000)) by (nonlinear_arith)
                requires
                    byte < 256,
            ;
        }
        value = (value % 0x100_0000) * 256 + byte as u32;
        index += 1;
    }
    proof {
        assert(bytes@.take(bytes@.len() as int) =~= bytes@);
    }
    value
}

/// The bytes a file stream writes for a character.
fn file_bytes_of(utf8: bool, width: u32, character: u32) -> (bytes: Vec<u8>)
    ensures
        bytes@ == file_bytes(utf8, width, character),
{
    if utf8 {
        let value = if character > MAX_UNICODE || (SURROGATE_FIRST <= character && character
            <= SURROGATE_LAST) {
            UNPRINTABLE
        } else {
            character
        };
        encode_utf8(value)
    } else if width == 1 {
        let mut bytes: Vec<u8> = Vec::new();
        bytes.push((character % 256) as u8);
        proof {
            assert(bytes@ =~= file_bytes(utf8, width, character));
        }
        bytes
    } else {
        let mut bytes: Vec<u8> = Vec::new();
        bytes.push((character / 16777216) as u8);
        bytes.push(((character / 65536) % 256) as u8);
        bytes.push(((character / 256) % 256) as u8);
        bytes.push((character % 256) as u8);
        proof {
            assert(bytes@ =~= file_bytes(utf8, width, character));
        }
        bytes
    }
}

/// Decode one UTF-8 sequence at a file's mark, one byte at a time.
///
/// The length is read off the leading byte rather than decoding the
/// whole file, because a stream may be positioned anywhere and the
/// caller wants exactly one character.
fn read_utf8(handle: &mut FileHandle) -> (value: i64)
    ensures
        (final(handle).position, value) == utf8_read(old(handle).bytes@, old(handle).position),
        final(handle).bytes == old(handle).bytes,
{
    let first = handle.read_bytes(1);
    if first.len() == 0 {
        return -1;
    }
    let lead = first[0];
    if lead < 0x80 {
        return lead as i64;
    }
    let extra: usize = if lead >= 0xF0 {
        3
    } else if lead >= 0xE0 {
        2
    } else if lead >= 0xC0 {
        1
    } else {
        // A stray continuation byte.
        return UNPRINTABLE as i64;
    };
    let rest = handle.read_bytes(extra);
    let mut sequence: Vec<u8> = Vec::new();
    sequence.push(lead);
    let mut index: usize = 0;
    while index < rest.len()
        invariant
            index <= rest@.len(),
            sequence@ == seq![lead] + rest@.take(index as int),
        decreases rest.len() - index,
    {
        sequence.push(rest[index]);
        index += 1;
        proof {
            assert(sequence@ =~= seq![lead] + rest@.take(index as int));
        }
    }
    proof {
        assert(rest@.take(rest@.len() as int) =~= rest@);
    }
    match decode_utf8(&sequence) {
        Some(value) => value as i64,
        None => UNPRINTABLE as i64,
    }
}

impl Stream {
    /// A window's output stream: always writable, always Unicode.
    pub fn window(window: u32) -> (stream: Self)
        ensures
            stream@ == (StreamState {
                rock: 0,
                disposed: false,
                readable: false,
                writable: true,
                unicode: true,
                readcount: 0,
                writecount: 0,
                hyperlink: 0,
                holding: Holding::Window(window),
            }),
    {
        Stream {
            rock: 0,
            disposed: false,
            readable: false,
            writable: true,
            unicode: true,
            readcount: 0,
            writecount: 0,
            hyperlink: 0,
            kind: StreamKind::Window(window),
        }
    }

    /// A stream over game memory, in a file mode's directions.
    pub fn memory(buf: Option<MemArray>, fmode: u32, rock: u32, unicode: bool) -> (stream: Self)
        ensures
            stream@ == (StreamState {
                rock,
                disposed: false,
                readable: reads(fmode),
                writable: writes(fmode),
                unicode,
                readcount: 0,
                writecount: 0,
                hyperlink: 0,
                holding: Holding::Memory { buf, position: 0 },
            }),
    {
        Stream {
            rock,
            disposed: false,
            readable: mode_readable(fmode),
            writable: mode_writable(fmode),
            unicode,
            readcount: 0,
            writecount: 0,
            hyperlink: 0,
            kind: StreamKind::Memory { buf, position: 0 },
        }
    }

    /// A stream over a file's bytes, in a file mode's directions: UTF-8
    /// for a Unicode stream in text mode, words for one in binary mode,
    /// bytes otherwise.
    pub fn file(handle: FileHandle, fmode: u32, rock: u32, unicode: bool, text_mode: bool) -> (stream:
        Self)
        ensures
            stream@ == (StreamState {
                rock,
                disposed: false,
                readable: reads(fmode),
                writable: writes(fmode),
                unicode,
                readcount: 0,
                writecount: 0,
                hyperlink: 0,
                holding: Holding::File {
                    bytes: handle.bytes@,
                    position: handle.position,
                    utf8: unicode && text_mode,
                    width: if unicode && !text_mode {
                        4
                    } else {
                        1
                    },
                },
            }),
    {
        Stream {
            rock,
            disposed: false,
            readable: mode_readable(fmode),
            writable: mode_writable(fmode),
            unicode,
            readcount: 0,
            writecount: 0,
            hyperlink: 0,
            kind: StreamKind::File {
                handle,
                utf8: unicode && text_mode,
                width: if unicode && !text_mode {
                    4
                } else {
                    1
                },
            },
        }
    }

    /// Write one character, counting it even if it goes nowhere.
    ///
    /// A window stream hands the character back for its window to
    /// take: Some means "deliver this to my window".
    pub fn put_char(&mut self, memory: &mut Memory, character: u32) -> (result: Result<
        Option<u32>,
        VoxamError,
    >)
        requires
            old(memory)@.wf(),
            has_room(old(self)@),
        ensures
            final(memory)@.wf(),
            (final(self)@, final(memory)@, result) == put_step(old(self)@, old(memory)@, character),
    {
        if !self.writable {
            return Ok(None);
        }
        let c = if !self.unicode && character >= BYTE_LIMIT {
            UNPRINTABLE
        } else {
            character
        };
        self.writecount = self.writecount.wrapping_add(1);
        match &mut self.kind {
            StreamKind::Window(_) => {
                return Ok(Some(c));
            },
            StreamKind::Memory { buf, position } => {
                // Store within the buffer; advance past its end regardless:
                // the position advancing past the end is what lets a game
                // discover how much output it would have produced.
                match *buf {
                    Some(array) => {
                        if *position < array.count {
                            match array.set(memory, *position, c) {
                                Ok(()) => {},
                                Err(error) => {
                                    return Err(error);
                                },
                            }
                        }
                    },
                    None => {},
                }
                *position = position.wrapping_add(1);
            },
            StreamKind::File { handle, utf8, width } => {
                let data = file_bytes_of(*utf8, *width, c);
                handle.write_bytes(data.as_slice());
            },
        }
        Ok(None)
    }

    /// Read one character, or -1 at end of stream.
    pub fn get_char(&mut self, memory: &Memory) -> (result: Result<i64, VoxamError>)
        requires
            memory@.wf(),
            readable_width(old(self)@),
        ensures
            (final(self)@, result) == get_step(old(self)@, memory@),
    {
        if !self.readable {
            return Ok(-1);
        }
        let value: i64 = match &mut self.kind {
            StreamKind::Window(_) => -1,
            StreamKind::Memory { buf, position } => match *buf {
                Some(array) => if *position < array.count {
                    match array.get(memory, *position) {
                        Ok(value) => {
                            *position = *position + 1;
                            value as i64
                        },
                        Err(error) => {
                            return Err(error);
                        },
                    }
                } else {
                    -1
                },
                None => -1,
            },
            StreamKind::File { handle, utf8, width } => {
                if *utf8 {
                    read_utf8(handle)
                } else {
                    let wanted = *width as usize;
                    let got = handle.read_bytes(wanted);
                    if got.len() < wanted {
                        -1
                    } else {
                        be_of(&got) as i64
                    }
                }
            },
        };
        if value >= 0 {
            self.readcount = self.readcount.wrapping_add(1);
        }
        Ok(value)
    }

    /// Fill a buffer; return how many characters were read. No
    /// terminal null is placed (Glk: How To Read).
    pub fn get_buffer(&mut self, memory: &mut Memory, target: MemArray) -> (result: Result<
        u32,
        VoxamError,
    >)
        requires
            old(memory)@.wf(),
            readable_width(old(self)@),
        ensures
            final(memory)@.wf(),
            (final(self)@, final(memory)@, result) == buffer_filled(
                old(self)@,
                old(memory)@,
                target,
                0,
            ),
    {
        let mut index: u32 = 0;
        while index < target.count
            invariant
                memory@.wf(),
                readable_width(self@),
                index <= target.count,
                buffer_filled(self@, memory@, target, index as nat) == buffer_filled(
                    old(self)@,
                    old(memory)@,
                    target,
                    0,
                ),
            decreases target.count - index,
        {
            let value = match self.get_char(memory) {
                Ok(value) => value,
                Err(error) => {
                    return Err(error);
                },
            };
            if value < 0 {
                return Ok(index);
            }
            match target.set(memory, index, value as u32) {
                Ok(()) => {},
                Err(error) => {
                    return Err(error);
                },
            }
            index += 1;
        }
        Ok(index)
    }

    /// Read up to a newline, null-terminating; return the length.
    ///
    /// At most one less than the buffer's capacity is stored, the
    /// newline is kept if one is read, and the result is always
    /// terminated -- the terminal null not counted (Glk: How To Read).
    pub fn get_line(&mut self, memory: &mut Memory, target: MemArray) -> (result: Result<
        u32,
        VoxamError,
    >)
        requires
            old(memory)@.wf(),
            readable_width(old(self)@),
        ensures
            final(memory)@.wf(),
            (final(self)@, final(memory)@, result) == if target.count == 0 {
                (old(self)@, old(memory)@, Ok(0u32))
            } else {
                line_read(old(self)@, old(memory)@, target, 0)
            },
    {
        if target.count == 0 {
            return Ok(0);
        }
        let mut count: u32 = 0;
        while count < target.count - 1
            invariant_except_break
                line_read(self@, memory@, target, count as nat) == line_read(
                    old(self)@,
                    old(memory)@,
                    target,
                    0,
                ),
            invariant
                memory@.wf(),
                readable_width(self@),
                target.count > 0,
                count < target.count,
            ensures
                line_ended(self@, memory@, target, count as nat) == line_read(
                    old(self)@,
                    old(memory)@,
                    target,
                    0,
                ),
            decreases target.count - count,
        {
            let value = match self.get_char(memory) {
                Ok(value) => value,
                Err(error) => {
                    return Err(error);
                },
            };
            if value < 0 {
                break;
            }
            match target.set(memory, count, value as u32) {
                Ok(()) => {},
                Err(error) => {
                    return Err(error);
                },
            }
            count += 1;
            if value == NEWLINE as i64 {
                break;
            }
        }
        match target.set(memory, count, 0) {
            Ok(()) => Ok(count),
            Err(error) => Err(error),
        }
    }

    /// The stream's mark; zero where seeking is meaningless.
    pub fn get_position(&mut self) -> (result: Result<u32, VoxamError>)
        ensures
            final(self)@ == old(self)@,
            result == Ok::<u32, VoxamError>(
                match old(self)@.holding {
                    Holding::Window(_) => 0,
                    Holding::Memory { position, .. } => position,
                    Holding::File { position, .. } => (position % 0x1_0000_0000) as u32,
                },
            ),
    {
        match &self.kind {
            StreamKind::Window(_) => Ok(0),
            StreamKind::Memory { position, .. } => Ok(*position),
            StreamKind::File { handle, .. } => Ok((handle.position % 0x1_0000_0000) as u32),
        }
    }

    /// Move the mark. Window streams have no position at all (Glk:
    /// Stream Positions), so there it is ignored; a memory stream
    /// clamps to its buffer; a file stream refuses a position before
    /// its start, and an unknown mode measures from the start.
    pub fn set_position(&mut self, position: i64, mode: u32) -> (result: Result<(), VoxamError>)
        requires
            seek_fits(old(self)@, position),
        ensures
            match old(self)@.holding {
                Holding::Window(_) => final(self)@ == old(self)@ && result is Ok,
                Holding::Memory { buf, position: mark } => {
                    let capacity = match buf {
                        Some(array) => array.count,
                        None => 0,
                    };
                    &&& result is Ok
                    &&& final(self)@ == (StreamState {
                        holding: Holding::Memory {
                            buf,
                            position: memory_sought(mark, capacity, position, mode),
                        },
                        ..old(self)@
                    })
                },
                Holding::File { bytes, position: mark, utf8, width } => match file_sought(
                    mark,
                    bytes.len(),
                    position,
                    mode,
                ) {
                    Some(sought) => result is Ok && final(self)@ == (StreamState {
                        holding: Holding::File { bytes, position: sought, utf8, width },
                        ..old(self)@
                    }),
                    None => result == Err::<(), VoxamError>(VoxamError::BadSeek) && final(self)@
                        == old(self)@,
                },
            },
    {
        match &mut self.kind {
            StreamKind::Window(_) => Ok(()),
            StreamKind::Memory { buf, position: mark } => {
                let capacity: u32 = match *buf {
                    Some(array) => array.count,
                    None => 0,
                };
                let sought: i64 = if mode == seek_mode::CURRENT {
                    position + *mark as i64
                } else if mode == seek_mode::END {
                    position + capacity as i64
                } else {
                    position
                };
                *mark = if sought < 0 {
                    0
                } else if sought > capacity as i64 {
                    capacity
                } else {
                    sought as u32
                };
                Ok(())
            },
            StreamKind::File { handle, .. } => {
                let sought: i128 = if mode == seek_mode::CURRENT {
                    handle.position as i128 + position as i128
                } else if mode == seek_mode::END {
                    handle.bytes.len() as i128 + position as i128
                } else if position < 0 {
                    0
                } else {
                    position as i128
                };
                if sought < 0 || sought > u64::MAX as i128 {
                    return Err(VoxamError::BadSeek);
                }
                handle.position = sought as u64;
                Ok(())
            },
        }
    }

    /// Close, answering stream_result_t (Glk: Closing Streams): the
    /// counts of characters read and written.
    pub fn close(&mut self) -> (counts: (u32, u32))
        ensures
            final(self)@ == (StreamState { disposed: true, ..old(self)@ }),
            counts == (old(self).readcount, old(self).writecount),
    {
        self.disposed = true;
        (self.readcount, self.writecount)
    }
}

/// A stream with its file mark moved back to a position.
pub open spec fn rewound(stream: StreamState, position: u64) -> StreamState {
    match stream.holding {
        Holding::File { bytes, utf8, width, .. } => StreamState {
            holding: Holding::File { bytes, position, utf8, width },
            ..stream
        },
        _ => stream,
    }
}

/// Every Unicode scalar value decodes from its UTF-8 encoding.
pub proof fn utf8_round_trip(c: u32)
    requires
        is_scalar(c),
    ensures
        utf8_scalar(utf8_encoding(c)) == Some(c),
        utf8_encoding(c).len() >= 1,
        trailing(utf8_encoding(c)[0]) == Some((utf8_encoding(c).len() - 1) as nat),
{
    let e = utf8_encoding(c);
    if c < 0x80 {
    } else if c < 0x800 {
        assert((e[0] - 0xC0) * 64 + (e[1] - 0x80) == c) by (nonlinear_arith)
            requires
                e[0] == 0xC0 + c / 64,
                e[1] == 0x80 + c % 64,
        ;
    } else if c < 0x10000 {
        assert((e[0] - 0xE0) * 4096 + (e[1] - 0x80) * 64 + (e[2] - 0x80) == c) by (nonlinear_arith)
            requires
                e[0] == 0xE0 + c / 4096,
                e[1] == 0x80 + (c / 64) % 64,
                e[2] == 0x80 + c % 64,
        ;
    } else {
        assert((e[0] - 0xF0) * 262144 + (e[1] - 0x80) * 4096 + (e[2] - 0x80) * 64 + (e[3] - 0x80)
            == c) by (nonlinear_arith)
            requires
                e[0] == 0xF0 + c / 262144,
                e[1] == 0x80 + (c / 4096) % 64,
                e[2] == 0x80 + (c / 64) % 64,
                e[3] == 0x80 + c % 64,
        ;
    }
}

/// A word's four big-endian bytes read back as the word.
pub proof fn words_round_trip(value: u32)
    ensures
        be_value(be_bytes(value)) == value,
{
    let b = be_bytes(value);
    reveal_with_fuel(be_value, 5);
    assert(b.drop_last().drop_last().drop_last().drop_last() =~= Seq::<u8>::empty());
    assert(b.drop_last().drop_last().drop_last() =~= seq![b[0]]);
    assert(b.drop_last().drop_last() =~= seq![b[0], b[1]]);
    assert(b.drop_last() =~= seq![b[0], b[1], b[2]]);
    assert(((((b[0] as int * 256 + b[1]) * 256 + b[2]) * 256 + b[3]) % 0x1_0000_0000) == value)
        by (nonlinear_arith)
        requires
            b[0] == value / 16777216,
            b[1] == (value / 65536) % 256,
            b[2] == (value / 256) % 256,
            b[3] == value % 256,
    ;
}

/// What a text-mode file stream writes, a read from where the write
/// began gives back: the character as the stream stored it, rendered
/// as text.
pub proof fn text_files_read_back_what_was_written(
    stream: StreamState,
    memory: MemoryState,
    character: u32,
)
    requires
        stream.readable,
        stream.writable,
        stream.holding matches Holding::File { utf8, .. } && utf8,
    ensures
        ({
            let (written, _, _) = put_step(stream, memory, character);
            get_step(rewound(written, stream.holding->File_position), memory).1 == Ok::<
                i64,
                VoxamError,
            >(shown(stored(stream.unicode, character)) as i64)
        }),
{
    let c = shown(stored(stream.unicode, character));
    let (written, _, _) = put_step(stream, memory, character);
    let position = stream.holding->File_position;
    let bytes = stream.holding->File_bytes;
    let data = utf8_encoding(c);
    utf8_round_trip(c);
    let after = laid(bytes, position as nat, data);
    assert(after.subrange(position as int, position + data.len()) =~= data);
    assert(after[position as int] == data[0]);
    let extra = (data.len() - 1) as nat;
    if extra > 0 {
        assert(taken(after, (position + 1) as nat, extra) =~= data.subrange(1, data.len() as int));
        assert(seq![data[0]] + data.subrange(1, data.len() as int) =~= data);
    }
}

/// What a binary Unicode file stream writes, a read from where the
/// write began gives back as the same word.
pub proof fn word_files_read_back_what_was_written(
    stream: StreamState,
    memory: MemoryState,
    character: u32,
)
    requires
        stream.readable,
        stream.writable,
        stream.holding matches Holding::File { utf8, width, .. } && !utf8 && width == 4,
    ensures
        ({
            let (written, _, _) = put_step(stream, memory, character);
            get_step(rewound(written, stream.holding->File_position), memory).1 == Ok::<
                i64,
                VoxamError,
            >(stored(stream.unicode, character) as i64)
        }),
{
    let c = stored(stream.unicode, character);
    let position = stream.holding->File_position;
    let bytes = stream.holding->File_bytes;
    let data = be_bytes(c);
    words_round_trip(c);
    let after = laid(bytes, position as nat, data);
    assert(taken(after, position as nat, 4) =~= data);
}

/// A memory stream's mark moved back to a position.
pub open spec fn memory_rewound(stream: StreamState, position: u32) -> StreamState {
    match stream.holding {
        Holding::Memory { buf, .. } => StreamState {
            holding: Holding::Memory { buf, position },
            ..stream
        },
        _ => stream,
    }
}

/// What a memory stream stores where its buffer has room, a read from
/// where the write began gives back, kept to the buffer's element
/// width.
pub proof fn memory_streams_read_back_what_was_written(
    stream: StreamState,
    memory: MemoryState,
    character: u32,
)
    requires
        stream.readable,
        stream.writable,
        stream.holding matches Holding::Memory { buf: Some(array), position } && position
            < array.count && array.settable(memory, position),
    ensures
        ({
            let array = stream.holding->Memory_buf->0;
            let position = stream.holding->Memory_position;
            let c = stored(stream.unicode, character);
            let (written, after, _) = put_step(stream, memory, character);
            get_step(memory_rewound(written, position), after).1 == Ok::<i64, VoxamError>(
                (if array.width == 4 {
                    c
                } else if array.width == 1 {
                    c % 256
                } else {
                    c % 65536
                }) as i64,
            )
        }),
{
    let array = stream.holding->Memory_buf->0;
    let position = stream.holding->Memory_position;
    let c = stored(stream.unicode, character);
    let at = array.element(position);
    crate::memory::width_reads_back(memory.bytes, at as int, array.width, c);
}

} // verus!
