//! The pure work of the Glk function surface: what a call hands back
//! through its reference arguments, the object walk, buffers of
//! characters in VM memory, case mapping and normalization, and the
//! clock's calendar arithmetic.
//!
//! Objects travel as internal keys with their class, because turning
//! them into the 32-bit ids Glulx sees is the bridge's translation.

use vstd::prelude::*;

use crate::error::VoxamError;
use crate::glk::dispatch::CLASS_WINDOW;
use crate::glk::objects::{
    event_type, file_usage, key_code, rendered, to_char, window_type, BufferData, Event,
    GraphicsData, GridData, MemArray, WindowKind, NEWLINE,
};
use crate::memory::{Memory, MemoryState};
use crate::text::string_of;
use unicode_normalization::UnicodeNormalization;

pub mod glk_gestalt;

verus! {

/// Glk 0.7.6, the version the dispatch table is drawn from (Glk: The
/// Version Number).
pub const GLK_VERSION: u32 = 0x0000_0706;

/// A sound channel's full volume.
pub const FULL_VOLUME: u32 = 0x10000;

/// The CharOutput selector's answers (Glk: Output).
pub const CHAR_OUTPUT_CANNOT_PRINT: u32 = 0;

pub const CHAR_OUTPUT_APPROX_PRINT: u32 = 1;

pub const CHAR_OUTPUT_EXACT_PRINT: u32 = 2;

/// The lowest special keycode: 0x100000000 less glk.h's MAXVAL.
pub const SPECIAL_KEYS: u32 = 0xFFFF_FFE4;

/// The suffix a data file wears.
pub const DEFAULT_SUFFIX: &'static str = ".glkdata";

/// Microseconds in a second.
pub const MICROS: i64 = 1_000_000;

/// The suffix a file wears, by what it is for (Glk: File References).
pub open spec fn suffix_of(usage: u32) -> Seq<char> {
    let kind = usage & file_usage::TYPE_MASK;
    if kind == file_usage::SAVED_GAME {
        ".glksave"@
    } else if kind == file_usage::TRANSCRIPT || kind == file_usage::INPUT_RECORD {
        ".txt"@
    } else {
        ".glkdata"@
    }
}

/// The suffix a file wears, by what it is for (Glk: File References).
pub fn suffix_for(usage: u32) -> (suffix: &'static str)
    ensures
        suffix@ == suffix_of(usage),
{
    let kind = usage & file_usage::TYPE_MASK;
    if kind == file_usage::SAVED_GAME {
        ".glksave"
    } else if kind == file_usage::TRANSCRIPT || kind == file_usage::INPUT_RECORD {
        ".txt"
    } else {
        DEFAULT_SUFFIX
    }
}

/// Whether a character may stay in a game-supplied filename: none of
/// the characters a path could be steered by (Glk: File References).
pub open spec fn legal_in_name(ch: char) -> bool {
    !(ch == '"' || ch == '\\' || ch == '/' || ch == '>' || ch == '<' || ch == ':' || ch == '|'
        || ch == '?' || ch == '*')
}

/// A name up to its first period.
pub open spec fn before_period(name: Seq<char>) -> Seq<char>
    decreases name.len(),
{
    if name.len() == 0 || name[0] == '.' {
        Seq::empty()
    } else {
        seq![name[0]] + before_period(name.drop_first())
    }
}

/// The file name a game-supplied name and a usage come to: the name up
/// to its first period, less every illegal character, or "null" where
/// nothing is left, with the suffix the usage calls for.
pub open spec fn file_name_of(name: Seq<char>, usage: u32) -> Seq<char> {
    let stem = before_period(name).filter(|ch: char| legal_in_name(ch));
    (if stem.len() == 0 {
        "null"@
    } else {
        stem
    }) + suffix_of(usage)
}

/// A name taken up to a place with no period before it is the name up
/// to its first period, where that place is the end or a period.
proof fn lemma_before_period(name: Seq<char>, at: int)
    requires
        0 <= at <= name.len(),
        forall|j: int| 0 <= j < at ==> name[j] != '.',
        at == name.len() || name[at] == '.',
    ensures
        before_period(name) == name.take(at),
    decreases at,
{
    if at == 0 {
        assert(name.take(0) =~= Seq::<char>::empty());
    } else {
        let rest = name.drop_first();
        assert forall|j: int| 0 <= j < at - 1 implies rest[j] != '.' by {
            assert(rest[j] == name[j + 1]);
        }
        lemma_before_period(rest, at - 1);
        assert(seq![name[0]] + rest.take(at - 1) =~= name.take(at));
    }
}

/// The file name a game-supplied name comes to (Glk: File References):
/// the recommended simplification -- delete every character in the
/// illegal set, truncate at the first period, use "null" if nothing is
/// left, then append the suffix the usage calls for. It is what lets
/// Glk implementations exchange files, and a name arriving from game
/// bytecode cannot reach outside the directory it is joined to by any
/// route.
pub fn file_name_for(name: &str, usage: u32) -> (file_name: String)
    ensures
        file_name@ == file_name_of(name@, usage),
{
    let chars = crate::text::chars_of(name);
    let ghost legal = |ch: char| legal_in_name(ch);
    let mut stem: Vec<char> = Vec::new();
    let mut index: usize = 0;
    while index < chars.len() && chars[index] != '.'
        invariant
            chars@ == name@,
            index <= chars@.len(),
            forall|j: int| 0 <= j < index ==> chars@[j] != '.',
            legal == (|ch: char| legal_in_name(ch)),
            stem@ == chars@.take(index as int).filter(legal),
        decreases chars.len() - index,
    {
        let ch = chars[index];
        proof {
            assert(chars@.take(index + 1).drop_last() == chars@.take(index as int));
            assert(chars@.take(index + 1).last() == ch);
            reveal(Seq::filter);
        }
        if !(ch == '"' || ch == '\\' || ch == '/' || ch == '>' || ch == '<' || ch == ':' || ch
            == '|' || ch == '?' || ch == '*') {
            stem.push(ch);
        }
        index += 1;
    }
    proof {
        lemma_before_period(chars@, index as int);
    }
    let mut file_name = if stem.len() == 0 {
        String::from_str("null")
    } else {
        string_of(stem.as_slice())
    };
    file_name.append(suffix_for(usage));
    file_name
}

/// Why a Glk call did not return normally: a fault, or the end of the
/// session.
#[derive(Debug, Clone, Copy, PartialEq, Eq, Structural)]
pub enum Stop {
    Fault(VoxamError),
    End,
}

impl From<VoxamError> for Stop {
    fn from(error: VoxamError) -> (stop: Self) {
        Stop::Fault(error)
    }
}

impl vstd::std_specs::convert::FromSpecImpl<VoxamError> for Stop {
    open spec fn obeys_from_spec() -> bool {
        true
    }

    open spec fn from_spec(error: VoxamError) -> Stop {
        Stop::Fault(error)
    }
}

/// What a Glk call answers: its value, or why it stopped.
pub type Outcome<T> = Result<T, Stop>;

/// What a reference can hold: a word, or an opaque object of a class
/// (its internal key, or None for the null object).
#[derive(Debug, Clone, Copy, PartialEq, Eq, Structural)]
pub enum Held {
    Word(u32),
    Obj(u32, Option<u32>),
}

impl Default for Held {
    fn default() -> (held: Self)
        ensures
            held == Held::Word(0),
    {
        Held::Word(0)
    }
}

impl Held {
    /// The word a holding reads as: an object reads as zero.
    pub open spec fn word_of(self) -> u32 {
        match self {
            Held::Word(value) => value,
            Held::Obj(..) => 0,
        }
    }

    /// The held word, an object reading as zero -- for tests and the
    /// bridge's plain encodings.
    pub fn word(&self) -> (value: u32)
        ensures
            value == self.word_of(),
    {
        match self {
            Held::Word(value) => *value,
            Held::Obj(..) => 0,
        }
    }

    /// The held word read as a signed 32-bit number.
    pub fn signed(&self) -> (value: i64)
        ensures
            value == (if self.word_of() >= 0x8000_0000 {
                self.word_of() - 0x1_0000_0000
            } else {
                self.word_of() as int
            }),
    {
        let word = self.word();
        if word >= 0x8000_0000 {
            word as i64 - 0x1_0000_0000
        } else {
            word as i64
        }
    }
}

/// A single call-by-reference output value.
#[derive(Debug, Default, Clone, Copy, PartialEq, Eq, Structural)]
pub struct RefSlot(pub Held);

/// A struct passed by reference: a fixed row of fields.
#[derive(Debug, Clone, PartialEq, Eq)]
pub struct StructSlot(pub Vec<Held>);

impl StructSlot {
    /// Open with a count of zeroed fields.
    pub fn new(count: usize) -> (slot: Self)
        ensures
            slot.0@ == Seq::new(count as nat, |i: int| Held::Word(0)),
    {
        let mut fields: Vec<Held> = Vec::new();
        let mut index: usize = 0;
        while index < count
            invariant
                index <= count,
                fields@ == Seq::new(index as nat, |i: int| Held::Word(0)),
            decreases count - index,
        {
            fields.push(Held::Word(0));
            index += 1;
            proof {
                assert(fields@ =~= Seq::new(index as nat, |i: int| Held::Word(0)));
            }
        }
        StructSlot(fields)
    }

    /// Replace every field.
    pub fn set_all(&mut self, values: &[Held])
        ensures
            final(self).0@ == values@,
    {
        let mut fields: Vec<Held> = Vec::new();
        let mut index: usize = 0;
        while index < values.len()
            invariant
                index <= values@.len(),
                fields@ == values@.take(index as int),
            decreases values.len() - index,
        {
            fields.push(values[index]);
            index += 1;
            proof {
                assert(fields@ =~= values@.take(index as int));
            }
        }
        proof {
            assert(values@.take(values@.len() as int) =~= values@);
        }
        self.0 = fields;
    }
}

/// The fields of event_t an event fills: its type, its window, and
/// its two values.
pub open spec fn event_fields(event: Event) -> Seq<Held> {
    seq![
        Held::Word(event.kind),
        Held::Obj(CLASS_WINDOW, event.window),
        Held::Word(event.val1),
        Held::Word(event.val2),
    ]
}

/// Fill an event_t from an event.
pub fn fill_event(slot: &mut StructSlot, event: Event)
    ensures
        final(slot).0@ == event_fields(event),
{
    let fields = [
        Held::Word(event.kind),
        Held::Obj(CLASS_WINDOW, event.window),
        Held::Word(event.val1),
        Held::Word(event.val2),
    ];
    slot.set_all(&fields);
    proof {
        assert(fields@ =~= event_fields(event));
    }
}

/// A suspended wait: the select an event has yet to answer, or the
/// file prompt a name has yet to answer, for a display that suspends.
#[derive(Debug, Clone, Copy, PartialEq, Eq, Structural)]
pub enum Waiting {
    /// A suspended select: the seat the awaited event will land in.
    Select,
    /// A suspended file prompt: a Glk call standing mid-flight, its
    /// result the player's answer (Glk: File References).
    Prompt { usage: u32, fmode: u32, rock: u32 },
}

/// Build a window kind for a type, or None for a type not on offer.
/// The pair type only splitting creates (Glk: Pair Windows); graphics
/// without a drawing display answers null rather than a fault, so a
/// game can probe by trying.
pub fn make_window_kind(wtype: u32, graphics: bool) -> (made: Outcome<Option<WindowKind>>)
    ensures
        wtype == window_type::PAIR ==> made == Err::<Option<WindowKind>, Stop>(
            Stop::Fault(VoxamError::PairWindowOpened),
        ),
        wtype != window_type::PAIR ==> (made matches Ok(kind) && match kind {
            Some(kind) => kind.type_of() == wtype && (wtype == window_type::BLANK || wtype
                == window_type::TEXT_BUFFER || wtype == window_type::TEXT_GRID || (wtype
                == window_type::GRAPHICS && graphics)),
            None => !(wtype == window_type::BLANK || wtype == window_type::TEXT_BUFFER || wtype
                == window_type::TEXT_GRID || (wtype == window_type::GRAPHICS && graphics)),
        }),
        made matches Ok(Some(WindowKind::Buffer(data))) ==> data.content@.len() == 0,
        made matches Ok(Some(WindowKind::Grid(data))) ==> data.lines@.len() == 0
            && data.styles@.len() == 0 && data.links@.len() == 0 && data.cursor_x == 0
            && data.cursor_y == 0,
        made matches Ok(Some(WindowKind::Graphics(data))) ==> !data.moved,
{
    if wtype == window_type::PAIR {
        Err(Stop::Fault(VoxamError::PairWindowOpened))
    } else if wtype == window_type::BLANK {
        Ok(Some(WindowKind::Blank))
    } else if wtype == window_type::TEXT_BUFFER {
        Ok(Some(WindowKind::Buffer(BufferData { content: Vec::new() })))
    } else if wtype == window_type::TEXT_GRID {
        Ok(
            Some(
                WindowKind::Grid(
                    GridData {
                        lines: Vec::new(),
                        styles: Vec::new(),
                        links: Vec::new(),
                        cursor_x: 0,
                        cursor_y: 0,
                    },
                ),
            ),
        )
    } else if wtype == window_type::GRAPHICS && graphics {
        Ok(Some(WindowKind::Graphics(GraphicsData { moved: false })))
    } else {
        Ok(None)
    }
}

/// The object after one in a walk order: the first for the null
/// object, and none after the last or for an object not on the list.
pub open spec fn next_in(order: Seq<u32>, current: Option<u32>) -> Option<u32> {
    match current {
        None => if order.len() > 0 {
            Some(order[0])
        } else {
            None
        },
        Some(key) => match order.index_of_first(key) {
            Some(index) => if index + 1 < order.len() {
                Some(order[index + 1])
            } else {
                None
            },
            None => None,
        },
    }
}

/// One step of an object walk (Glk: Iterating Through Opaque Objects).
/// The null object starts the walk; the object after the last -- and
/// an object no longer on the list at all -- ends it. The rock of what
/// was found, or zero, lands in the reference.
pub fn iterate<F: Fn(u32) -> u32>(
    order: &[u32],
    rocks: F,
    current: Option<u32>,
    rockref: &mut Option<RefSlot>,
) -> (found: Option<u32>)
    requires
        forall|key: u32| rocks.requires((key,)),
    ensures
        found == next_in(order@, current),
        (*old(rockref)) is None ==> (*final(rockref)) is None,
        (*old(rockref)) is Some ==> (*final(rockref) matches Some(slot) && match found {
            Some(key) => exists|rock: u32|
                rocks.ensures((key,), rock) && slot.0 == Held::Word(rock),
            None => slot.0 == Held::Word(0),
        }),
{
    let found = match current {
        None => if order.len() > 0 {
            Some(order[0])
        } else {
            None
        },
        Some(key) => {
            let mut index: usize = 0;
            while index < order.len() && order[index] != key
                invariant
                    index <= order@.len(),
                    forall|j: int| 0 <= j < index ==> order@[j] != key,
                decreases order.len() - index,
            {
                index += 1;
            }
            proof {
                order@.index_of_first_ensures(key);
                if index < order@.len() {
                    assert(order@.contains(key));
                    let first = order@.index_of_first(key)->0;
                    if first < index {
                        assert(order@[first] != key);
                    }
                    if first > index {
                        assert(order@[index as int] == key);
                    }
                    assert(first == index);
                } else {
                    assert(!order@.contains(key));
                }
            }
            if index < order.len() && index + 1 < order.len() {
                Some(order[index + 1])
            } else {
                None
            }
        },
    };
    if rockref.is_some() {
        let rock = match found {
            Some(key) => rocks(key),
            None => 0,
        };
        *rockref = Some(RefSlot(Held::Word(rock)));
    }
    found
}

/// Latin-1 printable, plus newline (Glk: Output).
pub open spec fn printable(ch: u32) -> bool {
    ch == NEWLINE || (0x20 <= ch < 0x7F) || (0xA0 <= ch < 0x100)
}

/// Latin-1 printable, plus newline (Glk: Output).
pub fn is_printable(ch: u32) -> (yes: bool)
    ensures
        yes == printable(ch),
{
    ch == NEWLINE || (0x20 <= ch && ch < 0x7F) || (0xA0 <= ch && ch < 0x100)
}

/// Event types glk_select_poll may report; never input (Glk: Other
/// Events).
pub fn pollable(kind: u32) -> (yes: bool)
    ensures
        yes == (kind == event_type::TIMER || kind == event_type::ARRANGE || kind
            == event_type::REDRAW || kind == event_type::SOUND_NOTIFY || kind
            == event_type::VOLUME_NOTIFY),
{
    kind == event_type::TIMER || kind == event_type::ARRANGE || kind == event_type::REDRAW || kind
        == event_type::SOUND_NOTIFY || kind == event_type::VOLUME_NOTIFY
}

/// A memory, and how many values were written, after values are
/// written into a buffer from an element on: as many as fit.
pub open spec fn filled(
    memory: MemoryState,
    buf: MemArray,
    values: Seq<u32>,
    written: nat,
) -> (MemoryState, Outcome<u32>)
    decreases values.len() - written,
{
    if written >= values.len() || written >= buf.count {
        (memory, Ok(written as u32))
    } else if !buf.settable(memory, written as u32) {
        (memory, Err(Stop::Fault(crate::memory::refusal(buf.element(written as u32), memory.ramstart))))
    } else {
        filled(buf.put(memory, written as u32, values[written as int]), buf, values, written + 1)
    }
}

/// Write values into a buffer from the start; return how many fit.
///
/// Stopping at the buffer's end is what the input functions want:
/// they fill as much as fits and report that.
pub fn fill_array(memory: &mut Memory, buf: Option<MemArray>, values: &[u32]) -> (result: Outcome<
    u32,
>)
    requires
        old(memory)@.wf(),
    ensures
        final(memory)@.wf(),
        (final(memory)@, result) == match buf {
            None => (old(memory)@, Ok::<u32, Stop>(0)),
            Some(array) => filled(old(memory)@, array, values@, 0),
        },
{
    let array = match buf {
        None => {
            return Ok(0);
        },
        Some(array) => array,
    };
    let mut written: u32 = 0;
    let mut index: usize = 0;
    while index < values.len()
        invariant
            buf == Some(array),
            memory@.wf(),
            index <= values@.len(),
            written == index,
            written <= array.count,
            filled(memory@, array, values@, written as nat) == filled(old(memory)@, array, values@, 0),
        ensures
            written >= array.count || index >= values@.len(),
            filled(memory@, array, values@, written as nat) == filled(old(memory)@, array, values@, 0),
            memory@.wf(),
            written == index,
            index <= values@.len(),
        decreases values.len() - index,
    {
        if written >= array.count {
            break;
        }
        let ghost before = memory@;
        match array.set(memory, written, values[index]) {
            Ok(()) => {},
            Err(error) => {
                proof {
                    assert(!array.settable(before, written));
                    assert(memory@ == before);
                    assert(error == crate::memory::refusal(array.element(written), before.ramstart));
                    assert(filled(before, array, values@, written as nat) == (
                        before,
                        Err::<u32, Stop>(Stop::Fault(error)),
                    ));
                }
                return Err(Stop::Fault(error));
            },
        }
        proof {
            assert(array.settable(before, written));
            assert(memory@ == array.put(before, written, values@[index as int]));
        }
        written += 1;
        index += 1;
    }
    Ok(written)
}


/// The characters a buffer's first elements render as, read in order;
/// the first element that cannot be read stops the reading with its
/// fault.
pub open spec fn chars_read(memory: MemoryState, buf: MemArray, count: nat) -> Outcome<Seq<char>>
    decreases count,
{
    if count == 0 {
        Ok(Seq::empty())
    } else {
        match chars_read(memory, buf, (count - 1) as nat) {
            Err(stop) => Err(stop),
            Ok(chars) => match buf.got(memory, (count - 1) as u32) {
                Ok(value) => Ok(chars.push(rendered(value))),
                Err(error) => Err(Stop::Fault(error)),
            },
        }
    }
}

/// Once an element cannot be read, every longer reading stops with its
/// fault.
proof fn chars_read_stops(memory: MemoryState, buf: MemArray, index: nat, count: nat)
    requires
        index < count,
        chars_read(memory, buf, index) is Ok,
        buf.got(memory, index as u32) is Err,
    ensures
        chars_read(memory, buf, count) == Err::<Seq<char>, Stop>(
            Stop::Fault(buf.got(memory, index as u32)->Err_0),
        ),
    decreases count - index,
{
    if count > index + 1 {
        chars_read_stops(memory, buf, index, (count - 1) as nat);
    }
}

/// The characters of a buffer's first so-many elements, or none for
/// the null buffer.
pub open spec fn buffer_text(memory: MemoryState, buf: Option<MemArray>, numchars: u32) -> Outcome<
    Seq<char>,
> {
    match buf {
        None => Ok(Seq::empty()),
        Some(array) => chars_read(
            memory,
            array,
            if numchars < array.count {
                numchars as nat
            } else {
                array.count as nat
            },
        ),
    }
}

/// The first so-many characters of a buffer, as text.
pub fn chars_of(memory: &Memory, buf: Option<MemArray>, numchars: u32) -> (chars: Outcome<
    Vec<char>,
>)
    requires
        memory@.wf(),
    ensures
        match (chars, buffer_text(memory@, buf, numchars)) {
            (Ok(read), Ok(text)) => read@ == text,
            (Err(stop), Err(expected)) => stop == expected,
            _ => false,
        },
{
    let array = match buf {
        None => {
            return Ok(Vec::new());
        },
        Some(array) => array,
    };
    let count = if numchars < array.count {
        numchars
    } else {
        array.count
    };
    let mut chars: Vec<char> = Vec::new();
    let mut index: u32 = 0;
    while index < count
        invariant
            memory@.wf(),
            buf == Some(array),
            count == if numchars < array.count {
                numchars
            } else {
                array.count
            },
            index <= count,
            chars_read(memory@, array, index as nat) == Ok::<Seq<char>, Stop>(chars@),
        decreases count - index,
    {
        match array.get(memory, index) {
            Ok(value) => {
                chars.push(to_char(value));
            },
            Err(error) => {
                proof {
                    chars_read_stops(memory@, array, index as nat, count as nat);
                }
                return Err(Stop::Fault(error));
            },
        }
        index += 1;
    }
    Ok(chars)
}

/// The values of characters, in order.
pub open spec fn values_of(text: Seq<char>) -> Seq<u32> {
    text.map_values(|c: char| c as u32)
}

/// A memory and answer after text is written back to a buffer: as much
/// as fits, the whole text's length answered.
pub open spec fn stored_text(memory: MemoryState, buf: Option<MemArray>, text: Seq<char>) -> (
    MemoryState,
    Outcome<u32>,
) {
    let (after, result) = match buf {
        None => (memory, Ok(0u32)),
        Some(array) => filled(memory, array, values_of(text), 0),
    };
    match result {
        Ok(_) => (after, Ok(text.len() as u32)),
        Err(stop) => (after, Err(stop)),
    }
}

/// Write text back, truncating at the buffer's capacity.
///
/// The true length is returned even when it exceeds the buffer, whose
/// contents past that point are undefined (Glk: Upper and Lower Case).
pub fn store_chars(memory: &mut Memory, buf: Option<MemArray>, text: &str) -> (result: Outcome<u32>)
    requires
        old(memory)@.wf(),
    ensures
        final(memory)@.wf(),
        (final(memory)@, result) == stored_text(old(memory)@, buf, text@),
{
    let chars = crate::text::chars_of(text);
    let mut values: Vec<u32> = Vec::new();
    let mut index: usize = 0;
    while index < chars.len()
        invariant
            index <= chars@.len(),
            values@ == values_of(chars@.take(index as int)),
        decreases chars.len() - index,
    {
        values.push(chars[index] as u32);
        index += 1;
        proof {
            assert(values@ =~= values_of(chars@.take(index as int)));
        }
    }
    proof {
        assert(chars@.take(chars@.len() as int) =~= chars@);
    }
    match fill_array(memory, buf, values.as_slice()) {
        Ok(_) => Ok(chars.len() as u32),
        Err(stop) => Err(stop),
    }
}

/// The lowercase mapping of a character: one or more characters.
pub uninterp spec fn lowercase(c: char) -> Seq<char>;

/// The uppercase mapping of a character: one or more characters.
pub uninterp spec fn uppercase(c: char) -> Seq<char>;

/// Text in Unicode Normalization Form D (canonical decomposition).
pub uninterp spec fn nfd(text: Seq<char>) -> Seq<char>;

/// Text in Unicode Normalization Form C (canonical decomposition, then
/// canonical composition).
pub uninterp spec fn nfc(text: Seq<char>) -> Seq<char>;

/// std's `char::to_lowercase`, collected: the character's lowercase
/// mapping, which std documents as one or more characters and which
/// depends on the character alone. The mapping itself is named, not
/// stated.
#[verifier::external_body]
fn lowercase_of(c: char) -> (mapped: Vec<char>)
    ensures
        mapped@ == lowercase(c),
        mapped@.len() >= 1,
{
    c.to_lowercase().collect()
}

/// std's `char::to_uppercase`, collected: the character's uppercase
/// mapping, which std documents as one or more characters and which
/// depends on the character alone. The mapping itself is named, not
/// stated.
#[verifier::external_body]
fn uppercase_of(c: char) -> (mapped: Vec<char>)
    ensures
        mapped@ == uppercase(c),
        mapped@.len() >= 1,
{
    c.to_uppercase().collect()
}

/// unicode-normalization's `nfd`, collected: the characters in
/// Normalization Form D, a function of the characters alone. The form
/// itself is named, not stated.
#[verifier::external_body]
fn decomposed(text: &[char]) -> (normal: Vec<char>)
    ensures
        normal@ == nfd(text@),
{
    text.iter().copied().nfd().collect()
}

/// unicode-normalization's `nfc`, collected: the characters in
/// Normalization Form C, a function of the characters alone. The form
/// itself is named, not stated.
#[verifier::external_body]
fn composed(text: &[char]) -> (normal: Vec<char>)
    ensures
        normal@ == nfc(text@),
{
    text.iter().copied().nfc().collect()
}

/// One character's case mapping, where one character can hold it; a
/// value that is no character, or whose mapping takes more than one
/// character, stays itself.
pub open spec fn case_mapped(ch: u32, lower: bool) -> u32 {
    if crate::text::is_scalar(ch) {
        let mapped = if lower {
            lowercase(ch as char)
        } else {
            uppercase(ch as char)
        };
        if mapped.len() == 1 {
            mapped[0] as u32
        } else {
            ch
        }
    } else {
        ch
    }
}

/// One character's case mapping, where one character can hold it.
///
/// Only single-character mappings are representable; German sharp-s
/// uppercasing to "SS" is the usual offender, and stays itself (Glk:
/// Upper and Lower Case).
pub fn map_case(ch: u32, lower: bool) -> (mapped: u32)
    ensures
        mapped == case_mapped(ch, lower),
{
    let character = match crate::text::char_from(ch) {
        None => {
            return ch;
        },
        Some(character) => character,
    };
    let mapped = if lower {
        lowercase_of(character)
    } else {
        uppercase_of(character)
    };
    if mapped.len() == 1 {
        mapped[0] as u32
    } else {
        ch
    }
}

/// Lowercase one character, where one character can hold it.
pub fn glk_char_to_lower(ch: u32) -> (mapped: u32)
    ensures
        mapped == case_mapped(ch, true),
{
    map_case(ch, true)
}

/// Uppercase one character, where one character can hold it.
pub fn glk_char_to_upper(ch: u32) -> (mapped: u32)
    ensures
        mapped == case_mapped(ch, false),
{
    map_case(ch, false)
}

/// Characters each mapped to its lowercase, run together.
pub open spec fn all_lowered(chars: Seq<char>) -> Seq<char>
    decreases chars.len(),
{
    if chars.len() == 0 {
        Seq::empty()
    } else {
        all_lowered(chars.drop_last()) + lowercase(chars.last())
    }
}

/// Characters each mapped to its uppercase, run together.
pub open spec fn all_uppered(chars: Seq<char>) -> Seq<char>
    decreases chars.len(),
{
    if chars.len() == 0 {
        Seq::empty()
    } else {
        all_uppered(chars.drop_last()) + uppercase(chars.last())
    }
}

/// The titlecase of a digraph, which has a distinct form of its own.
pub open spec fn digraph_title(ch: char) -> Option<char> {
    if ch == '\u{01C4}' || ch == '\u{01C5}' || ch == '\u{01C6}' {
        Some('\u{01C5}')
    } else if ch == '\u{01C7}' || ch == '\u{01C8}' || ch == '\u{01C9}' {
        Some('\u{01C8}')
    } else if ch == '\u{01CA}' || ch == '\u{01CB}' || ch == '\u{01CC}' {
        Some('\u{01CB}')
    } else if ch == '\u{01F1}' || ch == '\u{01F2}' || ch == '\u{01F3}' {
        Some('\u{01F2}')
    } else {
        None
    }
}

/// One character's titlecase: a digraph's own form, or else its
/// uppercase expansion with the first character kept and the rest
/// lowered.
pub open spec fn titled(ch: char) -> Seq<char> {
    match digraph_title(ch) {
        Some(title) => seq![title],
        None => {
            let upper = uppercase(ch);
            if upper.len() == 0 {
                Seq::empty()
            } else {
                seq![upper[0]] + all_lowered(upper.drop_first())
            }
        },
    }
}

/// Characters each mapped through a case, run together.
fn mapped_all(chars: &[char], lower: bool) -> (text: Vec<char>)
    ensures
        text@ == if lower {
            all_lowered(chars@)
        } else {
            all_uppered(chars@)
        },
{
    let mut text: Vec<char> = Vec::new();
    let mut index: usize = 0;
    while index < chars.len()
        invariant
            index <= chars@.len(),
            text@ == if lower {
                all_lowered(chars@.take(index as int))
            } else {
                all_uppered(chars@.take(index as int))
            },
        decreases chars.len() - index,
    {
        let mut mapped = if lower {
            lowercase_of(chars[index])
        } else {
            uppercase_of(chars[index])
        };
        let ghost before = text@;
        text.append(&mut mapped);
        index += 1;
        proof {
            assert(chars@.take(index as int).drop_last() =~= chars@.take(index - 1));
            assert(chars@.take(index as int).last() == chars@[index - 1]);
        }
    }
    proof {
        assert(chars@.take(chars@.len() as int) =~= chars@);
    }
    text
}

/// One character's titlecase mapping, possibly multi-character.
///
/// The digraphs carry distinct titlecase forms; a ligature's
/// uppercase expansion keeps its first character's case and lowers the
/// rest.
pub fn title_char(ch: char) -> (title: String)
    ensures
        title@ == titled(ch),
{
    let digraph = if ch == '\u{01C4}' || ch == '\u{01C5}' || ch == '\u{01C6}' {
        Some('\u{01C5}')
    } else if ch == '\u{01C7}' || ch == '\u{01C8}' || ch == '\u{01C9}' {
        Some('\u{01C8}')
    } else if ch == '\u{01CA}' || ch == '\u{01CB}' || ch == '\u{01CC}' {
        Some('\u{01CB}')
    } else if ch == '\u{01F1}' || ch == '\u{01F2}' || ch == '\u{01F3}' {
        Some('\u{01F2}')
    } else {
        None
    };
    match digraph {
        Some(mapped) => {
            let mut title = String::new();
            crate::text::push_char(&mut title, mapped);
            proof {
                assert(title@ =~= seq![mapped]);
            }
            return title;
        },
        None => {},
    }
    let upper = uppercase_of(ch);
    let mut out: Vec<char> = Vec::new();
    out.push(upper[0]);
    let rest = mapped_all(vstd::slice::slice_subrange(upper.as_slice(), 1, upper.len()), true);
    proof {
        assert(upper@.drop_first() =~= upper@.subrange(1, upper@.len() as int));
    }
    let mut index: usize = 0;
    while index < rest.len()
        invariant
            index <= rest@.len(),
            out@ == seq![upper@[0]] + rest@.take(index as int),
        decreases rest.len() - index,
    {
        out.push(rest[index]);
        index += 1;
        proof {
            assert(out@ =~= seq![upper@[0]] + rest@.take(index as int));
        }
    }
    proof {
        assert(rest@.take(rest@.len() as int) =~= rest@);
    }
    string_of(out.as_slice())
}

/// A memory and answer after a buffer's first so-many characters are
/// read, transformed, and written back.
pub open spec fn buffer_mapped(
    memory: MemoryState,
    buf: Option<MemArray>,
    numchars: u32,
    transform: spec_fn(Seq<char>) -> Seq<char>,
) -> (MemoryState, Outcome<u32>) {
    match buffer_text(memory, buf, numchars) {
        Err(stop) => (memory, Err(stop)),
        Ok(text) => stored_text(memory, buf, transform(text)),
    }
}

/// Case-map a buffer one character at a time.
///
/// Per character, not on the joined string: whole-string mapping
/// applies context-sensitive rules -- Greek sigma lowercases
/// differently at the end of a word -- while the spec asks for "every
/// character" mapped to its equivalent (Glk: Upper and Lower Case).
pub fn map_buffer(memory: &mut Memory, buf: Option<MemArray>, numchars: u32, lower: bool) -> (result:
    Outcome<u32>)
    requires
        old(memory)@.wf(),
    ensures
        final(memory)@.wf(),
        (final(memory)@, result) == buffer_mapped(
            old(memory)@,
            buf,
            numchars,
            |text: Seq<char>|
                if lower {
                    all_lowered(text)
                } else {
                    all_uppered(text)
                },
        ),
{
    let chars = match chars_of(memory, buf, numchars) {
        Ok(chars) => chars,
        Err(stop) => {
            return Err(stop);
        },
    };
    let mapped = mapped_all(chars.as_slice(), lower);
    let text = string_of(mapped.as_slice());
    store_chars(memory, buf, text.as_str())
}

/// Lowercase a Unicode buffer in place; answer the converted length.
pub fn glk_buffer_to_lower_case_uni(memory: &mut Memory, buf: Option<MemArray>, numchars: u32) -> (result:
    Outcome<u32>)
    requires
        old(memory)@.wf(),
    ensures
        final(memory)@.wf(),
        (final(memory)@, result) == buffer_mapped(
            old(memory)@,
            buf,
            numchars,
            |text: Seq<char>| all_lowered(text),
        ),
{
    let result = map_buffer(memory, buf, numchars, true);
    proof {
        let a = |text: Seq<char>|
            if true {
                all_lowered(text)
            } else {
                all_uppered(text)
            };
        let b = |text: Seq<char>| all_lowered(text);
        assert(a =~= b);
    }
    result
}

/// Uppercase a Unicode buffer in place; answer the converted length.
pub fn glk_buffer_to_upper_case_uni(memory: &mut Memory, buf: Option<MemArray>, numchars: u32) -> (result:
    Outcome<u32>)
    requires
        old(memory)@.wf(),
    ensures
        final(memory)@.wf(),
        (final(memory)@, result) == buffer_mapped(
            old(memory)@,
            buf,
            numchars,
            |text: Seq<char>| all_uppered(text),
        ),
{
    let result = map_buffer(memory, buf, numchars, false);
    proof {
        let a = |text: Seq<char>|
            if false {
                all_lowered(text)
            } else {
                all_uppered(text)
            };
        let b = |text: Seq<char>| all_uppered(text);
        assert(a =~= b);
    }
    result
}

/// Text title-cased: the first character to its titlecase, the rest
/// lowered or kept.
pub open spec fn title_cased(text: Seq<char>, lowerrest: bool) -> Seq<char> {
    if text.len() == 0 {
        Seq::empty()
    } else {
        titled(text[0]) + if lowerrest {
            all_lowered(text.drop_first())
        } else {
            text.drop_first()
        }
    }
}

/// Title-case the first character (Glk: Upper and Lower Case), and
/// lower the rest if asked.
///
/// Titlecase is a third Unicode case, not a synonym for uppercase: the
/// ligature U+FB04 uppercases to "FFL" but title-cases to "Ffl", and
/// U+01C4 has the distinct titlecase form U+01C5.
pub fn glk_buffer_to_title_case_uni(
    memory: &mut Memory,
    buf: Option<MemArray>,
    numchars: u32,
    lowerrest: u32,
) -> (result: Outcome<u32>)
    requires
        old(memory)@.wf(),
    ensures
        final(memory)@.wf(),
        (final(memory)@, result) == buffer_mapped(
            old(memory)@,
            buf,
            numchars,
            |text: Seq<char>| title_cased(text, lowerrest != 0),
        ),
{
    let chars = match chars_of(memory, buf, numchars) {
        Ok(chars) => chars,
        Err(stop) => {
            return Err(stop);
        },
    };
    if chars.len() == 0 {
        proof {
            assert(values_of(Seq::<char>::empty()) =~= Seq::<u32>::empty());
        }
        return Ok(0);
    }
    let title = title_char(chars[0]);
    let rest = vstd::slice::slice_subrange(chars.as_slice(), 1, chars.len());
    let tail_text = if lowerrest != 0 {
        let lowered = mapped_all(rest, true);
        string_of(lowered.as_slice())
    } else {
        string_of(rest)
    };
    let mut text = title;
    text.append(tail_text.as_str());
    proof {
        assert(chars@.drop_first() =~= chars@.subrange(1, chars@.len() as int));
    }
    store_chars(memory, buf, text.as_str())
}

/// Unicode NFD decomposition of a buffer (Glk: Unicode String
/// Normalization); answer the decomposed length.
pub fn glk_buffer_canon_decompose_uni(memory: &mut Memory, buf: Option<MemArray>, numchars: u32) -> (result:
    Outcome<u32>)
    requires
        old(memory)@.wf(),
    ensures
        final(memory)@.wf(),
        (final(memory)@, result) == buffer_mapped(
            old(memory)@,
            buf,
            numchars,
            |text: Seq<char>| nfd(text),
        ),
{
    let chars = match chars_of(memory, buf, numchars) {
        Ok(chars) => chars,
        Err(stop) => {
            return Err(stop);
        },
    };
    let normal = decomposed(chars.as_slice());
    let text = string_of(normal.as_slice());
    store_chars(memory, buf, text.as_str())
}

/// Decompose, then canonically compose -- Unicode NFC -- a buffer;
/// answer the normalized length.
pub fn glk_buffer_canon_normalize_uni(memory: &mut Memory, buf: Option<MemArray>, numchars: u32) -> (result:
    Outcome<u32>)
    requires
        old(memory)@.wf(),
    ensures
        final(memory)@.wf(),
        (final(memory)@, result) == buffer_mapped(
            old(memory)@,
            buf,
            numchars,
            |text: Seq<char>| nfc(text),
        ),
{
    let chars = match chars_of(memory, buf, numchars) {
        Ok(chars) => chars,
        Err(stop) => {
            return Err(stop);
        },
    };
    let normal = composed(chars.as_slice());
    let text = string_of(normal.as_slice());
    store_chars(memory, buf, text.as_str())
}

// -- the clock --------------------------------------------------------------
/// A signed 64-bit count's two's-complement bits, as an unsigned count.
pub open spec fn bits_of(value: i64) -> nat {
    if value < 0 {
        (value + 0x1_0000_0000_0000_0000) as nat
    } else {
        value as nat
    }
}

/// The low 32 bits of a signed 64-bit count.
pub open spec fn low_word(value: i64) -> u32 {
    (bits_of(value) % 0x1_0000_0000) as u32
}

/// The high 32 bits of a signed 64-bit count.
pub open spec fn high_word(value: i64) -> u32 {
    (bits_of(value) / 0x1_0000_0000) as u32
}

fn unsigned_bits(value: i64) -> (bits: u64)
    ensures
        bits == bits_of(value),
{
    if value >= 0 {
        value as u64
    } else {
        let shifted = (value + i64::MAX) + 1;
        shifted as u64 + 0x8000_0000_0000_0000u64
    }
}

/// A signed second count as the (high, low) pair of a glktimeval_t.
/// The two words are one signed 64-bit number (Glk: The System
/// Clock), so -1 comes out as all-ones in both -- the failure value.
pub fn split_seconds(seconds: i64) -> (words: (u32, u32))
    ensures
        words == (high_word(seconds), low_word(seconds)),
{
    let bits = unsigned_bits(seconds);
    ((bits / 0x1_0000_0000) as u32, (bits % 0x1_0000_0000) as u32)
}

/// Fill a glkdate_t from its eight fields, each kept to its low word.
pub fn fill_date(slot: &mut StructSlot, fields: [i64; 8])
    ensures
        final(slot).0@ == fields@.map_values(|value: i64| Held::Word(low_word(value))),
{
    let mut held: Vec<Held> = Vec::new();
    let mut index: usize = 0;
    while index < 8
        invariant
            index <= 8,
            fields@.len() == 8,
            held@ == fields@.take(index as int).map_values(
                |value: i64| Held::Word(low_word(value)),
            ),
        decreases 8 - index,
    {
        let bits = unsigned_bits(fields[index]);
        held.push(Held::Word((bits % 0x1_0000_0000) as u32));
        index += 1;
        proof {
            assert(held@ =~= fields@.take(index as int).map_values(
                |value: i64| Held::Word(low_word(value)),
            ));
        }
    }
    proof {
        assert(fields@.take(8) =~= fields@);
    }
    slot.set_all(held.as_slice());
}

/// The days from 1970-01-01 to a civil date of the proleptic
/// Gregorian calendar: the years before it, the leap days among them,
/// and the days of the year before the date, counted from March so the
/// leap day falls last.
pub open spec fn days_of(year: int, month: int, day: int) -> int {
    let y = if month <= 2 {
        year - 1
    } else {
        year
    };
    let era = y / 400;
    let yoe = y % 400;
    let mp = if month > 2 {
        month - 3
    } else {
        month + 9
    };
    let doy = (153 * mp + 2) / 5 + day - 1;
    let doe = yoe * 365 + yoe / 4 - yoe / 100 + doy;
    era * 146097 + doe - 719468
}

/// Whether a year of the proleptic Gregorian calendar is a leap year.
pub open spec fn leap(year: int) -> bool {
    year % 4 == 0 && (year % 100 != 0 || year % 400 == 0)
}

/// How many days a month of a year has.
pub open spec fn month_length(year: int, month: int) -> int {
    if month == 2 {
        if leap(year) {
            29
        } else {
            28
        }
    } else if month == 4 || month == 6 || month == 9 || month == 11 {
        30
    } else {
        31
    }
}

/// Whether (year, month, day) names a real date.
pub open spec fn valid_date(date: (i64, i64, i64)) -> bool {
    1 <= date.1 <= 12 && 1 <= date.2 <= month_length(date.0 as int, date.1 as int)
}

/// Floor division by a positive divisor.
fn floor_div(value: i64, divisor: i64) -> (quotient: i64)
    requires
        divisor > 0,
    ensures
        quotient == value / divisor,
{
    let wide = value as i128;
    let by = divisor as i128;
    let quotient: i128 = if wide >= 0 {
        wide / by
    } else {
        let magnitude = -wide;
        proof {
            assert((wide as int) / (by as int) == -(((magnitude - 1) as int) / (by as int) + 1))
                by (nonlinear_arith)
                requires
                    wide < 0,
                    magnitude == -wide,
                    by > 0,
            ;
        }
        -((magnitude - 1) / by + 1)
    };
    proof {
        assert(i64::MIN <= (value as int) / (divisor as int) <= i64::MAX) by (nonlinear_arith)
            requires
                divisor > 0,
        ;
    }
    quotient as i64
}

/// The least nonnegative remainder by a positive divisor.
fn floor_mod(value: i64, divisor: i64) -> (remainder: i64)
    requires
        divisor > 0,
    ensures
        remainder == value % divisor,
{
    let quotient = floor_div(value, divisor) as i128;
    proof {
        assert(value - quotient * divisor == value % divisor) by (nonlinear_arith)
            requires
                quotient == value / divisor,
                divisor > 0,
        ;
        assert(0 <= value % divisor < divisor) by (nonlinear_arith)
            requires
                divisor > 0,
        ;
    }
    (value as i128 - quotient * divisor as i128) as i64
}

/// The civil date a day count from the epoch falls on: (year, month,
/// day), Howard Hinnant's algorithm.
pub fn civil_from_days(z: i64) -> (date: (i64, i64, i64))
    requires
        z <= i64::MAX - 719_468,
    ensures
        days_of(date.0 as int, date.1 as int, date.2 as int) == z,
        valid_date(date),
{
    let z = z + 719_468;
    let era = floor_div(z, 146_097);
    let doe = floor_mod(z, 146_097);
    let yoe = (doe - doe / 1460 + doe / 36_524 - doe / 146_096) / 365;
    proof {
        assert(-0x10_0000_0000_0000 <= era <= 0x10_0000_0000_0000) by (nonlinear_arith)
            requires
                era == z / 146097,
        ;
        era_years(doe as int, yoe as int, (doe - (365 * yoe + yoe / 4 - yoe / 100)) as int);
    }
    let year = yoe + era * 400;
    let doy = doe - (365 * yoe + yoe / 4 - yoe / 100);
    let mp = (5 * doy + 2) / 153;
    let day = doy - (153 * mp + 2) / 5 + 1;
    let month = if mp < 10 {
        mp + 3
    } else {
        mp - 9
    };
    proof {
        civil_inverse(z as int, era as int, doe as int, yoe as int, doy as int, mp as int);
    }
    (
        if month <= 2 {
            year + 1
        } else {
            year
        },
        month,
        day,
    )
}

/// The steps of Hinnant's algorithm undo the day count.
proof fn civil_inverse(z: int, era: int, doe: int, yoe: int, doy: int, mp: int)
    requires
        era == z / 146097,
        doe == z % 146097,
        yoe == (doe - doe / 1460 + doe / 36524 - doe / 146096) / 365,
        doy == doe - (365 * yoe + yoe / 4 - yoe / 100),
        mp == (5 * doy + 2) / 153,
    ensures
        ({
            let day = doy - (153 * mp + 2) / 5 + 1;
            let month = if mp < 10 {
                mp + 3
            } else {
                mp - 9
            };
            let year = yoe + era * 400 + if month <= 2 {
                1int
            } else {
                0
            };
            &&& days_of(year, month, day) == z - 719468
            &&& 1 <= month <= 12
            &&& 1 <= day <= month_length(year, month)
        }),
{
    assert(z == era * 146097 + doe);
    era_years(doe, yoe, doy);
    let day = doy - (153 * mp + 2) / 5 + 1;
    let month = if mp < 10 {
        mp + 3
    } else {
        mp - 9
    };
    let shift: int = if month <= 2 {
        1
    } else {
        0
    };
    let year = yoe + era * 400 + shift;
    march_days(doy, mp);
    leap_every_era(yoe + shift, era);
    assert(leap(year) == leap(yoe + shift));
    assert(1 <= day <= month_length(year, month));
    let y = if month <= 2 {
        year - 1
    } else {
        year
    };
    assert(y == era * 400 + yoe);
    assert(y / 400 == era && y % 400 == yoe) by (nonlinear_arith)
        requires
            y == era * 400 + yoe,
            0 <= yoe < 400,
    ;
    let mp2 = if month > 2 {
        month - 3
    } else {
        month + 9
    };
    assert(mp2 == mp);
    assert((153 * mp2 + 2) / 5 + day - 1 == doy);
}

/// A day of a March-based year falls in a month of it, and on a day
/// that month has: February reaches its 29th only on the year's last
/// day, which leap years alone have.
#[verifier::rlimit(50)]
proof fn march_days(doy: int, mp: int)
    requires
        0 <= doy <= 365,
        mp == (5 * doy + 2) / 153,
    ensures
        0 <= mp <= 11,
        1 <= doy - (153 * mp + 2) / 5 + 1,
        doy - (153 * mp + 2) / 5 + 1 <= if mp == 11 {
            if doy == 365 {
                29int
            } else {
                28int
            }
        } else if mp == 1 || mp == 3 || mp == 6 || mp == 8 {
            30int
        } else {
            31int
        },
{
    let s = (153 * mp + 2) / 5;
    assert(153 * mp <= 5 * doy + 2 < 153 * mp + 153);
    assert(5 * s <= 153 * mp + 2 < 5 * s + 5);
}

/// Leap years repeat every four hundred years.
proof fn leap_every_era(year: int, era: int)
    ensures
        leap(year + era * 400) == leap(year),
{
    assert((year + era * 400) % 4 == year % 4) by (nonlinear_arith);
    assert((year + era * 400) % 100 == year % 100) by (nonlinear_arith);
    assert((year + era * 400) % 400 == year % 400) by (nonlinear_arith);
}

/// Within an era, the year of a day and the day of that year fall in
/// their ranges.
#[verifier::rlimit(50)]
proof fn era_years(doe: int, yoe: int, doy: int)
    requires
        0 <= doe < 146097,
        yoe == (doe - doe / 1460 + doe / 36524 - doe / 146096) / 365,
        doy == doe - (365 * yoe + yoe / 4 - yoe / 100),
    ensures
        0 <= yoe < 400,
        0 <= doy <= 365,
        doy == 365 ==> leap(yoe + 1),
{
    let a = doe / 1460;
    let b = doe / 36524;
    let d = doe / 146096;
    let q4 = yoe / 4;
    let q100 = yoe / 100;
    assert(1460 * a <= doe < 1460 * a + 1460);
    assert(36524 * b <= doe < 36524 * b + 36524);
    assert(146096 * d <= doe < 146096 * d + 146096);
    assert(0 <= yoe < 400);
    assert(4 * q4 <= yoe < 4 * q4 + 4);
    assert(100 * q100 <= yoe < 100 * q100 + 100);
    assert(0 <= doy <= 365);
}

/// Whether every step of a civil date's day count stays within a
/// 64-bit count: the March-based year, the month's offset, the day of
/// the year, the day of the era, and the sum of eras and days.
pub open spec fn civil_fits(year: i64, month: i64, day: i64) -> bool {
    let y = if month <= 2 {
        year - 1
    } else {
        year as int
    };
    let mp = if month > 2 {
        month - 3
    } else {
        month + 9
    };
    let offset = 153 * mp + 2;
    let doy = offset / 5 + day - 1;
    let yoe = y % 400;
    let doe = yoe * 365 + yoe / 4 - yoe / 100 + doy;
    let eras = (y / 400) * 146097;
    &&& i64::MIN <= y
    &&& mp <= i64::MAX
    &&& i64::MIN <= offset <= i64::MAX
    &&& i64::MIN <= offset / 5 + day <= i64::MAX
    &&& i64::MIN <= doy <= i64::MAX
    &&& i64::MIN <= doe <= i64::MAX
    &&& i64::MIN <= eras <= i64::MAX
    &&& i64::MIN <= eras + doe <= i64::MAX
    &&& i64::MIN <= eras + doe - 719468 <= i64::MAX
}

/// The day count of a civil date (the inverse of civil_from_days).
pub fn days_from_civil(year: i64, month: i64, day: i64) -> (days: i64)
    requires
        civil_fits(year, month, day),
    ensures
        days == days_of(year as int, month as int, day as int),
{
    let year = if month <= 2 {
        year - 1
    } else {
        year
    };
    let era = floor_div(year, 400);
    let yoe = floor_mod(year, 400);
    let mp = if month > 2 {
        month - 3
    } else {
        month + 9
    };
    let doy = floor_div(153 * mp + 2, 5) + day - 1;
    proof {
        assert(0 <= yoe < 400);
    }
    let doe = yoe * 365 + yoe / 4 - yoe / 100 + doy;
    era * 146_097 + doe - 719_468
}

/// Every day count names a civil date: the one whose day count it is.
pub proof fn every_day_has_a_date(z: i64)
    requires
        z <= i64::MAX - 719_468,
    ensures
        exists|date: (i64, i64, i64)|
            valid_date(date) && days_of(date.0 as int, date.1 as int, date.2 as int) == z,
{
    let shifted = z + 719468;
    let era = shifted / 146097;
    let doe = shifted % 146097;
    let yoe = (doe - doe / 1460 + doe / 36524 - doe / 146096) / 365;
    let doy = doe - (365 * yoe + yoe / 4 - yoe / 100);
    let mp = (5 * doy + 2) / 153;
    civil_inverse(shifted, era, doe, yoe, doy, mp);
    era_years(doe, yoe, doy);
    march_days(doy, mp);
    let day = doy - (153 * mp + 2) / 5 + 1;
    let month = if mp < 10 {
        mp + 3
    } else {
        mp - 9
    };
    let year = yoe + era * 400 + if month <= 2 {
        1int
    } else {
        0
    };
    assert(-0x10_0000_0000_0000 <= era <= 0x10_0000_0000_0000) by (nonlinear_arith)
        requires
            era == shifted / 146097,
            i64::MIN <= shifted <= i64::MAX,
    ;
    let date = (year as i64, month as i64, day as i64);
    assert(valid_date(date) && days_of(date.0 as int, date.1 as int, date.2 as int) == z);
}

/// A second count with a clock offset added, held at the ends of the
/// 64-bit range.
pub open spec fn saturated(value: int) -> i64 {
    if value > i64::MAX {
        i64::MAX
    } else if value < i64::MIN {
        i64::MIN
    } else {
        value as i64
    }
}

/// The eight glkdate_t fields of a date, a second within its day, and
/// a microsecond count: year, month, day, weekday counted from Sunday,
/// hour, minute, second, microsecond.
pub open spec fn date_fields(date: (i64, i64, i64), days: int, in_day: int, microsec: i64) -> Seq<
    i64,
> {
    seq![
        date.0,
        date.1,
        date.2,
        ((days + 4) % 7) as i64,
        (in_day / 3600) as i64,
        ((in_day / 60) % 60) as i64,
        (in_day % 60) as i64,
        microsec,
    ]
}

/// Whether eight fields are a timestamp exploded into a glkdate_t: the
/// date its day falls on, the time of day, and the microseconds -- or
/// zeros where that date's year lies outside 1 to 9999.
pub open spec fn broken_out(
    fields: Seq<i64>,
    seconds: i64,
    microsec: i64,
    utc: bool,
    local_offset_seconds: i64,
) -> bool {
    let local = if utc {
        seconds as int
    } else {
        saturated(seconds + local_offset_seconds) as int
    };
    let days = local / 86400;
    let in_day = local % 86400;
    exists|date: (i64, i64, i64)|
        valid_date(date) && days_of(date.0 as int, date.1 as int, date.2 as int) == days && if 1
            <= date.0 <= 9999 {
            fields == date_fields(date, days, in_day, microsec)
        } else {
            fields == Seq::new(8, |i: int| 0i64)
        }
}

/// Explode a timestamp into the eight fields of a glkdate_t, or zeros
/// for a second count past every calendar the fields can name (years
/// 1 to 9999). A local time is the timestamp moved by the clock's
/// offset from UTC.
pub fn break_out(seconds: i64, microsec: i64, utc: bool, local_offset_seconds: i64) -> (fields: [
    i64; 8])
    ensures
        broken_out(fields@, seconds, microsec, utc, local_offset_seconds),
{
    let local = if utc {
        seconds
    } else {
        let sum = seconds as i128 + local_offset_seconds as i128;
        if sum > i64::MAX as i128 {
            i64::MAX
        } else if sum < i64::MIN as i128 {
            i64::MIN
        } else {
            sum as i64
        }
    };
    let days = floor_div(local, 86_400);
    let in_day = floor_mod(local, 86_400);
    proof {
        assert(-0x1_0000_0000_0000 <= days <= 0x1_0000_0000_0000) by (nonlinear_arith)
            requires
                days == local / 86400,
        ;
    }
    let date = civil_from_days(days);
    let (year, month, day) = date;
    if year < 1 || year > 9999 {
        let zeros = [0i64; 8];
        proof {
            assert(zeros@ =~= Seq::new(8, |i: int| 0i64));
        }
        return zeros;
    }
    let fields = [
        year,
        month,
        day,
        floor_mod(days + 4, 7),
        in_day / 3600,
        (in_day / 60) % 60,
        in_day % 60,
        microsec,
    ];
    proof {
        assert(fields@ =~= date_fields(date, days as int, in_day as int, microsec));
    }
    fields
}

/// A glkdate_t's field, as a signed number.
pub open spec fn field(date: Seq<Held>, index: int) -> int {
    let word = date[index].word_of();
    if word >= 0x8000_0000 {
        word - 0x1_0000_0000
    } else {
        word as int
    }
}

/// The timestamp a glkdate_t names, or none where it cannot: fewer
/// than eight fields, a year outside 1 to 9999 once the month is
/// normalized, or a local time the clock's offset carries past the
/// 64-bit range. Every other field may stray from its normal range
/// and is normalized: a day of 40 or an hour of -3 works. A negative
/// time with a fractional tail is truncated toward zero.
pub open spec fn date_seconds(date: Seq<Held>, utc: bool, local_offset_seconds: i64) -> Option<i64> {
    if date.len() < 8 {
        None
    } else {
        let year = field(date, 0) + (field(date, 1) - 1) / 12;
        let month = (field(date, 1) - 1) % 12 + 1;
        if !(1 <= year <= 9999) {
            None
        } else {
            let whole = days_of(year, month, 1) * 86400 + (field(date, 2) - 1) * 86400 + field(
                date,
                4,
            ) * 3600 + field(date, 5) * 60 + field(date, 6) + field(date, 7) / (MICROS as int);
            let frac = field(date, 7) % (MICROS as int);
            let moved = if utc {
                whole
            } else {
                whole - local_offset_seconds
            };
            if moved < i64::MIN || moved > i64::MAX {
                None
            } else if moved < 0 && frac > 0 {
                Some((moved + 1) as i64)
            } else {
                Some(moved as i64)
            }
        }
    }
}

/// A small nonnegative field reads back from its word as itself.
proof fn lemma_small_field(fields: Seq<i64>, index: int)
    requires
        0 <= index < fields.len(),
        0 <= fields[index] < 0x8000_0000,
    ensures
        field(date_words(fields), index) == fields[index],
{
}

/// Exploding a timestamp into a date and turning the date back gives
/// the timestamp again, wherever the date lies in years 1 to 9999 and
/// a local clock's offset moves it no further than a 64-bit count
/// reaches. A negative time with microseconds comes back a second
/// nearer zero, as a time with a fractional tail is truncated toward
/// zero.
pub proof fn dates_turn_back_into_their_times(
    fields: Seq<i64>,
    seconds: i64,
    microsec: i64,
    utc: bool,
    local_offset_seconds: i64,
)
    requires
        broken_out(fields, seconds, microsec, utc, local_offset_seconds),
        fields[0] >= 1,
        0 <= microsec < MICROS,
        !utc ==> i64::MIN <= seconds + local_offset_seconds <= i64::MAX,
    ensures
        date_seconds(date_words(fields), utc, local_offset_seconds) == Some(
            if seconds < 0 && microsec > 0 {
                (seconds + 1) as i64
            } else {
                seconds
            },
        ),
{
    let local = if utc {
        seconds as int
    } else {
        saturated(seconds + local_offset_seconds) as int
    };
    let days = local / 86400;
    let in_day = local % 86400;
    let date = choose|date: (i64, i64, i64)|
        valid_date(date) && days_of(date.0 as int, date.1 as int, date.2 as int) == days && if 1
            <= date.0 <= 9999 {
            fields == date_fields(date, days, in_day, microsec)
        } else {
            fields == Seq::new(8, |i: int| 0i64)
        };
    if !(1 <= date.0 <= 9999) {
        assert(fields[0] == 0);
    }
    assert(fields == date_fields(date, days, in_day, microsec));
    assert(0 <= in_day < 86400);
    assert(0 <= (days + 4) % 7 < 7);
    assert(0 <= in_day / 3600 < 24 && 0 <= (in_day / 60) % 60 < 60 && 0 <= in_day % 60 < 60)
        by (nonlinear_arith)
        requires
            0 <= in_day < 86400,
    ;
    let words = date_words(fields);
    assert(words.len() == 8);
    lemma_small_field(fields, 0);
    lemma_small_field(fields, 1);
    lemma_small_field(fields, 2);
    lemma_small_field(fields, 4);
    lemma_small_field(fields, 5);
    lemma_small_field(fields, 6);
    lemma_small_field(fields, 7);
    let year = date.0 as int;
    let month = date.1 as int;
    let day = date.2 as int;
    assert((month - 1) / 12 == 0 && (month - 1) % 12 + 1 == month);
    assert(days_of(year, month, day) == days_of(year, month, 1) + day - 1);
    assert((in_day / 3600) * 3600 + ((in_day / 60) % 60) * 60 + in_day % 60 == in_day)
        by (nonlinear_arith)
        requires
            0 <= in_day < 86400,
    ;
    assert(days * 86400 + in_day == local);
    assert((microsec as int) / (MICROS as int) == 0);
    assert((microsec as int) % (MICROS as int) == microsec);
}

/// A timeval exploded into a date and collapsed again gives back its
/// three words, wherever the date lies in years 1 to 9999, the
/// microseconds are in range, and a negative time has none: the date's
/// words turn back into the timeval's words.
pub proof fn timevals_survive_their_dates(
    timeval: Seq<Held>,
    fields: Seq<i64>,
    utc: bool,
    local_offset_seconds: i64,
)
    requires
        timeval.len() == 3,
        timeval[0] is Word,
        timeval[1] is Word,
        timeval[2] is Word,
        broken_out(
            fields,
            timeval_seconds(timeval) as i64,
            field(timeval, 2) as i64,
            utc,
            local_offset_seconds,
        ),
        fields[0] >= 1,
        0 <= field(timeval, 2) < MICROS,
        timeval_seconds(timeval) >= 0 || field(timeval, 2) == 0,
        !utc ==> i64::MIN <= timeval_seconds(timeval) + local_offset_seconds <= i64::MAX,
    ensures
        timeval_words(Some(date_words(fields)), utc, local_offset_seconds) == timeval,
{
    let high = timeval[0]->Word_0;
    let low = timeval[1]->Word_0;
    let micro = timeval[2]->Word_0;
    let seconds = timeval_seconds(timeval);
    assert(-0x8000_0000_0000_0000 <= seconds < 0x8000_0000_0000_0000) by (nonlinear_arith)
        requires
            seconds == field(timeval, 0) * 0x1_0000_0000 + low,
            -0x8000_0000 <= field(timeval, 0) < 0x8000_0000,
            low < 0x1_0000_0000,
    ;
    dates_turn_back_into_their_times(fields, seconds as i64, micro as i64, utc, local_offset_seconds);
    assert(bits_of(seconds as i64) == high * 0x1_0000_0000 + low) by (nonlinear_arith)
        requires
            seconds == field(timeval, 0) * 0x1_0000_0000 + low,
            field(timeval, 0) == if high >= 0x8000_0000 {
                high - 0x1_0000_0000
            } else {
                high as int
            },
            bits_of(seconds as i64) == if seconds < 0 {
                seconds + 0x1_0000_0000_0000_0000
            } else {
                seconds
            },
            low < 0x1_0000_0000,
            high < 0x1_0000_0000,
    ;
    assert(high_word(seconds as i64) == high) by (nonlinear_arith)
        requires
            bits_of(seconds as i64) == high * 0x1_0000_0000 + low,
            high_word(seconds as i64) == (bits_of(seconds as i64) / 0x1_0000_0000) as u32,
            low < 0x1_0000_0000,
            high < 0x1_0000_0000,
    ;
    assert(low_word(seconds as i64) == low) by (nonlinear_arith)
        requires
            bits_of(seconds as i64) == high * 0x1_0000_0000 + low,
            low_word(seconds as i64) == (bits_of(seconds as i64) % 0x1_0000_0000) as u32,
            low < 0x1_0000_0000,
    ;
    assert(fields.len() == 8 && fields[7] == micro) by {
        let local = if utc {
            seconds as int
        } else {
            saturated(seconds as i64 + local_offset_seconds) as int
        };
        let date = choose|date: (i64, i64, i64)|
            valid_date(date) && days_of(date.0 as int, date.1 as int, date.2 as int) == local
                / 86400 && if 1 <= date.0 <= 9999 {
                fields == date_fields(date, local / 86400, local % 86400, micro as i64)
            } else {
                fields == Seq::new(8, |i: int| 0i64)
            };
    }
    lemma_small_field(fields, 7);
    assert(timeval_words(Some(date_words(fields)), utc, local_offset_seconds) =~= timeval);
}

/// Turn glkdate_t fields into a timestamp, or None if impossible.
///
/// The fields "need not be in their normal ranges; they will be
/// normalized" (Glk: Time and Date Conversions). Months are
/// normalized by hand because they have no fixed length; everything
/// else is a plain offset from the first of the month.
#[verifier::spinoff_prover]
#[verifier::rlimit(60)]
pub fn to_seconds(date: &StructSlot, utc: bool, local_offset_seconds: i64) -> (seconds: Option<i64>)
    ensures
        seconds == date_seconds(date.0@, utc, local_offset_seconds),
{
    if date.0.len() < 8 {
        return None;
    }
    let year_field = date.0[0].signed();
    let month_field = date.0[1].signed();
    let year = year_field + floor_div(month_field - 1, 12);
    let month = floor_mod(month_field - 1, 12) + 1;
    if year < 1 || year > 9999 {
        return None;
    }
    let micro = date.0[7].signed();
    let whole = whole_seconds(
        year,
        month,
        date.0[2].signed(),
        date.0[4].signed(),
        date.0[5].signed(),
        date.0[6].signed(),
        micro,
    );
    let frac = floor_mod(micro, MICROS);
    let moved: i128 = if utc {
        whole as i128
    } else {
        whole as i128 - local_offset_seconds as i128
    };
    if moved < i64::MIN as i128 || moved > i64::MAX as i128 {
        return None;
    }
    let moved = moved as i64;
    if moved < 0 && frac > 0 {
        Some(moved + 1)
    } else {
        Some(moved)
    }
}

/// Day counts of the years 1 to 9999 stay small.
proof fn days_of_bounded(year: int, month: int)
    requires
        1 <= year <= 9999,
        1 <= month <= 12,
    ensures
        -1_000_000 <= days_of(year, month, 1) <= 4_000_000,
{
    let y = if month <= 2 {
        year - 1
    } else {
        year
    };
    assert(0 <= y / 400 <= 25 && 0 <= y % 400 < 400) by (nonlinear_arith)
        requires
            0 <= y <= 9999,
    ;
}

/// The seconds a normalized date and its clock fields add up to, the
/// whole seconds of the microseconds included.
#[verifier::rlimit(50)]
fn whole_seconds(
    year: i64,
    month: i64,
    day: i64,
    hour: i64,
    minute: i64,
    second: i64,
    micro: i64,
) -> (whole: i64)
    requires
        1 <= year <= 9999,
        1 <= month <= 12,
        -0x8000_0000 <= day < 0x8000_0000,
        -0x8000_0000 <= hour < 0x8000_0000,
        -0x8000_0000 <= minute < 0x8000_0000,
        -0x8000_0000 <= second < 0x8000_0000,
        -0x8000_0000 <= micro < 0x8000_0000,
    ensures
        whole == days_of(year as int, month as int, 1) * 86400 + (day - 1) * 86400 + hour * 3600
            + minute * 60 + second + (micro as int) / (MICROS as int),
{
    proof {
        days_of_bounded(year as int, month as int);
    }
    let days = days_from_civil(year, month, 1);
    let base = days * 86_400;
    let offset = (day - 1) * 86_400;
    let clock = hour * 3600 + minute * 60 + second;
    let whole_micro = floor_div(micro, MICROS);
    proof {
        assert(-0x1_0000 <= whole_micro <= 0x1_0000) by (nonlinear_arith)
            requires
                whole_micro == micro / 1_000_000,
                -0x8000_0000 <= micro < 0x8000_0000,
        ;
    }
    base + offset + clock + whole_micro
}

/// The words of a glkdate_t filled from eight fields.
pub open spec fn date_words(fields: Seq<i64>) -> Seq<Held> {
    fields.map_values(|value: i64| Held::Word(low_word(value)))
}

/// The timestamp a glktimeval_t holds: its two words as one signed
/// 64-bit count of seconds.
pub open spec fn timeval_seconds(timeval: Seq<Held>) -> int {
    field(timeval, 0) * 0x1_0000_0000 + timeval[1].word_of()
}

/// Explode a glktimeval_t into a glkdate_t (Glk: Time and Date
/// Conversions), in UTC or in local time; no timestamp at all fills
/// the date with zeros.
pub fn time_to_date(
    timeref: Option<&StructSlot>,
    dateref: &mut StructSlot,
    utc: bool,
    local_offset_seconds: i64,
)
    requires
        timeref matches Some(slot) ==> slot.0@.len() >= 3,
    ensures
        match timeref {
            None => final(dateref).0@ == Seq::new(8, |i: int| Held::Word(0)),
            Some(slot) => exists|fields: Seq<i64>|
                broken_out(
                    fields,
                    timeval_seconds(slot.0@) as i64,
                    field(slot.0@, 2) as i64,
                    utc,
                    local_offset_seconds,
                ) && final(dateref).0@ == date_words(fields),
        },
{
    let timeref = match timeref {
        None => {
            let zeros = [Held::Word(0); 8];
            dateref.set_all(&zeros);
            proof {
                assert(zeros@ =~= Seq::new(8, |i: int| Held::Word(0)));
            }
            return;
        },
        Some(slot) => slot,
    };
    let high = timeref.0[0].signed();
    let low = timeref.0[1].word() as i64;
    let microsec = timeref.0[2].signed();
    let seconds = high * 0x1_0000_0000 + low;
    let fields = break_out(seconds, microsec, utc, local_offset_seconds);
    fill_date(dateref, fields);
    proof {
        assert(seconds == timeval_seconds(timeref.0@));
        assert(broken_out(
            fields@,
            timeval_seconds(timeref.0@) as i64,
            field(timeref.0@, 2) as i64,
            utc,
            local_offset_seconds,
        ) && dateref.0@ == date_words(fields@));
    }
}

/// Explode a divided-down time into a glkdate_t: the time multiplied
/// back out, held at the ends of the 64-bit range, with no
/// microseconds, since the resolution is whole seconds (Glk: Time and
/// Date Conversions).
pub fn simple_to_date(
    time: i64,
    factor: u32,
    dateref: &mut StructSlot,
    utc: bool,
    local_offset_seconds: i64,
)
    ensures
        exists|fields: Seq<i64>|
            broken_out(fields, saturated(time * factor), 0, utc, local_offset_seconds)
                && final(dateref).0@ == date_words(fields),
{
    proof {
        assert(-0x8000_0000_0000_0000_0000_0000 <= time * factor <= 0x8000_0000_0000_0000_0000_0000)
            by (nonlinear_arith)
            requires
                i64::MIN <= time <= i64::MAX,
                0 <= factor <= u32::MAX,
        ;
    }
    let product = time as i128 * factor as i128;
    let seconds = if product > i64::MAX as i128 {
        i64::MAX
    } else if product < i64::MIN as i128 {
        i64::MIN
    } else {
        product as i64
    };
    let fields = break_out(seconds, 0, utc, local_offset_seconds);
    fill_date(dateref, fields);
    proof {
        assert(seconds == saturated(time * factor));
        assert(broken_out(fields@, saturated(time * factor), 0, utc, local_offset_seconds)
            && dateref.0@ == date_words(fields@));
    }
}

/// The glktimeval_t words of a date: the timestamp's two words and its
/// microseconds, or -1 in both words, with no microseconds, where the
/// date names no time (Glk: Time and Date Conversions).
pub open spec fn timeval_words(date: Option<Seq<Held>>, utc: bool, local_offset_seconds: i64) -> Seq<
    Held,
> {
    let seconds = match date {
        Some(fields) => date_seconds(fields, utc, local_offset_seconds),
        None => None,
    };
    match seconds {
        None => seq![Held::Word(0xFFFF_FFFF), Held::Word(0xFFFF_FFFF), Held::Word(0)],
        Some(whole) => seq![
            Held::Word(high_word(whole)),
            Held::Word(low_word(whole)),
            Held::Word((field(date->0, 7) % (MICROS as int)) as u32),
        ],
    }
}

/// Collapse a glkdate_t into a glktimeval_t, in UTC or in local time.
pub fn date_to_time(
    dateref: Option<&StructSlot>,
    timeref: &mut StructSlot,
    utc: bool,
    local_offset_seconds: i64,
)
    ensures
        final(timeref).0@ == timeval_words(
            match dateref {
                Some(slot) => Some(slot.0@),
                None => None,
            },
            utc,
            local_offset_seconds,
        ),
{
    let seconds = match dateref {
        Some(slot) => to_seconds(slot, utc, local_offset_seconds),
        None => None,
    };
    match seconds {
        None => {
            // An unrepresentable time is -1 in both words.
            let failed = [Held::Word(0xFFFF_FFFF), Held::Word(0xFFFF_FFFF), Held::Word(0)];
            timeref.set_all(&failed);
            proof {
                assert(failed@ =~= seq![
                    Held::Word(0xFFFF_FFFF),
                    Held::Word(0xFFFF_FFFF),
                    Held::Word(0),
                ]);
            }
        },
        Some(whole) => {
            let (high, low) = split_seconds(whole);
            let micro = match dateref {
                Some(slot) => floor_mod(slot.0[7].signed(), MICROS),
                None => 0,
            };
            let words = [Held::Word(high), Held::Word(low), Held::Word(micro as u32)];
            timeref.set_all(&words);
            proof {
                assert(words@ =~= seq![
                    Held::Word(high_word(whole)),
                    Held::Word(low_word(whole)),
                    Held::Word((field((dateref->0).0@, 7) % (MICROS as int)) as u32),
                ]);
            }
        },
    }
}

/// A date collapsed to a divided-down timestamp, rounding toward the
/// past: -1 for a zero factor or a date that names no time.
pub open spec fn simple_of(date: Option<Seq<Held>>, factor: u32, utc: bool, local_offset_seconds: i64) -> i64 {
    if factor == 0 {
        -1i64
    } else {
        match date {
            None => -1i64,
            Some(fields) => match date_seconds(fields, utc, local_offset_seconds) {
                None => -1i64,
                Some(seconds) => (seconds as int / factor as int) as i64,
            },
        }
    }
}

/// Collapse a date into a divided-down time (Glk: Time and Date
/// Conversions), measured in UTC or in local time.
pub fn date_to_simple(dateref: Option<&StructSlot>, factor: u32, utc: bool, local_offset_seconds: i64) -> (time: i64)
    ensures
        time == simple_of(
            match dateref {
                Some(slot) => Some(slot.0@),
                None => None,
            },
            factor,
            utc,
            local_offset_seconds,
        ),
{
    if factor == 0 {
        return -1;
    }
    let seconds = match dateref {
        None => None,
        Some(slot) => to_seconds(slot, utc, local_offset_seconds),
    };
    match seconds {
        None => -1,
        Some(seconds) => floor_div(seconds, factor as i64),
    }
}

/// What a display can do, as the gestalt selectors ask it: each
/// defaults to "cannot" at a display that claims nothing.
#[derive(Debug, Default, Clone, Copy, PartialEq, Eq, Structural)]
pub struct Abilities {
    /// Whether timer events can fire (Glk: Timer Events).
    pub timer_input: bool,
    /// Whether the player can click in a grid or graphics window.
    pub mouse_input: bool,
    /// Whether the player can select a hyperlink.
    pub hyperlink_input: bool,
    /// Whether images and rectangles can be drawn (Glk: Graphics).
    pub graphics: bool,
    /// Whether pictures can be set into a text buffer's flow.
    pub buffer_images: bool,
    /// Whether sound resources can be played (Glk: Sound).
    pub sound: bool,
}

/// The answer to a capability question (Glk: The Gestalt System).
pub open spec fn gestalt_of(selector: u32, value: u32, abilities: Abilities) -> u32 {
    if selector == glk_gestalt::VERSION {
        GLK_VERSION
    } else if selector == glk_gestalt::CHAR_INPUT {
        if printable(value) || (SPECIAL_KEYS <= value < key_code::UNKNOWN) {
            1
        } else {
            0
        }
    } else if selector == glk_gestalt::LINE_INPUT {
        if printable(value) && value != NEWLINE {
            1
        } else {
            0
        }
    } else if selector == glk_gestalt::CHAR_OUTPUT {
        if printable(value) {
            CHAR_OUTPUT_EXACT_PRINT
        } else {
            CHAR_OUTPUT_CANNOT_PRINT
        }
    } else if selector == glk_gestalt::GRAPHICS || selector == glk_gestalt::GRAPHICS_TRANSPARENCY
        || selector == glk_gestalt::GRAPHICS_CHAR_INPUT {
        if abilities.graphics {
            1
        } else {
            0
        }
    } else if selector == glk_gestalt::DRAW_IMAGE || selector == glk_gestalt::DRAW_IMAGE_SCALE {
        if (abilities.graphics && value == window_type::GRAPHICS) || (abilities.buffer_images
            && value == window_type::TEXT_BUFFER) {
            1
        } else {
            0
        }
    } else if selector == glk_gestalt::SOUND || selector == glk_gestalt::SOUND2 || selector
        == glk_gestalt::SOUND_VOLUME || selector == glk_gestalt::SOUND_NOTIFY {
        if abilities.sound {
            1
        } else {
            0
        }
    } else if selector == glk_gestalt::MOUSE_INPUT {
        if abilities.mouse_input && (value == window_type::TEXT_GRID || value
            == window_type::GRAPHICS) {
            1
        } else {
            0
        }
    } else if selector == glk_gestalt::TIMER {
        if abilities.timer_input {
            1
        } else {
            0
        }
    } else if selector == glk_gestalt::HYPERLINKS {
        1
    } else if selector == glk_gestalt::HYPERLINK_INPUT {
        if abilities.hyperlink_input {
            1
        } else {
            0
        }
    } else if selector == glk_gestalt::UNICODE || selector == glk_gestalt::UNICODE_NORM || selector
        == glk_gestalt::LINE_INPUT_ECHO || selector == glk_gestalt::LINE_TERMINATORS || selector
        == glk_gestalt::LINE_TERMINATOR_KEY || selector == glk_gestalt::DATE_TIME || selector
        == glk_gestalt::RESOURCE_STREAM {
        1
    } else {
        0
    }
}

/// Answer a capability question (Glk: The Gestalt System). Music --
/// MOD and song files -- stays honestly unclaimed, and every selector
/// from a Glk yet to be written answers zero.
pub fn gestalt_answer(selector: u32, value: u32, abilities: &Abilities) -> (answer: u32)
    ensures
        answer == gestalt_of(selector, value, *abilities),
{
    if selector == glk_gestalt::VERSION {
        GLK_VERSION
    } else if selector == glk_gestalt::CHAR_INPUT {
        // Any Latin-1 printable, plus the special keycodes. Unknown is
        // not a key a game can ask to receive -- it is what a display
        // reports when it cannot name one (Glk: Character Input).
        if is_printable(value) || (SPECIAL_KEYS <= value && value < key_code::UNKNOWN) {
            1
        } else {
            0
        }
    } else if selector == glk_gestalt::LINE_INPUT {
        // A line is made of printable characters; the special keys can
        // only end one (Glk: Line Input).
        if is_printable(value) && value != NEWLINE {
            1
        } else {
            0
        }
    } else if selector == glk_gestalt::CHAR_OUTPUT {
        if is_printable(value) {
            CHAR_OUTPUT_EXACT_PRINT
        } else {
            CHAR_OUTPUT_CANNOT_PRINT
        }
    } else if selector == glk_gestalt::GRAPHICS || selector == glk_gestalt::GRAPHICS_TRANSPARENCY
        || selector == glk_gestalt::GRAPHICS_CHAR_INPUT {
        if abilities.graphics {
            1
        } else {
            0
        }
    } else if selector == glk_gestalt::DRAW_IMAGE || selector == glk_gestalt::DRAW_IMAGE_SCALE {
        // The argument is a window type: "libraries may implement both,
        // neither, or only one" (Glk: Testing for Graphics
        // Capabilities).
        if (abilities.graphics && value == window_type::GRAPHICS) || (abilities.buffer_images
            && value == window_type::TEXT_BUFFER) {
            1
        } else {
            0
        }
    } else if selector == glk_gestalt::SOUND || selector == glk_gestalt::SOUND2 || selector
        == glk_gestalt::SOUND_VOLUME || selector == glk_gestalt::SOUND_NOTIFY {
        if abilities.sound {
            1
        } else {
            0
        }
    } else if selector == glk_gestalt::MOUSE_INPUT {
        // Only grids and graphics windows can carry a mouse position
        // (Glk: Mouse Input Events).
        if abilities.mouse_input && (value == window_type::TEXT_GRID || value
            == window_type::GRAPHICS) {
            1
        } else {
            0
        }
    } else if selector == glk_gestalt::TIMER {
        if abilities.timer_input {
            1
        } else {
            0
        }
    } else if selector == glk_gestalt::HYPERLINKS {
        // Link markup is accepted on any stream.
        1
    } else if selector == glk_gestalt::HYPERLINK_INPUT {
        if abilities.hyperlink_input {
            1
        } else {
            0
        }
    } else if selector == glk_gestalt::UNICODE || selector == glk_gestalt::UNICODE_NORM || selector
        == glk_gestalt::LINE_INPUT_ECHO || selector == glk_gestalt::LINE_TERMINATORS || selector
        == glk_gestalt::LINE_TERMINATOR_KEY || selector == glk_gestalt::DATE_TIME || selector
        == glk_gestalt::RESOURCE_STREAM {
        1
    } else {
        0
    }
}

/// Answer a capability question with room for extra answers: the
/// CharOutput selector also writes how many glyphs a character takes
/// into the first element of a nonempty array.
pub fn gestalt_ext(
    memory: &mut Memory,
    selector: u32,
    value: u32,
    array: Option<MemArray>,
    abilities: &Abilities,
) -> (result: Outcome<u32>)
    requires
        old(memory)@.wf(),
    ensures
        final(memory)@.wf(),
        ({
            let glyphs: u32 = if printable(value) {
                1
            } else {
                0
            };
            match array {
                Some(buf) => if selector == glk_gestalt::CHAR_OUTPUT && buf.count > 0 {
                    &&& final(memory)@ == buf.put(old(memory)@, 0, glyphs)
                    &&& result == if buf.settable(old(memory)@, 0) {
                        Ok::<u32, Stop>(gestalt_of(selector, value, *abilities))
                    } else {
                        Err(Stop::Fault(crate::memory::refusal(buf.element(0), old(memory)@.ramstart)))
                    }
                } else {
                    final(memory)@ == old(memory)@ && result == Ok::<u32, Stop>(
                        gestalt_of(selector, value, *abilities),
                    )
                },
                None => final(memory)@ == old(memory)@ && result == Ok::<u32, Stop>(
                    gestalt_of(selector, value, *abilities),
                ),
            }
        }),
{
    if selector == glk_gestalt::CHAR_OUTPUT {
        match array {
            Some(buf) => {
                if buf.count > 0 {
                    let glyphs: u32 = if is_printable(value) {
                        1
                    } else {
                        0
                    };
                    match buf.set(memory, 0, glyphs) {
                        Ok(()) => {},
                        Err(error) => {
                            return Err(Stop::Fault(error));
                        },
                    }
                }
            },
            None => {},
        }
    }
    Ok(gestalt_answer(selector, value, abilities))
}

// -- temporary files ---------------------------------------------------------
/// What getrandom reports when the system's random source fails.
#[verifier::external_type_specification]
#[verifier::external_body]
pub struct ExRandomError(getrandom::Error);

/// getrandom's `fill`: the bytes filled from the system's random
/// source, or its error. The bytes are chance; only that their count
/// stays is stated.
#[verifier::external_body]
fn random_fill(noise: &mut [u8]) -> (result: Result<(), getrandom::Error>)
    ensures
        final(noise)@.len() == old(noise)@.len(),
{
    getrandom::fill(noise)
}

/// The lower-case hexadecimal digit of a value below sixteen.
pub open spec fn nibble(value: int) -> char {
    if value < 10 {
        (('0' as int) + value) as char
    } else {
        (('a' as int) + value - 10) as char
    }
}

/// Bytes as two lower-case hexadecimal digits each.
pub open spec fn hex_pairs(noise: Seq<u8>) -> Seq<char>
    decreases noise.len(),
{
    if noise.len() == 0 {
        Seq::empty()
    } else {
        hex_pairs(noise.drop_last()) + seq![
            nibble(noise.last() as int / 16),
            nibble(noise.last() as int % 16),
        ]
    }
}

/// The name a temporary file takes from its noise.
pub open spec fn temp_name_of(noise: Seq<u8>) -> Seq<char> {
    "voxam-glk-"@ + hex_pairs(noise)
}

fn nibble_of(value: u8) -> (ch: char)
    requires
        value < 16,
    ensures
        ch == nibble(value as int),
{
    if value < 10 {
        (value + 48) as char
    } else {
        (value + 87) as char
    }
}

/// The name a temporary file takes from its noise: "voxam-glk-" and
/// the noise in hexadecimal.
pub fn temp_name(noise: &[u8]) -> (name: String)
    ensures
        name@ == temp_name_of(noise@),
{
    let mut name = String::from_str("voxam-glk-");
    let ghost start = name@;
    let mut index: usize = 0;
    while index < noise.len()
        invariant
            index <= noise@.len(),
            start == "voxam-glk-"@,
            name@ == start + hex_pairs(noise@.take(index as int)),
        decreases noise.len() - index,
    {
        let byte = noise[index];
        crate::text::push_char(&mut name, nibble_of(byte / 16));
        crate::text::push_char(&mut name, nibble_of(byte % 16));
        index += 1;
        proof {
            assert(noise@.take(index as int).drop_last() =~= noise@.take(index - 1));
            assert(name@ =~= start + hex_pairs(noise@.take(index as int)));
        }
    }
    proof {
        assert(noise@.take(noise@.len() as int) =~= noise@);
    }
    name
}

/// A fresh name for a temporary file, from eight bytes of system
/// noise; none when the random source fails.
pub fn fresh_temp_name() -> (name: Option<String>)
    ensures
        match name {
            Some(text) => exists|noise: Seq<u8>| noise.len() == 8 && text@ == temp_name_of(noise),
            None => true,
        },
{
    let mut noise: [u8; 8] = [0u8; 8];
    match random_fill(&mut noise) {
        Ok(()) => {
            let name = temp_name(&noise);
            Some(name)
        },
        Err(_) => None,
    }
}

} // verus!
