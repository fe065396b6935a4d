//! The Glk dispatch layer: every function's signature.
//!
//! The C world's gi_dispa.c hand-writes a switch returning
//! prototype strings like `"4&#!CnIuIu:Qb"`. Here each function is
//! declared as a readable argument list, and the prototype string
//! is *generated* from it, the generation proved against the
//! grammar.
//!
//! The grammar, as gi_dispa.c defines it: a prototype is a count
//! followed by items, like `"3Qa<Iu:Qa"` for glk_window_iterate.
//! The count includes the return value, which is the item carrying
//! the `:` prefix; a void function ends with a bare `:` that is not
//! counted. Prefixes appear in the order `[ref][+][#][!]` before the
//! type code -- reference direction, nonnull, array, retained.

use vstd::prelude::*;

use crate::text::{decimal, push_char, push_decimal};

verus! {

/// The opaque class numbers, from gi_dispa.h. The prototype codes
/// Qa through Qd map onto these in order.
pub const CLASS_WINDOW: u32 = 0;

pub const CLASS_STREAM: u32 = 1;

pub const CLASS_FILEREF: u32 = 2;

pub const CLASS_SCHANNEL: u32 = 3;

/// The type codes the table is written in. UNICHAR arguments are
/// plain U32 on purpose: a Unicode character argument is a full
/// word, where the Latin-1 char types are bytes.
#[derive(Debug, Clone, Copy, PartialEq, Eq, Structural)]
pub enum Code {
    /// Iu: an unsigned word.
    U32,
    /// Is: a signed word.
    I32,
    /// Cn: an unsigned Latin-1 character, one byte in an array.
    Char,
    /// Cu: an unsigned character argument.
    UChar,
    /// S: the address of an unencoded (E0) string object.
    CString,
    /// U: the address of an unencoded Unicode (E2) string object.
    UString,
    /// Qa: a window id.
    Window,
    /// Qb: a stream id.
    Stream,
    /// Qc: a fileref id.
    Fileref,
    /// Qd: a sound channel id.
    Schannel,
}

/// A type code's spelling in the prototype grammar.
pub open spec fn code_text(code: Code) -> Seq<char> {
    match code {
        Code::U32 => seq!['I', 'u'],
        Code::I32 => seq!['I', 's'],
        Code::Char => seq!['C', 'n'],
        Code::UChar => seq!['C', 'u'],
        Code::CString => seq!['S'],
        Code::UString => seq!['U'],
        Code::Window => seq!['Q', 'a'],
        Code::Stream => seq!['Q', 'b'],
        Code::Fileref => seq!['Q', 'c'],
        Code::Schannel => seq!['Q', 'd'],
    }
}

impl Code {
    fn prototype(self) -> (text: String)
        ensures
            text@ == code_text(self),
    {
        let mut text = String::new();
        match self {
            Code::U32 => {
                push_char(&mut text, 'I');
                push_char(&mut text, 'u');
            },
            Code::I32 => {
                push_char(&mut text, 'I');
                push_char(&mut text, 's');
            },
            Code::Char => {
                push_char(&mut text, 'C');
                push_char(&mut text, 'n');
            },
            Code::UChar => {
                push_char(&mut text, 'C');
                push_char(&mut text, 'u');
            },
            Code::CString => push_char(&mut text, 'S'),
            Code::UString => push_char(&mut text, 'U'),
            Code::Window => {
                push_char(&mut text, 'Q');
                push_char(&mut text, 'a');
            },
            Code::Stream => {
                push_char(&mut text, 'Q');
                push_char(&mut text, 'b');
            },
            Code::Fileref => {
                push_char(&mut text, 'Q');
                push_char(&mut text, 'c');
            },
            Code::Schannel => {
                push_char(&mut text, 'Q');
                push_char(&mut text, 'd');
            },
        }
        proof {
            assert(text@ =~= code_text(self));
        }
        text
    }
}

/// The reference direction a prototype prefix spells.
#[derive(Debug, Clone, Copy, PartialEq, Eq, Structural)]
pub enum Ref {
    /// A plain value.
    Plain,
    /// `<`: an output reference -- Glk writes, the game reads.
    Out,
    /// `>`: an input reference -- the game writes, Glk reads.
    In,
    /// `&`: a reference passing both ways.
    InOut,
}

/// A reference direction's prefix.
pub open spec fn ref_text(direction: Ref) -> Seq<char> {
    match direction {
        Ref::Plain => Seq::empty(),
        Ref::Out => seq!['<'],
        Ref::In => seq!['>'],
        Ref::InOut => seq!['&'],
    }
}

impl Ref {
    fn prototype(self) -> (text: String)
        ensures
            text@ == ref_text(self),
    {
        let mut text = String::new();
        match self {
            Ref::Plain => {},
            Ref::Out => push_char(&mut text, '<'),
            Ref::In => push_char(&mut text, '>'),
            Ref::InOut => push_char(&mut text, '&'),
        }
        proof {
            assert(text@ =~= ref_text(self));
        }
        text
    }
}

/// One item in a prototype: an argument, or the return value.
#[derive(Debug, Clone, PartialEq, Eq)]
pub struct Item {
    /// The type code, or None when the item is a struct.
    pub code: Option<Code>,
    /// The field types, when this item is a struct.
    pub fields: Vec<Code>,
    /// The reference direction.
    pub ref_dir: Ref,
    /// Whether the item is an array, consuming an address and a
    /// count.
    pub array: bool,
    /// Whether a null reference is forbidden.
    pub nonnull: bool,
    /// Whether Glk keeps the array after the call.
    pub retained: bool,
}

/// The flag prefixes of an item, in grammar order.
pub open spec fn flags_text(item: Item) -> Seq<char> {
    (if item.nonnull {
        seq!['+']
    } else {
        Seq::empty()
    }) + (if item.array {
        seq!['#']
    } else {
        Seq::empty()
    }) + (if item.retained {
        seq!['!']
    } else {
        Seq::empty()
    })
}

/// The type codes of a struct's fields, spelled one after another.
pub open spec fn codes_text(fields: Seq<Code>) -> Seq<char>
    decreases fields.len(),
{
    if fields.len() == 0 {
        Seq::empty()
    } else {
        codes_text(fields.drop_last()) + code_text(fields.last())
    }
}

/// An item's type: a bracketed, counted field list for a struct,
/// or its code.
pub open spec fn body_text(item: Item) -> Seq<char> {
    if item.fields@.len() > 0 {
        seq!['['] + decimal(item.fields@.len()) + codes_text(item.fields@) + seq![']']
    } else {
        match item.code {
            Some(code) => code_text(code),
            None => Seq::empty(),
        }
    }
}

/// An item in the prototype grammar behind a given prefix.
pub open spec fn item_text(item: Item, prefix: Seq<char>) -> Seq<char> {
    prefix + flags_text(item) + body_text(item)
}

/// Items in the prototype grammar, each behind its own direction.
pub open spec fn items_text(items: Seq<Item>) -> Seq<char>
    decreases items.len(),
{
    if items.len() == 0 {
        Seq::empty()
    } else {
        items_text(items.drop_last()) + item_text(items.last(), ref_text(items.last().ref_dir))
    }
}

/// How many words an item takes: an array is an address and a
/// count.
pub open spec fn item_words(item: Item) -> nat {
    if item.array {
        2
    } else {
        1
    }
}

/// How many words a list of items takes.
pub open spec fn items_words(items: Seq<Item>) -> nat
    decreases items.len(),
{
    if items.len() == 0 {
        0
    } else {
        items_words(items.drop_last()) + item_words(items.last())
    }
}

impl Item {
    /// Whether this item is a struct of fields.
    pub fn is_struct(&self) -> (result: bool)
        ensures
            result == (self.fields@.len() > 0),
    {
        self.fields.len() > 0
    }

    /// Whether this item is one of the four opaque classes.
    pub fn is_opaque(&self) -> (result: bool)
        ensures
            result == (self.code == Some(Code::Window) || self.code == Some(Code::Stream)
                || self.code == Some(Code::Fileref) || self.code == Some(Code::Schannel)),
    {
        self.opaque_class().is_some()
    }

    /// The opaque class number, or None for a plain type.
    pub fn opaque_class(&self) -> (class: Option<u32>)
        ensures
            class == match self.code {
                Some(Code::Window) => Some(CLASS_WINDOW),
                Some(Code::Stream) => Some(CLASS_STREAM),
                Some(Code::Fileref) => Some(CLASS_FILEREF),
                Some(Code::Schannel) => Some(CLASS_SCHANNEL),
                _ => None,
            },
    {
        match self.code {
            Some(Code::Window) => Some(CLASS_WINDOW),
            Some(Code::Stream) => Some(CLASS_STREAM),
            Some(Code::Fileref) => Some(CLASS_FILEREF),
            Some(Code::Schannel) => Some(CLASS_SCHANNEL),
            _ => None,
        }
    }

    /// Whether this item is a string object address.
    pub fn is_string(&self) -> (result: bool)
        ensures
            result == (self.code == Some(Code::CString) || self.code == Some(Code::UString)),
    {
        match self.code {
            Some(Code::CString) | Some(Code::UString) => true,
            _ => false,
        }
    }

    /// Whether this item's value is signed.
    pub fn signed(&self) -> (result: bool)
        ensures
            result == (self.code == Some(Code::I32)),
    {
        match self.code {
            Some(Code::I32) => true,
            _ => false,
        }
    }

    /// Bytes per element: 1 for the char types, 4 otherwise.
    pub fn element_size(&self) -> (size: u32)
        ensures
            size == if self.code == Some(Code::Char) || self.code == Some(Code::UChar) {
                1u32
            } else {
                4u32
            },
    {
        match self.code {
            Some(Code::Char) | Some(Code::UChar) => 1,
            _ => 4,
        }
    }

    /// Whether a value passes from the game into Glk.
    pub fn passes_in(&self) -> (result: bool)
        ensures
            result == (self.ref_dir == Ref::In || self.ref_dir == Ref::InOut),
    {
        match self.ref_dir {
            Ref::In | Ref::InOut => true,
            _ => false,
        }
    }

    /// Whether a value passes from Glk back to the game.
    pub fn passes_out(&self) -> (result: bool)
        ensures
            result == (self.ref_dir == Ref::Out || self.ref_dir == Ref::InOut),
    {
        match self.ref_dir {
            Ref::Out | Ref::InOut => true,
            _ => false,
        }
    }

    /// Whether the game passes an address rather than a value.
    pub fn is_reference(&self) -> (result: bool)
        ensures
            result == (self.ref_dir != Ref::Plain),
    {
        match self.ref_dir {
            Ref::Plain => false,
            _ => true,
        }
    }

    /// How many 32-bit Glulx arguments this item consumes.
    ///
    /// "An array argument, unlike a string argument, is always
    /// followed by an array length argument" -- so an array is two
    /// words where everything else is one (Glulx: Miscellaneous,
    /// under the glk opcode).
    pub fn word_count(&self) -> (count: u32)
        ensures
            count == item_words(*self),
    {
        if self.array {
            2
        } else {
            1
        }
    }

    /// This item rendered in gi_dispa.c's prototype grammar, its
    /// reference prefix spelled as given -- the return value wears
    /// ":" in place of a direction.
    #[verifier::rlimit(40)]
    #[verifier::spinoff_prover]
    fn prototype_as(&self, ref_prefix: &str) -> (text: String)
        ensures
            text@ == item_text(*self, ref_prefix@),
    {
        let mut out = String::from_str(ref_prefix);
        if self.nonnull {
            push_char(&mut out, '+');
        }
        if self.array {
            push_char(&mut out, '#');
        }
        if self.retained {
            push_char(&mut out, '!');
        }
        proof {
            assert(out@ =~= ref_prefix@ + flags_text(*self));
        }
        let ghost flagged = out@;
        if self.fields.len() > 0 {
            push_char(&mut out, '[');
            push_decimal(&mut out, self.fields.len() as u64);
            let mut index: usize = 0;
            while index < self.fields.len()
                invariant
                    index <= self.fields@.len(),
                    out@ == flagged + seq!['['] + decimal(self.fields@.len()) + codes_text(
                        self.fields@.take(index as int),
                    ),
                decreases self.fields.len() - index,
            {
                let piece = self.fields[index].prototype();
                out.append(piece.as_str());
                proof {
                    assert(self.fields@.take(index + 1).drop_last() =~= self.fields@.take(
                        index as int,
                    ));
                }
                index += 1;
            }
            push_char(&mut out, ']');
            proof {
                assert(self.fields@.take(self.fields@.len() as int) =~= self.fields@);
                assert(out@ =~= item_text(*self, ref_prefix@));
            }
        } else {
            match self.code {
                Some(code) => {
                    let piece = code.prototype();
                    out.append(piece.as_str());
                },
                None => {},
            }
            proof {
                assert(out@ =~= item_text(*self, ref_prefix@));
            }
        }
        out
    }

    /// This item rendered with its own reference prefix.
    pub fn prototype(&self) -> (text: String)
        ensures
            text@ == item_text(*self, ref_text(self.ref_dir)),
    {
        let prefix = self.ref_dir.prototype();
        self.prototype_as(prefix.as_str())
    }
}

/// A plain value of a type code.
pub fn plain(code: Code) -> (item: Item)
    ensures
        item.code == Some(code),
        item.fields@.len() == 0,
        item.ref_dir == Ref::Plain,
        !item.array && !item.nonnull && !item.retained,
        item_view(item) == plain_v(code),
{
    let item = Item {
        code: Some(code),
        fields: Vec::new(),
        ref_dir: Ref::Plain,
        array: false,
        nonnull: false,
        retained: false,
    };
    proof {
        assert(item.fields@ =~= Seq::<Code>::empty());
    }
    item
}

/// An output reference: Glk writes, the game reads.
pub fn out(item: Item) -> (result: Item)
    ensures
        result == (Item { ref_dir: Ref::Out, ..item }),
{
    Item { ref_dir: Ref::Out, ..item }
}

/// An output reference that forbids null.
pub fn out_nonnull(item: Item) -> (result: Item)
    ensures
        result == (Item { ref_dir: Ref::Out, nonnull: true, ..item }),
{
    Item { ref_dir: Ref::Out, nonnull: true, ..item }
}

/// An input reference: the game writes, Glk reads.
pub fn into(item: Item) -> (result: Item)
    ensures
        result == (Item { ref_dir: Ref::In, ..item }),
{
    Item { ref_dir: Ref::In, ..item }
}

/// An input reference that forbids null.
pub fn into_nonnull(item: Item) -> (result: Item)
    ensures
        result == (Item { ref_dir: Ref::In, nonnull: true, ..item }),
{
    Item { ref_dir: Ref::In, nonnull: true, ..item }
}

/// A reference passing both ways.
pub fn inout(item: Item) -> (result: Item)
    ensures
        result == (Item { ref_dir: Ref::InOut, ..item }),
{
    Item { ref_dir: Ref::InOut, ..item }
}

/// An array of items: an address and a count, two words.
pub fn array(item: Item, ref_dir: Ref, nonnull: bool, retained: bool) -> (result: Item)
    ensures
        result == (Item { ref_dir, array: true, nonnull, retained, ..item }),
{
    Item { ref_dir, array: true, nonnull, retained, ..item }
}

/// A struct of fields, passed as one reference.
fn fields(codes: Vec<Code>) -> (item: Item)
    ensures
        item.code == None::<Code>,
        item.fields == codes,
        item.ref_dir == Ref::Plain,
        !item.array && !item.nonnull && !item.retained,
{
    Item { code: None, fields: codes, ref_dir: Ref::Plain, array: false, nonnull: false, retained: false }
}

/// event_t: the event type, window, and two values (gi_dispa.h).
pub fn event() -> (item: Item)
    ensures
        item.fields@ == seq![Code::U32, Code::Window, Code::U32, Code::U32],
        item.code == None::<Code>,
        item.ref_dir == Ref::Plain,
        !item.array && !item.nonnull && !item.retained,
{
    fields(vec![Code::U32, Code::Window, Code::U32, Code::U32])
}

/// stream_result_t: characters read and written.
pub fn stream_result() -> (item: Item)
    ensures
        item.fields@ == seq![Code::U32, Code::U32],
        item.code == None::<Code>,
        item.ref_dir == Ref::Plain,
        !item.array && !item.nonnull && !item.retained,
{
    fields(vec![Code::U32, Code::U32])
}

/// glktimeval_t: high seconds, low seconds, microseconds.
pub fn timeval() -> (item: Item)
    ensures
        item.fields@ == seq![Code::I32, Code::U32, Code::I32],
        item.code == None::<Code>,
        item.ref_dir == Ref::Plain,
        !item.array && !item.nonnull && !item.retained,
{
    fields(vec![Code::I32, Code::U32, Code::I32])
}

/// glkdate_t: eight signed fields.
pub fn date() -> (item: Item)
    ensures
        item.fields@ == seq![
            Code::I32,
            Code::I32,
            Code::I32,
            Code::I32,
            Code::I32,
            Code::I32,
            Code::I32,
            Code::I32,
        ],
        item.code == None::<Code>,
        item.ref_dir == Ref::Plain,
        !item.array && !item.nonnull && !item.retained,
{
    fields(
        vec![
            Code::I32,
            Code::I32,
            Code::I32,
            Code::I32,
            Code::I32,
            Code::I32,
            Code::I32,
            Code::I32,
        ],
    )
}

/// One Glk function's dispatch signature.
#[derive(Debug, Clone, PartialEq, Eq)]
pub struct Signature {
    /// The selector the glk opcode names the function by.
    pub number: u32,
    /// The bare function name, without the glk_ prefix.
    pub name: &'static str,
    /// The argument items, in call order.
    pub args: Vec<Item>,
    /// The return item, or None for a void function.
    pub result: Option<Item>,
}

/// A whole signature in the prototype grammar: the count of items
/// (the return value included), the arguments, and the return value
/// behind ":" -- or a bare ":" for a void function.
pub open spec fn signature_text(signature: Signature) -> Seq<char> {
    decimal(
        signature.args@.len() + if signature.result is Some {
            1nat
        } else {
            0nat
        },
    ) + items_text(signature.args@) + match signature.result {
        Some(result) => item_text(result, seq![':']),
        None => seq![':'],
    }
}

impl Signature {
    /// The function's full name, glk_ prefix included.
    pub fn glk_name(&self) -> (name: String)
        ensures
            name@ == seq!['g', 'l', 'k', '_'] + self.name@,
    {
        let mut name = String::new();
        push_char(&mut name, 'g');
        push_char(&mut name, 'l');
        push_char(&mut name, 'k');
        push_char(&mut name, '_');
        name.append(self.name);
        proof {
            assert(name@ =~= seq!['g', 'l', 'k', '_'] + self.name@);
        }
        name
    }

    /// Total 32-bit arguments the glk opcode must supply.
    pub fn word_count(&self) -> (count: u32)
        requires
            self.args@.len() < 0x8000_0000,
        ensures
            count == items_words(self.args@),
    {
        let mut count: u32 = 0;
        let mut index: usize = 0;
        while index < self.args.len()
            invariant
                index <= self.args@.len(),
                self.args@.len() < 0x8000_0000,
                count == items_words(self.args@.take(index as int)),
                count <= 2 * index,
            decreases self.args.len() - index,
        {
            proof {
                assert(self.args@.take(index + 1).drop_last() =~= self.args@.take(index as int));
            }
            count = count + self.args[index].word_count();
            index += 1;
        }
        proof {
            assert(self.args@.take(self.args@.len() as int) =~= self.args@);
        }
        count
    }

    /// The whole signature in gi_dispa.c's prototype grammar.
    pub fn prototype(&self) -> (text: String)
        requires
            self.args@.len() < 0x8000_0000,
        ensures
            text@ == signature_text(*self),
    {
        let count = self.args.len() + if self.result.is_some() {
            1
        } else {
            0
        };
        let mut text = String::new();
        push_decimal(&mut text, count as u64);
        let ghost counted = text@;
        let mut index: usize = 0;
        while index < self.args.len()
            invariant
                index <= self.args@.len(),
                text@ == counted + items_text(self.args@.take(index as int)),
            decreases self.args.len() - index,
        {
            let piece = self.args[index].prototype();
            text.append(piece.as_str());
            proof {
                assert(self.args@.take(index + 1).drop_last() =~= self.args@.take(index as int));
            }
            index += 1;
        }
        proof {
            assert(self.args@.take(self.args@.len() as int) =~= self.args@);
        }
        match &self.result {
            Some(result) => {
                let tail = result.prototype_as(":");
                proof {
                    assert(":"@ == seq![':']) by {
                        reveal_strlit(":");
                    }
                }
                text.append(tail.as_str());
            },
            None => push_char(&mut text, ':'),
        }
        proof {
            assert(text@ =~= signature_text(*self));
        }
        text
    }
}

fn sig(number: u32, name: &'static str, args: Vec<Item>, result: Option<Item>) -> (signature:
    Signature)
    ensures
        signature == (Signature { number, name, args, result }),
{
    Signature { number, name, args, result }
}

/// Whether a number is a Glk selector the table declares.
/// glk_set_interrupt_handler (0x0002) is absent on purpose: its
/// prototype in gi_dispa.c is NULL, meaning it cannot be invoked
/// through the dispatch layer at all.
pub open spec fn is_selector(number: u32) -> bool {
    ||| number == 0x0001
    ||| number == 0x0003
    ||| number == 0x0004
    ||| number == 0x0005
    ||| number == 0x0020
    ||| number == 0x0021
    ||| number == 0x0022
    ||| number == 0x0023
    ||| number == 0x0024
    ||| number == 0x0025
    ||| number == 0x0026
    ||| number == 0x0027
    ||| number == 0x0028
    ||| number == 0x0029
    ||| number == 0x002A
    ||| number == 0x002B
    ||| number == 0x002C
    ||| number == 0x002D
    ||| number == 0x002E
    ||| number == 0x002F
    ||| number == 0x0030
    ||| number == 0x0040
    ||| number == 0x0041
    ||| number == 0x0042
    ||| number == 0x0043
    ||| number == 0x0044
    ||| number == 0x0045
    ||| number == 0x0046
    ||| number == 0x0047
    ||| number == 0x0048
    ||| number == 0x0049
    ||| number == 0x0060
    ||| number == 0x0061
    ||| number == 0x0062
    ||| number == 0x0063
    ||| number == 0x0064
    ||| number == 0x0065
    ||| number == 0x0066
    ||| number == 0x0067
    ||| number == 0x0068
    ||| number == 0x0080
    ||| number == 0x0081
    ||| number == 0x0082
    ||| number == 0x0083
    ||| number == 0x0084
    ||| number == 0x0085
    ||| number == 0x0086
    ||| number == 0x0087
    ||| number == 0x0090
    ||| number == 0x0091
    ||| number == 0x0092
    ||| number == 0x00A0
    ||| number == 0x00A1
    ||| number == 0x00B0
    ||| number == 0x00B1
    ||| number == 0x00B2
    ||| number == 0x00B3
    ||| number == 0x00C0
    ||| number == 0x00C1
    ||| number == 0x00D0
    ||| number == 0x00D1
    ||| number == 0x00D2
    ||| number == 0x00D3
    ||| number == 0x00D4
    ||| number == 0x00D5
    ||| number == 0x00D6
    ||| number == 0x00E0
    ||| number == 0x00E1
    ||| number == 0x00E2
    ||| number == 0x00E8
    ||| number == 0x00E9
    ||| number == 0x00EA
    ||| number == 0x00EB
    ||| number == 0x00EC
    ||| number == 0x00F0
    ||| number == 0x00F1
    ||| number == 0x00F2
    ||| number == 0x00F3
    ||| number == 0x00F4
    ||| number == 0x00F7
    ||| number == 0x00F8
    ||| number == 0x00F9
    ||| number == 0x00FA
    ||| number == 0x00FB
    ||| number == 0x00FC
    ||| number == 0x00FD
    ||| number == 0x00FE
    ||| number == 0x00FF
    ||| number == 0x0100
    ||| number == 0x0101
    ||| number == 0x0102
    ||| number == 0x0103
    ||| number == 0x0120
    ||| number == 0x0121
    ||| number == 0x0122
    ||| number == 0x0123
    ||| number == 0x0124
    ||| number == 0x0128
    ||| number == 0x0129
    ||| number == 0x012A
    ||| number == 0x012B
    ||| number == 0x012C
    ||| number == 0x012D
    ||| number == 0x0130
    ||| number == 0x0131
    ||| number == 0x0132
    ||| number == 0x0138
    ||| number == 0x0139
    ||| number == 0x013A
    ||| number == 0x0140
    ||| number == 0x0141
    ||| number == 0x0150
    ||| number == 0x0151
    ||| number == 0x0160
    ||| number == 0x0161
    ||| number == 0x0168
    ||| number == 0x0169
    ||| number == 0x016A
    ||| number == 0x016B
    ||| number == 0x016C
    ||| number == 0x016D
    ||| number == 0x016E
    ||| number == 0x016F
}

/// An item of a signature as plain values: its type code, its
/// fields, its reference direction, and whether it is an array,
/// forbids null, and is retained.
pub type ItemView = (Option<Code>, Seq<Code>, Ref, bool, bool, bool);

/// A signature as plain values: its selector, its name, its argument
/// items, and its return item.
pub type SignatureView = (u32, Seq<char>, Seq<ItemView>, Option<ItemView>);

/// An item's plain values.
pub open spec fn item_view(item: Item) -> ItemView {
    (item.code, item.fields@, item.ref_dir, item.array, item.nonnull, item.retained)
}

/// A plain value of a type code.
pub open spec fn plain_v(code: Code) -> ItemView {
    (Some(code), Seq::empty(), Ref::Plain, false, false, false)
}

/// An output reference.
pub open spec fn out_v(item: ItemView) -> ItemView {
    (item.0, item.1, Ref::Out, item.3, item.4, item.5)
}

/// An output reference that forbids null.
pub open spec fn out_nonnull_v(item: ItemView) -> ItemView {
    (item.0, item.1, Ref::Out, item.3, true, item.5)
}

/// An input reference that forbids null.
pub open spec fn into_nonnull_v(item: ItemView) -> ItemView {
    (item.0, item.1, Ref::In, item.3, true, item.5)
}

/// An array of items.
pub open spec fn array_v(item: ItemView, ref_dir: Ref, nonnull: bool, retained: bool) -> ItemView {
    (item.0, item.1, ref_dir, true, nonnull, retained)
}

/// A struct of fields.
pub open spec fn fields_v(codes: Seq<Code>) -> ItemView {
    (None, codes, Ref::Plain, false, false, false)
}

/// event_t.
pub open spec fn event_v() -> ItemView {
    fields_v(seq![Code::U32, Code::Window, Code::U32, Code::U32])
}

/// stream_result_t.
pub open spec fn stream_result_v() -> ItemView {
    fields_v(seq![Code::U32, Code::U32])
}

/// glktimeval_t.
pub open spec fn timeval_v() -> ItemView {
    fields_v(seq![Code::I32, Code::U32, Code::I32])
}

/// glkdate_t.
pub open spec fn date_v() -> ItemView {
    fields_v(
        seq![
            Code::I32,
            Code::I32,
            Code::I32,
            Code::I32,
            Code::I32,
            Code::I32,
            Code::I32,
            Code::I32,
        ],
    )
}

/// A signature's plain values.
pub open spec fn sig_v(number: u32, name: Seq<char>, args: Seq<ItemView>, result: Option<ItemView>) -> SignatureView {
    (number, name, args, result)
}

/// Whether a signature is the one its plain values describe.
pub open spec fn describes(signature: Signature, view: SignatureView) -> bool {
    &&& signature.number == view.0
    &&& signature.name@ == view.1
    &&& signature.args@.len() == view.2.len()
    &&& forall|i: int| 0 <= i < view.2.len() ==> item_view(#[trigger] signature.args@[i]) == view.2[i]
    &&& match (signature.result, view.3) {
        (Some(result), Some(expected)) => item_view(result) == expected,
        (None, None) => true,
        _ => false,
    }
}

/// The signature of every Glk selector the dispatch layer can invoke,
/// in the grammar gi_dispa.c writes its prototypes in: the name, the
/// argument items in call order, and the return item.
pub open spec fn signature_table(number: u32) -> Option<SignatureView> {
    match number {
        0x0001 => Some(sig_v(0x0001, "exit"@, seq![], None)),
        0x0003 => Some(sig_v(0x0003, "tick"@, seq![], None)),
        0x0004 => Some(sig_v(0x0004, "gestalt"@, seq![plain_v(Code::U32), plain_v(Code::U32)], Some(plain_v(Code::U32)))),
        0x0005 => Some(sig_v(0x0005, "gestalt_ext"@, seq![plain_v(Code::U32), plain_v(Code::U32), array_v(plain_v(Code::U32), Ref::InOut, false, false)], Some(plain_v(Code::U32)))),
        0x0020 => Some(sig_v(0x0020, "window_iterate"@, seq![plain_v(Code::Window), out_v(plain_v(Code::U32))], Some(plain_v(Code::Window)))),
        0x0021 => Some(sig_v(0x0021, "window_get_rock"@, seq![plain_v(Code::Window)], Some(plain_v(Code::U32)))),
        0x0022 => Some(sig_v(0x0022, "window_get_root"@, seq![], Some(plain_v(Code::Window)))),
        0x0023 => Some(sig_v(0x0023, "window_open"@, seq![plain_v(Code::Window), plain_v(Code::U32), plain_v(Code::U32), plain_v(Code::U32), plain_v(Code::U32)], Some(plain_v(Code::Window)))),
        0x0024 => Some(sig_v(0x0024, "window_close"@, seq![plain_v(Code::Window), out_v(stream_result_v())], None)),
        0x0025 => Some(sig_v(0x0025, "window_get_size"@, seq![plain_v(Code::Window), out_v(plain_v(Code::U32)), out_v(plain_v(Code::U32))], None)),
        0x0026 => Some(sig_v(0x0026, "window_set_arrangement"@, seq![plain_v(Code::Window), plain_v(Code::U32), plain_v(Code::U32), plain_v(Code::Window)], None)),
        0x0027 => Some(sig_v(0x0027, "window_get_arrangement"@, seq![plain_v(Code::Window), out_v(plain_v(Code::U32)), out_v(plain_v(Code::U32)), out_v(plain_v(Code::Window))], None)),
        0x0028 => Some(sig_v(0x0028, "window_get_type"@, seq![plain_v(Code::Window)], Some(plain_v(Code::U32)))),
        0x0029 => Some(sig_v(0x0029, "window_get_parent"@, seq![plain_v(Code::Window)], Some(plain_v(Code::Window)))),
        0x002A => Some(sig_v(0x002A, "window_clear"@, seq![plain_v(Code::Window)], None)),
        0x002B => Some(sig_v(0x002B, "window_move_cursor"@, seq![plain_v(Code::Window), plain_v(Code::U32), plain_v(Code::U32)], None)),
        0x002C => Some(sig_v(0x002C, "window_get_stream"@, seq![plain_v(Code::Window)], Some(plain_v(Code::Stream)))),
        0x002D => Some(sig_v(0x002D, "window_set_echo_stream"@, seq![plain_v(Code::Window), plain_v(Code::Stream)], None)),
        0x002E => Some(sig_v(0x002E, "window_get_echo_stream"@, seq![plain_v(Code::Window)], Some(plain_v(Code::Stream)))),
        0x002F => Some(sig_v(0x002F, "set_window"@, seq![plain_v(Code::Window)], None)),
        0x0030 => Some(sig_v(0x0030, "window_get_sibling"@, seq![plain_v(Code::Window)], Some(plain_v(Code::Window)))),
        0x0040 => Some(sig_v(0x0040, "stream_iterate"@, seq![plain_v(Code::Stream), out_v(plain_v(Code::U32))], Some(plain_v(Code::Stream)))),
        0x0041 => Some(sig_v(0x0041, "stream_get_rock"@, seq![plain_v(Code::Stream)], Some(plain_v(Code::U32)))),
        0x0042 => Some(sig_v(0x0042, "stream_open_file"@, seq![plain_v(Code::Fileref), plain_v(Code::U32), plain_v(Code::U32)], Some(plain_v(Code::Stream)))),
        0x0043 => Some(sig_v(0x0043, "stream_open_memory"@, seq![array_v(plain_v(Code::Char), Ref::InOut, false, true), plain_v(Code::U32), plain_v(Code::U32)], Some(plain_v(Code::Stream)))),
        0x0044 => Some(sig_v(0x0044, "stream_close"@, seq![plain_v(Code::Stream), out_v(stream_result_v())], None)),
        0x0045 => Some(sig_v(0x0045, "stream_set_position"@, seq![plain_v(Code::Stream), plain_v(Code::I32), plain_v(Code::U32)], None)),
        0x0046 => Some(sig_v(0x0046, "stream_get_position"@, seq![plain_v(Code::Stream)], Some(plain_v(Code::U32)))),
        0x0047 => Some(sig_v(0x0047, "stream_set_current"@, seq![plain_v(Code::Stream)], None)),
        0x0048 => Some(sig_v(0x0048, "stream_get_current"@, seq![], Some(plain_v(Code::Stream)))),
        0x0049 => Some(sig_v(0x0049, "stream_open_resource"@, seq![plain_v(Code::U32), plain_v(Code::U32)], Some(plain_v(Code::Stream)))),
        0x0060 => Some(sig_v(0x0060, "fileref_create_temp"@, seq![plain_v(Code::U32), plain_v(Code::U32)], Some(plain_v(Code::Fileref)))),
        0x0061 => Some(sig_v(0x0061, "fileref_create_by_name"@, seq![plain_v(Code::U32), plain_v(Code::CString), plain_v(Code::U32)], Some(plain_v(Code::Fileref)))),
        0x0062 => Some(sig_v(0x0062, "fileref_create_by_prompt"@, seq![plain_v(Code::U32), plain_v(Code::U32), plain_v(Code::U32)], Some(plain_v(Code::Fileref)))),
        0x0063 => Some(sig_v(0x0063, "fileref_destroy"@, seq![plain_v(Code::Fileref)], None)),
        0x0064 => Some(sig_v(0x0064, "fileref_iterate"@, seq![plain_v(Code::Fileref), out_v(plain_v(Code::U32))], Some(plain_v(Code::Fileref)))),
        0x0065 => Some(sig_v(0x0065, "fileref_get_rock"@, seq![plain_v(Code::Fileref)], Some(plain_v(Code::U32)))),
        0x0066 => Some(sig_v(0x0066, "fileref_delete_file"@, seq![plain_v(Code::Fileref)], None)),
        0x0067 => Some(sig_v(0x0067, "fileref_does_file_exist"@, seq![plain_v(Code::Fileref)], Some(plain_v(Code::U32)))),
        0x0068 => Some(sig_v(0x0068, "fileref_create_from_fileref"@, seq![plain_v(Code::U32), plain_v(Code::Fileref), plain_v(Code::U32)], Some(plain_v(Code::Fileref)))),
        0x0080 => Some(sig_v(0x0080, "put_char"@, seq![plain_v(Code::UChar)], None)),
        0x0081 => Some(sig_v(0x0081, "put_char_stream"@, seq![plain_v(Code::Stream), plain_v(Code::UChar)], None)),
        0x0082 => Some(sig_v(0x0082, "put_string"@, seq![plain_v(Code::CString)], None)),
        0x0083 => Some(sig_v(0x0083, "put_string_stream"@, seq![plain_v(Code::Stream), plain_v(Code::CString)], None)),
        0x0084 => Some(sig_v(0x0084, "put_buffer"@, seq![array_v(plain_v(Code::Char), Ref::In, true, false)], None)),
        0x0085 => Some(sig_v(0x0085, "put_buffer_stream"@, seq![plain_v(Code::Stream), array_v(plain_v(Code::Char), Ref::In, true, false)], None)),
        0x0086 => Some(sig_v(0x0086, "set_style"@, seq![plain_v(Code::U32)], None)),
        0x0087 => Some(sig_v(0x0087, "set_style_stream"@, seq![plain_v(Code::Stream), plain_v(Code::U32)], None)),
        0x0090 => Some(sig_v(0x0090, "get_char_stream"@, seq![plain_v(Code::Stream)], Some(plain_v(Code::I32)))),
        0x0091 => Some(sig_v(0x0091, "get_line_stream"@, seq![plain_v(Code::Stream), array_v(plain_v(Code::Char), Ref::Out, true, false)], Some(plain_v(Code::U32)))),
        0x0092 => Some(sig_v(0x0092, "get_buffer_stream"@, seq![plain_v(Code::Stream), array_v(plain_v(Code::Char), Ref::Out, true, false)], Some(plain_v(Code::U32)))),
        0x00A0 => Some(sig_v(0x00A0, "char_to_lower"@, seq![plain_v(Code::UChar)], Some(plain_v(Code::UChar)))),
        0x00A1 => Some(sig_v(0x00A1, "char_to_upper"@, seq![plain_v(Code::UChar)], Some(plain_v(Code::UChar)))),
        0x00B0 => Some(sig_v(0x00B0, "stylehint_set"@, seq![plain_v(Code::U32), plain_v(Code::U32), plain_v(Code::U32), plain_v(Code::I32)], None)),
        0x00B1 => Some(sig_v(0x00B1, "stylehint_clear"@, seq![plain_v(Code::U32), plain_v(Code::U32), plain_v(Code::U32)], None)),
        0x00B2 => Some(sig_v(0x00B2, "style_distinguish"@, seq![plain_v(Code::Window), plain_v(Code::U32), plain_v(Code::U32)], Some(plain_v(Code::U32)))),
        0x00B3 => Some(sig_v(0x00B3, "style_measure"@, seq![plain_v(Code::Window), plain_v(Code::U32), plain_v(Code::U32), out_v(plain_v(Code::U32))], Some(plain_v(Code::U32)))),
        0x00C0 => Some(sig_v(0x00C0, "select"@, seq![out_nonnull_v(event_v())], None)),
        0x00C1 => Some(sig_v(0x00C1, "select_poll"@, seq![out_nonnull_v(event_v())], None)),
        0x00D0 => Some(sig_v(0x00D0, "request_line_event"@, seq![plain_v(Code::Window), array_v(plain_v(Code::Char), Ref::InOut, true, true), plain_v(Code::U32)], None)),
        0x00D1 => Some(sig_v(0x00D1, "cancel_line_event"@, seq![plain_v(Code::Window), out_v(event_v())], None)),
        0x00D2 => Some(sig_v(0x00D2, "request_char_event"@, seq![plain_v(Code::Window)], None)),
        0x00D3 => Some(sig_v(0x00D3, "cancel_char_event"@, seq![plain_v(Code::Window)], None)),
        0x00D4 => Some(sig_v(0x00D4, "request_mouse_event"@, seq![plain_v(Code::Window)], None)),
        0x00D5 => Some(sig_v(0x00D5, "cancel_mouse_event"@, seq![plain_v(Code::Window)], None)),
        0x00D6 => Some(sig_v(0x00D6, "request_timer_events"@, seq![plain_v(Code::U32)], None)),
        0x00E0 => Some(sig_v(0x00E0, "image_get_info"@, seq![plain_v(Code::U32), out_v(plain_v(Code::U32)), out_v(plain_v(Code::U32))], Some(plain_v(Code::U32)))),
        0x00E1 => Some(sig_v(0x00E1, "image_draw"@, seq![plain_v(Code::Window), plain_v(Code::U32), plain_v(Code::I32), plain_v(Code::I32)], Some(plain_v(Code::U32)))),
        0x00E2 => Some(sig_v(0x00E2, "image_draw_scaled"@, seq![plain_v(Code::Window), plain_v(Code::U32), plain_v(Code::I32), plain_v(Code::I32), plain_v(Code::U32), plain_v(Code::U32)], Some(plain_v(Code::U32)))),
        0x00E8 => Some(sig_v(0x00E8, "window_flow_break"@, seq![plain_v(Code::Window)], None)),
        0x00E9 => Some(sig_v(0x00E9, "window_erase_rect"@, seq![plain_v(Code::Window), plain_v(Code::I32), plain_v(Code::I32), plain_v(Code::U32), plain_v(Code::U32)], None)),
        0x00EA => Some(sig_v(0x00EA, "window_fill_rect"@, seq![plain_v(Code::Window), plain_v(Code::U32), plain_v(Code::I32), plain_v(Code::I32), plain_v(Code::U32), plain_v(Code::U32)], None)),
        0x00EB => Some(sig_v(0x00EB, "window_set_background_color"@, seq![plain_v(Code::Window), plain_v(Code::U32)], None)),
        0x00EC => Some(sig_v(0x00EC, "image_draw_scaled_ext"@, seq![plain_v(Code::Window), plain_v(Code::U32), plain_v(Code::I32), plain_v(Code::I32), plain_v(Code::U32), plain_v(Code::U32), plain_v(Code::U32), plain_v(Code::U32)], Some(plain_v(Code::U32)))),
        0x00F0 => Some(sig_v(0x00F0, "schannel_iterate"@, seq![plain_v(Code::Schannel), out_v(plain_v(Code::U32))], Some(plain_v(Code::Schannel)))),
        0x00F1 => Some(sig_v(0x00F1, "schannel_get_rock"@, seq![plain_v(Code::Schannel)], Some(plain_v(Code::U32)))),
        0x00F2 => Some(sig_v(0x00F2, "schannel_create"@, seq![plain_v(Code::U32)], Some(plain_v(Code::Schannel)))),
        0x00F3 => Some(sig_v(0x00F3, "schannel_destroy"@, seq![plain_v(Code::Schannel)], None)),
        0x00F4 => Some(sig_v(0x00F4, "schannel_create_ext"@, seq![plain_v(Code::U32), plain_v(Code::U32)], Some(plain_v(Code::Schannel)))),
        0x00F7 => Some(sig_v(0x00F7, "schannel_play_multi"@, seq![array_v(plain_v(Code::Schannel), Ref::In, true, false), array_v(plain_v(Code::U32), Ref::In, true, false), plain_v(Code::U32)], Some(plain_v(Code::U32)))),
        0x00F8 => Some(sig_v(0x00F8, "schannel_play"@, seq![plain_v(Code::Schannel), plain_v(Code::U32)], Some(plain_v(Code::U32)))),
        0x00F9 => Some(sig_v(0x00F9, "schannel_play_ext"@, seq![plain_v(Code::Schannel), plain_v(Code::U32), plain_v(Code::U32), plain_v(Code::U32)], Some(plain_v(Code::U32)))),
        0x00FA => Some(sig_v(0x00FA, "schannel_stop"@, seq![plain_v(Code::Schannel)], None)),
        0x00FB => Some(sig_v(0x00FB, "schannel_set_volume"@, seq![plain_v(Code::Schannel), plain_v(Code::U32)], None)),
        0x00FC => Some(sig_v(0x00FC, "sound_load_hint"@, seq![plain_v(Code::U32), plain_v(Code::U32)], None)),
        0x00FD => Some(sig_v(0x00FD, "schannel_set_volume_ext"@, seq![plain_v(Code::Schannel), plain_v(Code::U32), plain_v(Code::U32), plain_v(Code::U32)], None)),
        0x00FE => Some(sig_v(0x00FE, "schannel_pause"@, seq![plain_v(Code::Schannel)], None)),
        0x00FF => Some(sig_v(0x00FF, "schannel_unpause"@, seq![plain_v(Code::Schannel)], None)),
        0x0100 => Some(sig_v(0x0100, "set_hyperlink"@, seq![plain_v(Code::U32)], None)),
        0x0101 => Some(sig_v(0x0101, "set_hyperlink_stream"@, seq![plain_v(Code::Stream), plain_v(Code::U32)], None)),
        0x0102 => Some(sig_v(0x0102, "request_hyperlink_event"@, seq![plain_v(Code::Window)], None)),
        0x0103 => Some(sig_v(0x0103, "cancel_hyperlink_event"@, seq![plain_v(Code::Window)], None)),
        0x0120 => Some(sig_v(0x0120, "buffer_to_lower_case_uni"@, seq![array_v(plain_v(Code::U32), Ref::InOut, true, false), plain_v(Code::U32)], Some(plain_v(Code::U32)))),
        0x0121 => Some(sig_v(0x0121, "buffer_to_upper_case_uni"@, seq![array_v(plain_v(Code::U32), Ref::InOut, true, false), plain_v(Code::U32)], Some(plain_v(Code::U32)))),
        0x0122 => Some(sig_v(0x0122, "buffer_to_title_case_uni"@, seq![array_v(plain_v(Code::U32), Ref::InOut, true, false), plain_v(Code::U32), plain_v(Code::U32)], Some(plain_v(Code::U32)))),
        0x0123 => Some(sig_v(0x0123, "buffer_canon_decompose_uni"@, seq![array_v(plain_v(Code::U32), Ref::InOut, true, false), plain_v(Code::U32)], Some(plain_v(Code::U32)))),
        0x0124 => Some(sig_v(0x0124, "buffer_canon_normalize_uni"@, seq![array_v(plain_v(Code::U32), Ref::InOut, true, false), plain_v(Code::U32)], Some(plain_v(Code::U32)))),
        0x0128 => Some(sig_v(0x0128, "put_char_uni"@, seq![plain_v(Code::U32)], None)),
        0x0129 => Some(sig_v(0x0129, "put_string_uni"@, seq![plain_v(Code::UString)], None)),
        0x012A => Some(sig_v(0x012A, "put_buffer_uni"@, seq![array_v(plain_v(Code::U32), Ref::In, true, false)], None)),
        0x012B => Some(sig_v(0x012B, "put_char_stream_uni"@, seq![plain_v(Code::Stream), plain_v(Code::U32)], None)),
        0x012C => Some(sig_v(0x012C, "put_string_stream_uni"@, seq![plain_v(Code::Stream), plain_v(Code::UString)], None)),
        0x012D => Some(sig_v(0x012D, "put_buffer_stream_uni"@, seq![plain_v(Code::Stream), array_v(plain_v(Code::U32), Ref::In, true, false)], None)),
        0x0130 => Some(sig_v(0x0130, "get_char_stream_uni"@, seq![plain_v(Code::Stream)], Some(plain_v(Code::I32)))),
        0x0131 => Some(sig_v(0x0131, "get_buffer_stream_uni"@, seq![plain_v(Code::Stream), array_v(plain_v(Code::U32), Ref::Out, true, false)], Some(plain_v(Code::U32)))),
        0x0132 => Some(sig_v(0x0132, "get_line_stream_uni"@, seq![plain_v(Code::Stream), array_v(plain_v(Code::U32), Ref::Out, true, false)], Some(plain_v(Code::U32)))),
        0x0138 => Some(sig_v(0x0138, "stream_open_file_uni"@, seq![plain_v(Code::Fileref), plain_v(Code::U32), plain_v(Code::U32)], Some(plain_v(Code::Stream)))),
        0x0139 => Some(sig_v(0x0139, "stream_open_memory_uni"@, seq![array_v(plain_v(Code::U32), Ref::InOut, false, true), plain_v(Code::U32), plain_v(Code::U32)], Some(plain_v(Code::Stream)))),
        0x013A => Some(sig_v(0x013A, "stream_open_resource_uni"@, seq![plain_v(Code::U32), plain_v(Code::U32)], Some(plain_v(Code::Stream)))),
        0x0140 => Some(sig_v(0x0140, "request_char_event_uni"@, seq![plain_v(Code::Window)], None)),
        0x0141 => Some(sig_v(0x0141, "request_line_event_uni"@, seq![plain_v(Code::Window), array_v(plain_v(Code::U32), Ref::InOut, true, true), plain_v(Code::U32)], None)),
        0x0150 => Some(sig_v(0x0150, "set_echo_line_event"@, seq![plain_v(Code::Window), plain_v(Code::U32)], None)),
        0x0151 => Some(sig_v(0x0151, "set_terminators_line_event"@, seq![plain_v(Code::Window), array_v(plain_v(Code::U32), Ref::In, false, false)], None)),
        0x0160 => Some(sig_v(0x0160, "current_time"@, seq![out_nonnull_v(timeval_v())], None)),
        0x0161 => Some(sig_v(0x0161, "current_simple_time"@, seq![plain_v(Code::U32)], Some(plain_v(Code::I32)))),
        0x0168 => Some(sig_v(0x0168, "time_to_date_utc"@, seq![into_nonnull_v(timeval_v()), out_nonnull_v(date_v())], None)),
        0x0169 => Some(sig_v(0x0169, "time_to_date_local"@, seq![into_nonnull_v(timeval_v()), out_nonnull_v(date_v())], None)),
        0x016A => Some(sig_v(0x016A, "simple_time_to_date_utc"@, seq![plain_v(Code::I32), plain_v(Code::U32), out_nonnull_v(date_v())], None)),
        0x016B => Some(sig_v(0x016B, "simple_time_to_date_local"@, seq![plain_v(Code::I32), plain_v(Code::U32), out_nonnull_v(date_v())], None)),
        0x016C => Some(sig_v(0x016C, "date_to_time_utc"@, seq![into_nonnull_v(date_v()), out_nonnull_v(timeval_v())], None)),
        0x016D => Some(sig_v(0x016D, "date_to_time_local"@, seq![into_nonnull_v(date_v()), out_nonnull_v(timeval_v())], None)),
        0x016E => Some(sig_v(0x016E, "date_to_simple_time_utc"@, seq![into_nonnull_v(date_v()), plain_v(Code::U32)], Some(plain_v(Code::I32)))),
        0x016F => Some(sig_v(0x016F, "date_to_simple_time_local"@, seq![into_nonnull_v(date_v()), plain_v(Code::U32)], Some(plain_v(Code::I32)))),
        _ => None,
    }
}

/// The signatures of the selectors from 0x0000 up to 0x0060.
#[verifier::rlimit(100)]
#[verifier::spinoff_prover]
fn lookup_low(number: u32) -> (found: Option<Signature>)
    requires
        0x0000 <= number < 0x0060,
    ensures
        match (found, signature_table(number)) {
            (Some(signature), Some(view)) => describes(signature, view),
            (None, None) => true,
            _ => false,
        },
{
    match number {
        0x0001 => Some(sig(0x0001, "exit", vec![], None)),
        0x0003 => Some(sig(0x0003, "tick", vec![], None)),
        0x0004 => Some(sig(0x0004, "gestalt", vec![plain(Code::U32), plain(Code::U32)], Some(plain(Code::U32)))),
        0x0005 => Some(sig(0x0005, "gestalt_ext", vec![plain(Code::U32), plain(Code::U32), array(plain(Code::U32), Ref::InOut, false, false)], Some(plain(Code::U32)))),
        0x0020 => Some(sig(0x0020, "window_iterate", vec![plain(Code::Window), out(plain(Code::U32))], Some(plain(Code::Window)))),
        0x0021 => Some(sig(0x0021, "window_get_rock", vec![plain(Code::Window)], Some(plain(Code::U32)))),
        0x0022 => Some(sig(0x0022, "window_get_root", vec![], Some(plain(Code::Window)))),
        0x0023 => Some(sig(0x0023, "window_open", vec![plain(Code::Window), plain(Code::U32), plain(Code::U32), plain(Code::U32), plain(Code::U32)], Some(plain(Code::Window)))),
        0x0024 => Some(sig(0x0024, "window_close", vec![plain(Code::Window), out(stream_result())], None)),
        0x0025 => Some(sig(0x0025, "window_get_size", vec![plain(Code::Window), out(plain(Code::U32)), out(plain(Code::U32))], None)),
        0x0026 => Some(sig(0x0026, "window_set_arrangement", vec![plain(Code::Window), plain(Code::U32), plain(Code::U32), plain(Code::Window)], None)),
        0x0027 => Some(sig(0x0027, "window_get_arrangement", vec![plain(Code::Window), out(plain(Code::U32)), out(plain(Code::U32)), out(plain(Code::Window))], None)),
        0x0028 => Some(sig(0x0028, "window_get_type", vec![plain(Code::Window)], Some(plain(Code::U32)))),
        0x0029 => Some(sig(0x0029, "window_get_parent", vec![plain(Code::Window)], Some(plain(Code::Window)))),
        0x002A => Some(sig(0x002A, "window_clear", vec![plain(Code::Window)], None)),
        0x002B => Some(sig(0x002B, "window_move_cursor", vec![plain(Code::Window), plain(Code::U32), plain(Code::U32)], None)),
        0x002C => Some(sig(0x002C, "window_get_stream", vec![plain(Code::Window)], Some(plain(Code::Stream)))),
        0x002D => Some(sig(0x002D, "window_set_echo_stream", vec![plain(Code::Window), plain(Code::Stream)], None)),
        0x002E => Some(sig(0x002E, "window_get_echo_stream", vec![plain(Code::Window)], Some(plain(Code::Stream)))),
        0x002F => Some(sig(0x002F, "set_window", vec![plain(Code::Window)], None)),
        0x0030 => Some(sig(0x0030, "window_get_sibling", vec![plain(Code::Window)], Some(plain(Code::Window)))),
        0x0040 => Some(sig(0x0040, "stream_iterate", vec![plain(Code::Stream), out(plain(Code::U32))], Some(plain(Code::Stream)))),
        0x0041 => Some(sig(0x0041, "stream_get_rock", vec![plain(Code::Stream)], Some(plain(Code::U32)))),
        0x0042 => Some(sig(0x0042, "stream_open_file", vec![plain(Code::Fileref), plain(Code::U32), plain(Code::U32)], Some(plain(Code::Stream)))),
        0x0043 => Some(sig(0x0043, "stream_open_memory", vec![array(plain(Code::Char), Ref::InOut, false, true), plain(Code::U32), plain(Code::U32)], Some(plain(Code::Stream)))),
        0x0044 => Some(sig(0x0044, "stream_close", vec![plain(Code::Stream), out(stream_result())], None)),
        0x0045 => Some(sig(0x0045, "stream_set_position", vec![plain(Code::Stream), plain(Code::I32), plain(Code::U32)], None)),
        0x0046 => Some(sig(0x0046, "stream_get_position", vec![plain(Code::Stream)], Some(plain(Code::U32)))),
        0x0047 => Some(sig(0x0047, "stream_set_current", vec![plain(Code::Stream)], None)),
        0x0048 => Some(sig(0x0048, "stream_get_current", vec![], Some(plain(Code::Stream)))),
        0x0049 => Some(sig(0x0049, "stream_open_resource", vec![plain(Code::U32), plain(Code::U32)], Some(plain(Code::Stream)))),
        _ => None,
    }
}

/// The signatures of the selectors from 0x0060 up to 0x00b0.
#[verifier::rlimit(100)]
#[verifier::spinoff_prover]
fn lookup_files(number: u32) -> (found: Option<Signature>)
    requires
        0x0060 <= number < 0x00b0,
    ensures
        match (found, signature_table(number)) {
            (Some(signature), Some(view)) => describes(signature, view),
            (None, None) => true,
            _ => false,
        },
{
    match number {
        0x0060 => Some(sig(0x0060, "fileref_create_temp", vec![plain(Code::U32), plain(Code::U32)], Some(plain(Code::Fileref)))),
        0x0061 => Some(sig(0x0061, "fileref_create_by_name", vec![plain(Code::U32), plain(Code::CString), plain(Code::U32)], Some(plain(Code::Fileref)))),
        0x0062 => Some(sig(0x0062, "fileref_create_by_prompt", vec![plain(Code::U32), plain(Code::U32), plain(Code::U32)], Some(plain(Code::Fileref)))),
        0x0063 => Some(sig(0x0063, "fileref_destroy", vec![plain(Code::Fileref)], None)),
        0x0064 => Some(sig(0x0064, "fileref_iterate", vec![plain(Code::Fileref), out(plain(Code::U32))], Some(plain(Code::Fileref)))),
        0x0065 => Some(sig(0x0065, "fileref_get_rock", vec![plain(Code::Fileref)], Some(plain(Code::U32)))),
        0x0066 => Some(sig(0x0066, "fileref_delete_file", vec![plain(Code::Fileref)], None)),
        0x0067 => Some(sig(0x0067, "fileref_does_file_exist", vec![plain(Code::Fileref)], Some(plain(Code::U32)))),
        0x0068 => Some(sig(0x0068, "fileref_create_from_fileref", vec![plain(Code::U32), plain(Code::Fileref), plain(Code::U32)], Some(plain(Code::Fileref)))),
        0x0080 => Some(sig(0x0080, "put_char", vec![plain(Code::UChar)], None)),
        0x0081 => Some(sig(0x0081, "put_char_stream", vec![plain(Code::Stream), plain(Code::UChar)], None)),
        0x0082 => Some(sig(0x0082, "put_string", vec![plain(Code::CString)], None)),
        0x0083 => Some(sig(0x0083, "put_string_stream", vec![plain(Code::Stream), plain(Code::CString)], None)),
        0x0084 => Some(sig(0x0084, "put_buffer", vec![array(plain(Code::Char), Ref::In, true, false)], None)),
        0x0085 => Some(sig(0x0085, "put_buffer_stream", vec![plain(Code::Stream), array(plain(Code::Char), Ref::In, true, false)], None)),
        0x0086 => Some(sig(0x0086, "set_style", vec![plain(Code::U32)], None)),
        0x0087 => Some(sig(0x0087, "set_style_stream", vec![plain(Code::Stream), plain(Code::U32)], None)),
        0x0090 => Some(sig(0x0090, "get_char_stream", vec![plain(Code::Stream)], Some(plain(Code::I32)))),
        0x0091 => Some(sig(0x0091, "get_line_stream", vec![plain(Code::Stream), array(plain(Code::Char), Ref::Out, true, false)], Some(plain(Code::U32)))),
        0x0092 => Some(sig(0x0092, "get_buffer_stream", vec![plain(Code::Stream), array(plain(Code::Char), Ref::Out, true, false)], Some(plain(Code::U32)))),
        0x00A0 => Some(sig(0x00A0, "char_to_lower", vec![plain(Code::UChar)], Some(plain(Code::UChar)))),
        0x00A1 => Some(sig(0x00A1, "char_to_upper", vec![plain(Code::UChar)], Some(plain(Code::UChar)))),
        _ => None,
    }
}

/// The signatures of the selectors from 0x00b0 up to 0x0100.
#[verifier::rlimit(100)]
#[verifier::spinoff_prover]
fn lookup_events(number: u32) -> (found: Option<Signature>)
    requires
        0x00b0 <= number < 0x0100,
    ensures
        match (found, signature_table(number)) {
            (Some(signature), Some(view)) => describes(signature, view),
            (None, None) => true,
            _ => false,
        },
{
    match number {
        0x00B0 => Some(sig(0x00B0, "stylehint_set", vec![plain(Code::U32), plain(Code::U32), plain(Code::U32), plain(Code::I32)], None)),
        0x00B1 => Some(sig(0x00B1, "stylehint_clear", vec![plain(Code::U32), plain(Code::U32), plain(Code::U32)], None)),
        0x00B2 => Some(sig(0x00B2, "style_distinguish", vec![plain(Code::Window), plain(Code::U32), plain(Code::U32)], Some(plain(Code::U32)))),
        0x00B3 => Some(sig(0x00B3, "style_measure", vec![plain(Code::Window), plain(Code::U32), plain(Code::U32), out(plain(Code::U32))], Some(plain(Code::U32)))),
        0x00C0 => Some(sig(0x00C0, "select", vec![out_nonnull(event())], None)),
        0x00C1 => Some(sig(0x00C1, "select_poll", vec![out_nonnull(event())], None)),
        0x00D0 => Some(sig(0x00D0, "request_line_event", vec![plain(Code::Window), array(plain(Code::Char), Ref::InOut, true, true), plain(Code::U32)], None)),
        0x00D1 => Some(sig(0x00D1, "cancel_line_event", vec![plain(Code::Window), out(event())], None)),
        0x00D2 => Some(sig(0x00D2, "request_char_event", vec![plain(Code::Window)], None)),
        0x00D3 => Some(sig(0x00D3, "cancel_char_event", vec![plain(Code::Window)], None)),
        0x00D4 => Some(sig(0x00D4, "request_mouse_event", vec![plain(Code::Window)], None)),
        0x00D5 => Some(sig(0x00D5, "cancel_mouse_event", vec![plain(Code::Window)], None)),
        0x00D6 => Some(sig(0x00D6, "request_timer_events", vec![plain(Code::U32)], None)),
        0x00E0 => Some(sig(0x00E0, "image_get_info", vec![plain(Code::U32), out(plain(Code::U32)), out(plain(Code::U32))], Some(plain(Code::U32)))),
        0x00E1 => Some(sig(0x00E1, "image_draw", vec![plain(Code::Window), plain(Code::U32), plain(Code::I32), plain(Code::I32)], Some(plain(Code::U32)))),
        0x00E2 => Some(sig(0x00E2, "image_draw_scaled", vec![plain(Code::Window), plain(Code::U32), plain(Code::I32), plain(Code::I32), plain(Code::U32), plain(Code::U32)], Some(plain(Code::U32)))),
        0x00E8 => Some(sig(0x00E8, "window_flow_break", vec![plain(Code::Window)], None)),
        0x00E9 => Some(sig(0x00E9, "window_erase_rect", vec![plain(Code::Window), plain(Code::I32), plain(Code::I32), plain(Code::U32), plain(Code::U32)], None)),
        0x00EA => Some(sig(0x00EA, "window_fill_rect", vec![plain(Code::Window), plain(Code::U32), plain(Code::I32), plain(Code::I32), plain(Code::U32), plain(Code::U32)], None)),
        0x00EB => Some(sig(0x00EB, "window_set_background_color", vec![plain(Code::Window), plain(Code::U32)], None)),
        0x00EC => Some(sig(0x00EC, "image_draw_scaled_ext", vec![plain(Code::Window), plain(Code::U32), plain(Code::I32), plain(Code::I32), plain(Code::U32), plain(Code::U32), plain(Code::U32), plain(Code::U32)], Some(plain(Code::U32)))),
        0x00F0 => Some(sig(0x00F0, "schannel_iterate", vec![plain(Code::Schannel), out(plain(Code::U32))], Some(plain(Code::Schannel)))),
        0x00F1 => Some(sig(0x00F1, "schannel_get_rock", vec![plain(Code::Schannel)], Some(plain(Code::U32)))),
        0x00F2 => Some(sig(0x00F2, "schannel_create", vec![plain(Code::U32)], Some(plain(Code::Schannel)))),
        0x00F3 => Some(sig(0x00F3, "schannel_destroy", vec![plain(Code::Schannel)], None)),
        0x00F4 => Some(sig(0x00F4, "schannel_create_ext", vec![plain(Code::U32), plain(Code::U32)], Some(plain(Code::Schannel)))),
        0x00F7 => Some(sig(0x00F7, "schannel_play_multi", vec![ array(plain(Code::Schannel), Ref::In, true, false), array(plain(Code::U32), Ref::In, true, false), plain(Code::U32)], Some(plain(Code::U32)))),
        0x00F8 => Some(sig(0x00F8, "schannel_play", vec![plain(Code::Schannel), plain(Code::U32)], Some(plain(Code::U32)))),
        0x00F9 => Some(sig(0x00F9, "schannel_play_ext", vec![plain(Code::Schannel), plain(Code::U32), plain(Code::U32), plain(Code::U32)], Some(plain(Code::U32)))),
        0x00FA => Some(sig(0x00FA, "schannel_stop", vec![plain(Code::Schannel)], None)),
        0x00FB => Some(sig(0x00FB, "schannel_set_volume", vec![plain(Code::Schannel), plain(Code::U32)], None)),
        0x00FC => Some(sig(0x00FC, "sound_load_hint", vec![plain(Code::U32), plain(Code::U32)], None)),
        0x00FD => Some(sig(0x00FD, "schannel_set_volume_ext", vec![plain(Code::Schannel), plain(Code::U32), plain(Code::U32), plain(Code::U32)], None)),
        0x00FE => Some(sig(0x00FE, "schannel_pause", vec![plain(Code::Schannel)], None)),
        0x00FF => Some(sig(0x00FF, "schannel_unpause", vec![plain(Code::Schannel)], None)),
        _ => None,
    }
}

/// The signatures of the selectors from 0x0100 up to 0x0170.
#[verifier::rlimit(100)]
#[verifier::spinoff_prover]
fn lookup_unicode(number: u32) -> (found: Option<Signature>)
    requires
        0x0100 <= number < 0x0170,
    ensures
        match (found, signature_table(number)) {
            (Some(signature), Some(view)) => describes(signature, view),
            (None, None) => true,
            _ => false,
        },
{
    match number {
        0x0100 => Some(sig(0x0100, "set_hyperlink", vec![plain(Code::U32)], None)),
        0x0101 => Some(sig(0x0101, "set_hyperlink_stream", vec![plain(Code::Stream), plain(Code::U32)], None)),
        0x0102 => Some(sig(0x0102, "request_hyperlink_event", vec![plain(Code::Window)], None)),
        0x0103 => Some(sig(0x0103, "cancel_hyperlink_event", vec![plain(Code::Window)], None)),
        0x0120 => Some(sig(0x0120, "buffer_to_lower_case_uni", vec![array(plain(Code::U32), Ref::InOut, true, false), plain(Code::U32)], Some(plain(Code::U32)))),
        0x0121 => Some(sig(0x0121, "buffer_to_upper_case_uni", vec![array(plain(Code::U32), Ref::InOut, true, false), plain(Code::U32)], Some(plain(Code::U32)))),
        0x0122 => Some(sig(0x0122, "buffer_to_title_case_uni", vec![array(plain(Code::U32), Ref::InOut, true, false), plain(Code::U32), plain(Code::U32)], Some(plain(Code::U32)))),
        0x0123 => Some(sig(0x0123, "buffer_canon_decompose_uni", vec![array(plain(Code::U32), Ref::InOut, true, false), plain(Code::U32)], Some(plain(Code::U32)))),
        0x0124 => Some(sig(0x0124, "buffer_canon_normalize_uni", vec![array(plain(Code::U32), Ref::InOut, true, false), plain(Code::U32)], Some(plain(Code::U32)))),
        0x0128 => Some(sig(0x0128, "put_char_uni", vec![plain(Code::U32)], None)),
        0x0129 => Some(sig(0x0129, "put_string_uni", vec![plain(Code::UString)], None)),
        0x012A => Some(sig(0x012A, "put_buffer_uni", vec![array(plain(Code::U32), Ref::In, true, false)], None)),
        0x012B => Some(sig(0x012B, "put_char_stream_uni", vec![plain(Code::Stream), plain(Code::U32)], None)),
        0x012C => Some(sig(0x012C, "put_string_stream_uni", vec![plain(Code::Stream), plain(Code::UString)], None)),
        0x012D => Some(sig(0x012D, "put_buffer_stream_uni", vec![plain(Code::Stream), array(plain(Code::U32), Ref::In, true, false)], None)),
        0x0130 => Some(sig(0x0130, "get_char_stream_uni", vec![plain(Code::Stream)], Some(plain(Code::I32)))),
        0x0131 => Some(sig(0x0131, "get_buffer_stream_uni", vec![plain(Code::Stream), array(plain(Code::U32), Ref::Out, true, false)], Some(plain(Code::U32)))),
        0x0132 => Some(sig(0x0132, "get_line_stream_uni", vec![plain(Code::Stream), array(plain(Code::U32), Ref::Out, true, false)], Some(plain(Code::U32)))),
        0x0138 => Some(sig(0x0138, "stream_open_file_uni", vec![plain(Code::Fileref), plain(Code::U32), plain(Code::U32)], Some(plain(Code::Stream)))),
        0x0139 => Some(sig(0x0139, "stream_open_memory_uni", vec![array(plain(Code::U32), Ref::InOut, false, true), plain(Code::U32), plain(Code::U32)], Some(plain(Code::Stream)))),
        0x013A => Some(sig(0x013A, "stream_open_resource_uni", vec![plain(Code::U32), plain(Code::U32)], Some(plain(Code::Stream)))),
        0x0140 => Some(sig(0x0140, "request_char_event_uni", vec![plain(Code::Window)], None)),
        0x0141 => Some(sig(0x0141, "request_line_event_uni", vec![plain(Code::Window), array(plain(Code::U32), Ref::InOut, true, true), plain(Code::U32)], None)),
        0x0150 => Some(sig(0x0150, "set_echo_line_event", vec![plain(Code::Window), plain(Code::U32)], None)),
        0x0151 => Some(sig(0x0151, "set_terminators_line_event", vec![plain(Code::Window), array(plain(Code::U32), Ref::In, false, false)], None)),
        0x0160 => Some(sig(0x0160, "current_time", vec![out_nonnull(timeval())], None)),
        0x0161 => Some(sig(0x0161, "current_simple_time", vec![plain(Code::U32)], Some(plain(Code::I32)))),
        0x0168 => Some(sig(0x0168, "time_to_date_utc", vec![into_nonnull(timeval()), out_nonnull(date())], None)),
        0x0169 => Some(sig(0x0169, "time_to_date_local", vec![into_nonnull(timeval()), out_nonnull(date())], None)),
        0x016A => Some(sig(0x016A, "simple_time_to_date_utc", vec![plain(Code::I32), plain(Code::U32), out_nonnull(date())], None)),
        0x016B => Some(sig(0x016B, "simple_time_to_date_local", vec![plain(Code::I32), plain(Code::U32), out_nonnull(date())], None)),
        0x016C => Some(sig(0x016C, "date_to_time_utc", vec![into_nonnull(date()), out_nonnull(timeval())], None)),
        0x016D => Some(sig(0x016D, "date_to_time_local", vec![into_nonnull(date()), out_nonnull(timeval())], None)),
        0x016E => Some(sig(0x016E, "date_to_simple_time_utc", vec![into_nonnull(date()), plain(Code::U32)], Some(plain(Code::I32)))),
        0x016F => Some(sig(0x016F, "date_to_simple_time_local", vec![into_nonnull(date()), plain(Code::U32)], Some(plain(Code::I32)))),
        _ => None,
    }
}

/// Return the signature for a Glk selector, or None if unknown: the
/// one the signature table gives.
pub fn lookup(number: u32) -> (found: Option<Signature>)
    ensures
        match (found, signature_table(number)) {
            (Some(signature), Some(view)) => describes(signature, view),
            (None, None) => true,
            _ => false,
        },
        found is Some <==> is_selector(number),
        found matches Some(signature) ==> signature.number == number && signature.args@.len() <= 8,
{
    if number < 0x0060 {
        lookup_low(number)
    } else if number < 0x00B0 {
        lookup_files(number)
    } else if number < 0x0100 {
        lookup_events(number)
    } else if number < 0x0170 {
        lookup_unicode(number)
    } else {
        None
    }
}

/// The highest selector the table declares.
pub const LAST_SELECTOR: u32 = 0x016F;

/// Every signature, in ascending selector order.
pub fn signatures() -> (table: Vec<Signature>)
    ensures
        forall|a: int, b: int|
            0 <= a < b < table@.len() ==> (#[trigger] table@[a]).number < (#[trigger] table@[b]).number,
        forall|a: int| 0 <= a < table@.len() ==> is_selector((#[trigger] table@[a]).number),
        forall|number: u32|
            #[trigger] is_selector(number) ==> exists|a: int|
                0 <= a < table@.len() && (#[trigger] table@[a]).number == number,
{
    let mut table: Vec<Signature> = Vec::new();
    let mut number: u32 = 0;
    while number <= LAST_SELECTOR
        invariant
            number <= LAST_SELECTOR + 1,
            forall|a: int, b: int|
                0 <= a < b < table@.len() ==> (#[trigger] table@[a]).number < (
                #[trigger] table@[b]).number,
            forall|a: int|
                0 <= a < table@.len() ==> is_selector((#[trigger] table@[a]).number) && table@[a].number
                    < number,
            forall|n: u32|
                #[trigger] is_selector(n) && n < number ==> exists|a: int|
                    0 <= a < table@.len() && (#[trigger] table@[a]).number == n,
        decreases LAST_SELECTOR + 1 - number,
    {
        let ghost before = table@;
        match lookup(number) {
            Some(signature) => {
                table.push(signature);
                proof {
                    let last = table@.len() - 1;
                    assert(table@[last].number == number);
                }
            },
            None => {},
        }
        proof {
            assert forall|n: u32| #[trigger] is_selector(n) && n < number + 1 implies exists|a: int|
                0 <= a < table@.len() && (#[trigger] table@[a]).number == n by {
                if n < number {
                    let a = choose|a: int| 0 <= a < before.len() && (#[trigger] before[a]).number == n;
                    assert(table@[a] == before[a]);
                } else {
                    assert(table@[table@.len() - 1].number == n);
                }
            }
        }
        number += 1;
    }
    proof {
        assert forall|n: u32| #[trigger] is_selector(n) implies exists|a: int|
            0 <= a < table@.len() && (#[trigger] table@[a]).number == n by {
            assert(n <= LAST_SELECTOR);
        }
    }
    table
}

} // verus!
