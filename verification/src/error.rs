//! The faults the Glulx core reports, each carrying what its
//! message names, and the message each one reads as.

use vstd::prelude::*;

use crate::text::{decimal, hex, push_decimal, push_hex, push_signed, signed_decimal};

verus! {

/// Why an operation of the Glulx core refused.
#[derive(Debug, Clone, Copy, PartialEq, Eq, Structural)]
pub enum VoxamError {
    /// An access outside the memory map (Glulx: The Memory Map).
    OutOfRange { address: u32 },
    /// A write below RAMSTART, into ROM (Glulx: The Memory Map).
    RomWrite { address: u32, ramstart: u32 },
    /// A memory size off the 256-byte boundary (Glulx: Game State).
    UnalignedSize { size: u32 },
    /// A memory size below the size memory booted with.
    BelowBoot { size: u32, boot: u32 },
    /// A heap allocation of zero bytes.
    EmptyAllocation,
    /// A free of an address that begins no allocated block.
    NoHeapBlock { address: u32 },
    /// A heap summary applied over an active heap.
    ActiveHeapSummary,
    /// A heap summary whose pairs are cut short.
    SummaryCutShort,
    /// A heap summary whose blocks are out of address order.
    SummaryOutOfOrder,
    /// Signed division by zero (Glulx: Integer Math).
    DivisionByZero,
    /// Signed remainder by zero (Glulx: Integer Math).
    RemainderByZero,
    /// The most negative value divided by -1.
    DivisionOverflow,
    /// The most negative value's remainder by -1.
    RemainderOverflow,
    /// A file stream sought a position before its start.
    BadSeek,
    /// A pair window asked for by type, which only a split creates
    /// (Glk: Pair Windows).
    PairWindowOpened,
    /// A split rearranged onto the other axis: windows never flip or
    /// rotate (Glk: Changing Window Constraints).
    AxisChanged,
    /// The first window named a window to split: there is none yet.
    FirstWindowSplit,
    /// A later window named no live window to split.
    NoSplitWindow,
    /// A split method neither fixed nor proportional.
    BadDivision,
    /// A split method that names no direction.
    BadDirection,
    /// A close of a window that is not open.
    NoWindowToClose,
    /// An arrangement set on what is not a pair window.
    NoPairToArrange,
    /// An arrangement keyed to a pair window.
    PairKey,
    /// An arrangement keyed to a window outside the pair.
    KeyOutsidePair,
    /// An arrangement asked of what is not a pair window.
    NoPairToReport,
    /// A display's event names a window id this session never showed,
    /// or names none the protocol can read.
    UnknownWindow { ident: Option<i64> },
    /// A display's conversation that does not open with its init
    /// event.
    NoOpening,
    /// A resize of the memory map while the allocation heap owns its
    /// end.
    ResizeUnderHeap,
    /// A stack peek by an index outside the values above the frame.
    PeekOutside { index: i32 },
    /// A stack swap with fewer than two values above the frame.
    SwapTooFew,
    /// A stack copy of a negative count.
    CopyNegative,
    /// A stack copy of more values than stand above the frame.
    CopyExceeds { count: u32 },
    /// A stack roll of a negative count.
    RollNegative,
    /// A stack roll of more values than stand above the frame.
    RollExceeds { count: u32 },
    /// A push onto a stack with no room left.
    StackFull,
    /// The debugtrap opcode, which this interpreter treats as fatal.
    DebugTrap { value: u32 },
    /// A memory stream asked for in a mode it cannot take: append.
    MemoryStreamMode,
    /// A close of a stream that is not open.
    NoStreamToClose,
    /// A file reference made from a reference that is not live.
    NoSourceFileRef,
}

impl VoxamError {
    /// The message the fault reads as.
    pub open spec fn message(self) -> Seq<char> {
        match self {
            VoxamError::OutOfRange { address } => "the address $"@ + hex(address as nat)
                + " is outside the memory map (Glulx: The Memory Map)"@,
            VoxamError::RomWrite { address, ramstart } => "the address $"@ + hex(address as nat)
                + " is in ROM, which ends at $"@ + hex(ramstart as nat)
                + ": it is illegal to write there (Glulx: The Memory Map)"@,
            VoxamError::UnalignedSize { size } => "a memory size of "@ + decimal(size as nat)
                + " is not a multiple of 256 (Glulx: Game State)"@,
            VoxamError::BelowBoot { size, boot } => "memory cannot shrink to "@ + decimal(
                size as nat,
            ) + ", below the "@ + decimal(boot as nat) + " it booted with (Glulx: Game State)"@,
            VoxamError::EmptyAllocation => "a heap allocation must ask for at least one byte"@,
            VoxamError::NoHeapBlock { address } => "no allocated heap block begins at 0x"@ + hex(
                address as nat,
            ),
            VoxamError::ActiveHeapSummary => "a heap summary cannot land on an active heap"@,
            VoxamError::SummaryCutShort => "the save file's heap summary is cut short mid-block"@,
            VoxamError::SummaryOutOfOrder => "the save file's heap blocks are out of address order"@,
            VoxamError::DivisionByZero => "division by zero (Glulx: Integer Math)"@,
            VoxamError::RemainderByZero => "division by zero taking a remainder (Glulx: Integer Math)"@,
            VoxamError::DivisionOverflow => "division overflow: the most negative value by -1"@,
            VoxamError::RemainderOverflow => "division overflow taking a remainder"@,
            VoxamError::BadSeek =>
                "a file stream seek failed: invalid seek to a negative or overflowing position"@,
            VoxamError::PairWindowOpened => "window_open: cannot open a pair window directly"@,
            VoxamError::AxisChanged => "window_set_arrangement: a split cannot change its axis"@,
            VoxamError::FirstWindowSplit => "window_open: splitwin must be null for the first window"@,
            VoxamError::NoSplitWindow => "window_open: splitwin must not be null"@,
            VoxamError::BadDivision => "window_open: the method is neither fixed nor proportional"@,
            VoxamError::BadDirection => "window_open: the method names no direction"@,
            VoxamError::NoWindowToClose => "window_close: invalid window"@,
            VoxamError::NoPairToArrange => "window_set_arrangement: not a pair window"@,
            VoxamError::PairKey => "window_set_arrangement: the key cannot be a pair window"@,
            VoxamError::KeyOutsidePair => "window_set_arrangement: the key must live under the pair"@,
            VoxamError::NoPairToReport => "window_get_arrangement: not a pair window"@,
            VoxamError::UnknownWindow { ident } => "no window is numbered "@ + match ident {
                Some(held) => signed_decimal(held as int),
                None => "None"@,
            },
            VoxamError::NoOpening =>
                "the conversation opens with an init event (GlkOte: The Application's Life Story)"@,
            VoxamError::ResizeUnderHeap =>
                "setmemsize is illegal while the allocation heap is active"@,
            VoxamError::PeekOutside { index } => "stkpeek at "@ + signed_decimal(index as int)
                + " reaches outside the current stack range (Glulx: The Stack)"@,
            VoxamError::SwapTooFew => "stkswap with fewer than two values (Glulx: The Stack)"@,
            VoxamError::CopyNegative => "stkcopy with a negative count (Glulx: The Stack)"@,
            VoxamError::CopyExceeds { count } => "stkcopy of "@ + decimal(count as nat)
                + " exceeds the values above the frame"@,
            VoxamError::RollNegative => "stkroll with a negative count (Glulx: The Stack)"@,
            VoxamError::RollExceeds { count } => "stkroll of "@ + decimal(count as nat)
                + " exceeds the values above the frame"@,
            VoxamError::StackFull => "a push onto a full stack (Glulx: The Stack)"@,
            VoxamError::MemoryStreamMode => "stream_open_memory: illegal filemode"@,
            VoxamError::NoStreamToClose => "stream_close: invalid stream"@,
            VoxamError::NoSourceFileRef => "fileref_create_from_fileref: invalid fileref"@,
            VoxamError::DebugTrap { value } => "debugtrap with value "@ + decimal(value as nat)
                + " (Glulx: Miscellaneous)"@,
        }
    }

    /// The message, spelled out.
    pub fn to_string(&self) -> (text: String)
        ensures
            text@ == self.message(),
    {
        match *self {
            VoxamError::OutOfRange { address } => {
                let mut text = String::from_str("the address $");
                push_hex(&mut text, address as u64);
                text.append(" is outside the memory map (Glulx: The Memory Map)");
                text
            },
            VoxamError::RomWrite { address, ramstart } => {
                let mut text = String::from_str("the address $");
                push_hex(&mut text, address as u64);
                text.append(" is in ROM, which ends at $");
                push_hex(&mut text, ramstart as u64);
                text.append(": it is illegal to write there (Glulx: The Memory Map)");
                text
            },
            VoxamError::UnalignedSize { size } => {
                let mut text = String::from_str("a memory size of ");
                push_decimal(&mut text, size as u64);
                text.append(" is not a multiple of 256 (Glulx: Game State)");
                text
            },
            VoxamError::BelowBoot { size, boot } => {
                let mut text = String::from_str("memory cannot shrink to ");
                push_decimal(&mut text, size as u64);
                text.append(", below the ");
                push_decimal(&mut text, boot as u64);
                text.append(" it booted with (Glulx: Game State)");
                text
            },
            VoxamError::EmptyAllocation => String::from_str(
                "a heap allocation must ask for at least one byte",
            ),
            VoxamError::NoHeapBlock { address } => {
                let mut text = String::from_str("no allocated heap block begins at 0x");
                push_hex(&mut text, address as u64);
                text
            },
            VoxamError::ActiveHeapSummary => String::from_str(
                "a heap summary cannot land on an active heap",
            ),
            VoxamError::SummaryCutShort => String::from_str(
                "the save file's heap summary is cut short mid-block",
            ),
            VoxamError::SummaryOutOfOrder => String::from_str(
                "the save file's heap blocks are out of address order",
            ),
            VoxamError::DivisionByZero => String::from_str("division by zero (Glulx: Integer Math)"),
            VoxamError::RemainderByZero => String::from_str(
                "division by zero taking a remainder (Glulx: Integer Math)",
            ),
            VoxamError::DivisionOverflow => String::from_str(
                "division overflow: the most negative value by -1",
            ),
            VoxamError::RemainderOverflow => String::from_str("division overflow taking a remainder"),
            VoxamError::BadSeek => String::from_str(
                "a file stream seek failed: invalid seek to a negative or overflowing position",
            ),
            VoxamError::PairWindowOpened => String::from_str(
                "window_open: cannot open a pair window directly",
            ),
            VoxamError::AxisChanged => String::from_str(
                "window_set_arrangement: a split cannot change its axis",
            ),
            VoxamError::FirstWindowSplit => String::from_str(
                "window_open: splitwin must be null for the first window",
            ),
            VoxamError::NoSplitWindow => String::from_str(
                "window_open: splitwin must not be null",
            ),
            VoxamError::BadDivision => String::from_str(
                "window_open: the method is neither fixed nor proportional",
            ),
            VoxamError::BadDirection => String::from_str(
                "window_open: the method names no direction",
            ),
            VoxamError::NoWindowToClose => String::from_str(
                "window_close: invalid window",
            ),
            VoxamError::NoPairToArrange => String::from_str(
                "window_set_arrangement: not a pair window",
            ),
            VoxamError::PairKey => String::from_str(
                "window_set_arrangement: the key cannot be a pair window",
            ),
            VoxamError::KeyOutsidePair => String::from_str(
                "window_set_arrangement: the key must live under the pair",
            ),
            VoxamError::NoPairToReport => String::from_str(
                "window_get_arrangement: not a pair window",
            ),
            VoxamError::UnknownWindow { ident } => {
                let mut text = String::from_str("no window is numbered ");
                match ident {
                    Some(held) => push_signed(&mut text, held),
                    None => text.append("None"),
                }
                text
            },
            VoxamError::NoOpening => String::from_str(
                "the conversation opens with an init event (GlkOte: The Application's Life Story)",
            ),
            VoxamError::ResizeUnderHeap => String::from_str(
                "setmemsize is illegal while the allocation heap is active",
            ),
            VoxamError::PeekOutside { index } => {
                let mut text = String::from_str("stkpeek at ");
                push_signed(&mut text, index as i64);
                text.append(" reaches outside the current stack range (Glulx: The Stack)");
                text
            },
            VoxamError::SwapTooFew => String::from_str(
                "stkswap with fewer than two values (Glulx: The Stack)",
            ),
            VoxamError::CopyNegative => String::from_str(
                "stkcopy with a negative count (Glulx: The Stack)",
            ),
            VoxamError::CopyExceeds { count } => {
                let mut text = String::from_str("stkcopy of ");
                push_decimal(&mut text, count as u64);
                text.append(" exceeds the values above the frame");
                text
            },
            VoxamError::RollNegative => String::from_str(
                "stkroll with a negative count (Glulx: The Stack)",
            ),
            VoxamError::RollExceeds { count } => {
                let mut text = String::from_str("stkroll of ");
                push_decimal(&mut text, count as u64);
                text.append(" exceeds the values above the frame");
                text
            },
            VoxamError::StackFull => String::from_str("a push onto a full stack (Glulx: The Stack)"),
            VoxamError::MemoryStreamMode => String::from_str("stream_open_memory: illegal filemode"),
            VoxamError::NoStreamToClose => String::from_str("stream_close: invalid stream"),
            VoxamError::NoSourceFileRef => String::from_str(
                "fileref_create_from_fileref: invalid fileref",
            ),
            VoxamError::DebugTrap { value } => {
                let mut text = String::from_str("debugtrap with value ");
                push_decimal(&mut text, value as u64);
                text.append(" (Glulx: Miscellaneous)");
                text
            },
        }
    }
}

} // verus!
