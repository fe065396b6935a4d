//! What a file is for, and whether it opens as text (Glk: File
//! References).

use vstd::prelude::*;

verus! {

pub const DATA: u32 = 0x00;
pub const SAVED_GAME: u32 = 0x01;
pub const TRANSCRIPT: u32 = 0x02;
pub const INPUT_RECORD: u32 = 0x03;
pub const TYPE_MASK: u32 = 0x0F;

pub const BINARY_MODE: u32 = 0x000;
pub const TEXT_MODE: u32 = 0x100;

} // verus!
