//! The text styles (Glk: Styles).

use vstd::prelude::*;

verus! {

pub const NORMAL: u32 = 0;
pub const EMPHASIZED: u32 = 1;
pub const PREFORMATTED: u32 = 2;
pub const HEADER: u32 = 3;
pub const SUBHEADER: u32 = 4;
pub const ALERT: u32 = 5;
pub const NOTE: u32 = 6;
pub const BLOCK_QUOTE: u32 = 7;
pub const INPUT: u32 = 8;
pub const USER1: u32 = 9;
pub const USER2: u32 = 10;
pub const NUMSTYLES: u32 = 11;

} // verus!
