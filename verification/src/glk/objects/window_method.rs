//! How a window splits from another (Glk: Window Opening, Closing,
//! and Constraints): a direction, a division, and a border flag,
//! packed into one word.

use vstd::prelude::*;

verus! {

pub const LEFT: u32 = 0x00;
pub const RIGHT: u32 = 0x01;
pub const ABOVE: u32 = 0x02;
pub const BELOW: u32 = 0x03;
pub const DIR_MASK: u32 = 0x0F;

pub const FIXED: u32 = 0x10;
pub const PROPORTIONAL: u32 = 0x20;
pub const DIVISION_MASK: u32 = 0xF0;

pub const BORDER: u32 = 0x000;
pub const NO_BORDER: u32 = 0x100;
pub const BORDER_MASK: u32 = 0x100;

} // verus!
