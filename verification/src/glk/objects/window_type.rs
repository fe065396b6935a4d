//! The window types (Glk: The Types of Windows). ALL is not a type a
//! window can have: it is the wildcard the gestalt selectors accept
//! when asking about every type at once.

use vstd::prelude::*;

verus! {

pub const ALL: u32 = 0;
pub const PAIR: u32 = 1;
pub const BLANK: u32 = 2;
pub const TEXT_BUFFER: u32 = 3;
pub const TEXT_GRID: u32 = 4;
pub const GRAPHICS: u32 = 5;

} // verus!
