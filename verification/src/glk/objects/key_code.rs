//! The special keys character input can report (Glk: Character
//! Input), counting down from the top of the word.

use vstd::prelude::*;

verus! {

pub const UNKNOWN: u32 = 0xFFFFFFFF;
pub const LEFT: u32 = 0xFFFFFFFE;
pub const RIGHT: u32 = 0xFFFFFFFD;
pub const UP: u32 = 0xFFFFFFFC;
pub const DOWN: u32 = 0xFFFFFFFB;
pub const RETURN: u32 = 0xFFFFFFFA;
pub const DELETE: u32 = 0xFFFFFFF9;
pub const ESCAPE: u32 = 0xFFFFFFF8;
pub const TAB: u32 = 0xFFFFFFF7;
pub const PAGE_UP: u32 = 0xFFFFFFF6;
pub const PAGE_DOWN: u32 = 0xFFFFFFF5;
pub const HOME: u32 = 0xFFFFFFF4;
pub const END: u32 = 0xFFFFFFF3;
pub const FUNC1: u32 = 0xFFFFFFEF;
pub const FUNC2: u32 = 0xFFFFFFEE;
pub const FUNC3: u32 = 0xFFFFFFED;
pub const FUNC4: u32 = 0xFFFFFFEC;
pub const FUNC5: u32 = 0xFFFFFFEB;
pub const FUNC6: u32 = 0xFFFFFFEA;
pub const FUNC7: u32 = 0xFFFFFFE9;
pub const FUNC8: u32 = 0xFFFFFFE8;
pub const FUNC9: u32 = 0xFFFFFFE7;
pub const FUNC10: u32 = 0xFFFFFFE6;
pub const FUNC11: u32 = 0xFFFFFFE5;
pub const FUNC12: u32 = 0xFFFFFFE4;
pub const MAXVAL: u32 = 28;

} // verus!
