//! The event types (Glk: Events).

use vstd::prelude::*;

verus! {

pub const NONE: u32 = 0;
pub const TIMER: u32 = 1;
pub const CHAR_INPUT: u32 = 2;
pub const LINE_INPUT: u32 = 3;
pub const MOUSE_INPUT: u32 = 4;
pub const ARRANGE: u32 = 5;
pub const REDRAW: u32 = 6;
pub const SOUND_NOTIFY: u32 = 7;
pub const HYPERLINK: u32 = 8;
pub const VOLUME_NOTIFY: u32 = 9;

} // verus!
