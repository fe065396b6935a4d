//! The Glk gestalt selectors (Glk: The Gestalt System): Glk's own
//! capability questions, asked through glk_gestalt -- not the Glulx
//! machine's, which answer for the VM.

use vstd::prelude::*;

verus! {

pub const VERSION: u32 = 0;
pub const CHAR_INPUT: u32 = 1;
pub const LINE_INPUT: u32 = 2;
pub const CHAR_OUTPUT: u32 = 3;
pub const MOUSE_INPUT: u32 = 4;
pub const TIMER: u32 = 5;
pub const GRAPHICS: u32 = 6;
pub const DRAW_IMAGE: u32 = 7;
pub const SOUND: u32 = 8;
pub const SOUND_VOLUME: u32 = 9;
pub const SOUND_NOTIFY: u32 = 10;
pub const HYPERLINKS: u32 = 11;
pub const HYPERLINK_INPUT: u32 = 12;
pub const SOUND_MUSIC: u32 = 13;
pub const GRAPHICS_TRANSPARENCY: u32 = 14;
pub const UNICODE: u32 = 15;
pub const UNICODE_NORM: u32 = 16;
pub const LINE_INPUT_ECHO: u32 = 17;
pub const LINE_TERMINATORS: u32 = 18;
pub const LINE_TERMINATOR_KEY: u32 = 19;
pub const DATE_TIME: u32 = 20;
pub const SOUND2: u32 = 21;
pub const RESOURCE_STREAM: u32 = 22;
pub const GRAPHICS_CHAR_INPUT: u32 = 23;
pub const DRAW_IMAGE_SCALE: u32 = 24;

} // verus!
