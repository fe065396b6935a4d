//! The directions a stream opens in (Glk: File Streams).

use vstd::prelude::*;

verus! {

pub const WRITE: u32 = 0x01;
pub const READ: u32 = 0x02;
pub const READ_WRITE: u32 = 0x03;
pub const WRITE_APPEND: u32 = 0x05;

} // verus!
