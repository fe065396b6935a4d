//! Where a stream position is measured from (Glk: Stream Positions).

use vstd::prelude::*;

verus! {

pub const START: u32 = 0;
pub const CURRENT: u32 = 1;
pub const END: u32 = 2;

} // verus!
