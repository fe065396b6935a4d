//! The output systems setiosys accepts (Glulx: Output).

use vstd::prelude::*;

verus! {

/// Output is discarded -- the mode the machine starts in.
pub const NULL: u32 = 0;

/// Each character passes to the Glulx function the rock names.
pub const FILTER: u32 = 1;

/// Output goes to the current Glk stream.
pub const GLK: u32 = 2;

} // verus!
