//! What a call stub does when its call returns (Glulx: Call Stubs):
//! store the result somewhere, or resume printing a string.

use vstd::prelude::*;

verus! {

/// Throw the result away.
pub const DISCARD: u32 = 0x00;

/// Store the result in main memory.
pub const MEMORY: u32 = 0x01;

/// Store the result in a local variable.
pub const LOCAL: u32 = 0x02;

/// Push the result on the stack.
pub const STACK: u32 = 0x03;

/// Resume printing a compressed string.
pub const RESUME_COMPRESSED: u32 = 0x10;

/// Resume executing function code after a string completes.
pub const RESUME_FUNCTION: u32 = 0x11;

/// Resume printing a signed decimal number.
pub const RESUME_NUMBER: u32 = 0x12;

/// Resume printing a C-style string.
pub const RESUME_CSTRING: u32 = 0x13;

/// Resume printing a Unicode string.
pub const RESUME_UNICODE: u32 = 0x14;

} // verus!
