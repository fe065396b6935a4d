//! Voxam's Glulx core: the memory map, the allocation heap, the
//! machine's self-contained arithmetic, the opcode roster, the Blorb
//! resources a story carries (IFF framing, AIFF sounds read and written
//! out as WAVE), and the Glk layer's pure parts, each with its contract
//! proved.

pub mod text;
pub mod iff;
pub mod blorb;
pub mod aiff;
pub mod wav;
pub mod error;
pub mod memory;
pub mod heap;
pub mod machine;
pub mod opcodes;
pub mod glk;
