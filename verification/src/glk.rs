//! Glk: the I/O layer Glulx games speak through -- the dispatch
//! table that knows every function's signature, the object model's
//! plain parts, the window tree, word wrapping for buffer windows, the
//! protocol vocabulary of GlkOte displays, a stdio display's decisions,
//! the Blorb resources as Glk sees them, and the pure work of the
//! function surface.

pub mod api;
pub mod dispatch;
pub mod frontend;
pub mod glkote;
pub mod objects;
pub mod resources;
pub mod select;
pub mod stdio;
pub mod streams;
pub mod table;
pub mod tree;
pub mod wrap;
