# voxam_core

The Glulx core of the Voxam interactive fiction interpreter, written in
Verus. Every executable function in `src/` carries a contract that
Verus proves, except seven small trusted wrappers around outside code
(`src/text.rs` and `src/glk/api.rs`: std's `String::push`,
`char::from_u32` and case mappings, `unicode-normalization`'s NFD and
NFC, and `getrandom`'s `fill`), each marked `#[verifier::external_body]`
with what its contract claims in its doc comment, beside a declaration
of `getrandom`'s error type.

- `src/memory.rs`, `src/heap.rs` -- the memory map and the allocation
  heap, with read-back, allocation, freeing and round-trip laws.
- `src/machine.rs`, `src/machine/execution.rs`, `src/opcodes.rs` -- the
  opcode roster and every opcode's operand list, and a machine that
  executes instructions with loaded operands: integer math, branches
  and jumps, array loads and stores, the stack family on the values
  above the current frame, the output system, the string table, the
  memory map and heap opcodes, quit and debugtrap.
- `src/iff.rs`, `src/blorb.rs`, `src/aiff.rs`, `src/wav.rs` -- IFF
  chunk framing, a Blorb's resource index, AIFF sounds read out of their
  FORM and written out as WAVE.
- `src/glk/` -- the Glk layer: the object model and streams
  (`objects`), the open streams with their walk, rocks and current
  stream (`streams`), the tables of file references and sound channels
  (`table`), the window tree (`tree`), word wrapping (`wrap`), the
  dispatch table (`dispatch`), the GlkOte vocabulary and the decisions
  on a display's answers (`glkote`), a stdio display's decisions
  (`stdio`), resources as Glk sees them (`resources`), the function
  surface's pure work (`api`), and the event wait's steps (`select`).
- `app/` -- what stays outside the proofs: windows measured in a
  display's floating-point cells, temporary files on disk, a stdio
  display's reading and writing, and the event wait's loop over it.
- `tests/` -- scenarios run against the compiled library.

## What this crate does not hold

The crate does not hold a whole interpreter. These parts are not in it:
the story-file loader; instruction decoding, so there is no `step` or
`run`; call frames, so a return is handed back to the caller as an
effect and calls, catch and throw are left to it; compressed strings
and streaming;
the search opcodes; save, restore and undo; accelerated functions;
floating-point opcodes; the gestalt opcode; and the random generator. On the Glk
side there is no Glk object tying windows, streams, file references
and sound channels together -- the window tree, the open streams and
the tables of file references and sound channels stand on their own --
and no GlkOte session over JSON: the library holds the
decisions of both, and nothing here runs them. The layout walk that
hands each window its box stays in `app/`, where the key windows'
extents are measured in floating-point cells; the split it applies is
`PairData::split`.
