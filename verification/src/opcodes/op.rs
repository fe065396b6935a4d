//! Every opcode number defined by Glulx 3.1.3 (Glulx: Dictionary of
//! Opcodes).

use vstd::prelude::*;

verus! {

pub const NOP: u32 = 0x00;

// Integer math
pub const ADD: u32 = 0x10;
pub const SUB: u32 = 0x11;
pub const MUL: u32 = 0x12;
pub const DIV: u32 = 0x13;
pub const MOD: u32 = 0x14;
pub const NEG: u32 = 0x15;
pub const BITAND: u32 = 0x18;
pub const BITOR: u32 = 0x19;
pub const BITXOR: u32 = 0x1A;
pub const BITNOT: u32 = 0x1B;
pub const SHIFTL: u32 = 0x1C;
pub const SSHIFTR: u32 = 0x1D;
pub const USHIFTR: u32 = 0x1E;

// Branches
pub const JUMP: u32 = 0x20;
pub const JZ: u32 = 0x22;
pub const JNZ: u32 = 0x23;
pub const JEQ: u32 = 0x24;
pub const JNE: u32 = 0x25;
pub const JLT: u32 = 0x26;
pub const JGE: u32 = 0x27;
pub const JGT: u32 = 0x28;
pub const JLE: u32 = 0x29;
pub const JLTU: u32 = 0x2A;
pub const JGEU: u32 = 0x2B;
pub const JGTU: u32 = 0x2C;
pub const JLEU: u32 = 0x2D;
pub const JUMPABS: u32 = 0x104;

// Functions and continuations
pub const CALL: u32 = 0x30;
pub const RETURN: u32 = 0x31;
pub const CATCH: u32 = 0x32;
pub const THROW: u32 = 0x33;
pub const TAILCALL: u32 = 0x34;
pub const CALLF: u32 = 0x160;
pub const CALLFI: u32 = 0x161;
pub const CALLFII: u32 = 0x162;
pub const CALLFIII: u32 = 0x163;

// Moving data and array data
pub const COPY: u32 = 0x40;
pub const COPYS: u32 = 0x41;
pub const COPYB: u32 = 0x42;
pub const SEXS: u32 = 0x44;
pub const SEXB: u32 = 0x45;
pub const ALOAD: u32 = 0x48;
pub const ALOADS: u32 = 0x49;
pub const ALOADB: u32 = 0x4A;
pub const ALOADBIT: u32 = 0x4B;
pub const ASTORE: u32 = 0x4C;
pub const ASTORES: u32 = 0x4D;
pub const ASTOREB: u32 = 0x4E;
pub const ASTOREBIT: u32 = 0x4F;

// The stack
pub const STKCOUNT: u32 = 0x50;
pub const STKPEEK: u32 = 0x51;
pub const STKSWAP: u32 = 0x52;
pub const STKROLL: u32 = 0x53;
pub const STKCOPY: u32 = 0x54;

// Output
pub const STREAMCHAR: u32 = 0x70;
pub const STREAMNUM: u32 = 0x71;
pub const STREAMSTR: u32 = 0x72;
pub const STREAMUNICHAR: u32 = 0x73;
pub const GETSTRINGTBL: u32 = 0x140;
pub const SETSTRINGTBL: u32 = 0x141;
pub const GETIOSYS: u32 = 0x148;
pub const SETIOSYS: u32 = 0x149;

// Miscellaneous
pub const GESTALT: u32 = 0x100;
pub const DEBUGTRAP: u32 = 0x101;
pub const GLK: u32 = 0x130;

// The memory map
pub const GETMEMSIZE: u32 = 0x102;
pub const SETMEMSIZE: u32 = 0x103;

// The random number generator
pub const RANDOM: u32 = 0x110;
pub const SETRANDOM: u32 = 0x111;

// Game state
pub const QUIT: u32 = 0x120;
pub const VERIFY: u32 = 0x121;
pub const RESTART: u32 = 0x122;
pub const SAVE: u32 = 0x123;
pub const RESTORE: u32 = 0x124;
pub const SAVEUNDO: u32 = 0x125;
pub const RESTOREUNDO: u32 = 0x126;
pub const PROTECT: u32 = 0x127;
pub const HASUNDO: u32 = 0x128;
pub const DISCARDUNDO: u32 = 0x129;

// Searching
pub const LINEARSEARCH: u32 = 0x150;
pub const BINARYSEARCH: u32 = 0x151;
pub const LINKEDSEARCH: u32 = 0x152;

// Block copy and clear
pub const MZERO: u32 = 0x170;
pub const MCOPY: u32 = 0x171;

// The memory allocation heap
pub const MALLOC: u32 = 0x178;
pub const MFREE: u32 = 0x179;

// Accelerated functions
pub const ACCELFUNC: u32 = 0x180;
pub const ACCELPARAM: u32 = 0x181;

// Floating-point math
pub const NUMTOF: u32 = 0x190;
pub const FTONUMZ: u32 = 0x191;
pub const FTONUMN: u32 = 0x192;
pub const CEIL: u32 = 0x198;
pub const FLOOR: u32 = 0x199;
pub const FADD: u32 = 0x1A0;
pub const FSUB: u32 = 0x1A1;
pub const FMUL: u32 = 0x1A2;
pub const FDIV: u32 = 0x1A3;
pub const FMOD: u32 = 0x1A4;
pub const SQRT: u32 = 0x1A8;
pub const EXP: u32 = 0x1A9;
pub const LOG: u32 = 0x1AA;
pub const POW: u32 = 0x1AB;
pub const SIN: u32 = 0x1B0;
pub const COS: u32 = 0x1B1;
pub const TAN: u32 = 0x1B2;
pub const ASIN: u32 = 0x1B3;
pub const ACOS: u32 = 0x1B4;
pub const ATAN: u32 = 0x1B5;
pub const ATAN2: u32 = 0x1B6;

// Floating-point comparisons
pub const JFEQ: u32 = 0x1C0;
pub const JFNE: u32 = 0x1C1;
pub const JFLT: u32 = 0x1C2;
pub const JFLE: u32 = 0x1C3;
pub const JFGT: u32 = 0x1C4;
pub const JFGE: u32 = 0x1C5;
pub const JISNAN: u32 = 0x1C8;
pub const JISINF: u32 = 0x1C9;

// Double-precision math
pub const NUMTOD: u32 = 0x200;
pub const DTONUMZ: u32 = 0x201;
pub const DTONUMN: u32 = 0x202;
pub const FTOD: u32 = 0x203;
pub const DTOF: u32 = 0x204;
pub const DCEIL: u32 = 0x208;
pub const DFLOOR: u32 = 0x209;
pub const DADD: u32 = 0x210;
pub const DSUB: u32 = 0x211;
pub const DMUL: u32 = 0x212;
pub const DDIV: u32 = 0x213;
pub const DMODR: u32 = 0x214;
pub const DMODQ: u32 = 0x215;
pub const DSQRT: u32 = 0x218;
pub const DEXP: u32 = 0x219;
pub const DLOG: u32 = 0x21A;
pub const DPOW: u32 = 0x21B;
pub const DSIN: u32 = 0x220;
pub const DCOS: u32 = 0x221;
pub const DTAN: u32 = 0x222;
pub const DASIN: u32 = 0x223;
pub const DACOS: u32 = 0x224;
pub const DATAN: u32 = 0x225;
pub const DATAN2: u32 = 0x226;

// Double-precision comparisons
pub const JDEQ: u32 = 0x230;
pub const JDNE: u32 = 0x231;
pub const JDLT: u32 = 0x232;
pub const JDLE: u32 = 0x233;
pub const JDGT: u32 = 0x234;
pub const JDGE: u32 = 0x235;
pub const JDISNAN: u32 = 0x238;
pub const JDISINF: u32 = 0x239;

} // verus!
