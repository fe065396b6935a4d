//! The Glulx machine's instruction work: the output-system selection,
//! every opcode's operand list, integer math with signed division and
//! remainder, branch conditions and targets, array loads and stores
//! with bit addressing, the stack family on the values above the
//! current frame, the random opcode's ranges, the memory-size guard,
//! and call stubs that resume strings.

use vstd::prelude::*;

use crate::error::VoxamError;
use crate::heap::Heap;
use crate::memory::{
    be_short, be_word, put_short, put_word, refusal, short_reads_back, word_reads_back, Memory,
    MemoryState,
};
use crate::opcodes::op;

pub mod dest_type;
pub mod execution;
pub mod io_mode;

pub use self::execution::{Destination, Effect, Machine, MachineState, Operand};

verus! {

/// Which output system is current, and its rock.
#[derive(Debug, Default, Clone, Copy, PartialEq, Eq, Structural)]
pub struct IOSystem {
    /// The current io_mode value.
    pub mode: u32,
    /// Filter mode's function address; otherwise decoration.
    pub rock: u32,
}

/// The output system a selection lands on: the one asked for where it
/// is null, filter, or Glk, and the null system otherwise (Glulx:
/// Output).
pub open spec fn selected(mode: u32, rock: u32) -> IOSystem {
    if mode == io_mode::NULL || mode == io_mode::FILTER || mode == io_mode::GLK {
        IOSystem { mode, rock }
    } else {
        IOSystem { mode: io_mode::NULL, rock: 0 }
    }
}

impl IOSystem {
    /// Select an output system.
    ///
    /// An unrecognized mode is not an error: setting an unsupported
    /// system selects the null system instead, which is exactly what a
    /// program probing with an unknown mode should find (Glulx:
    /// Output).
    pub fn select(&mut self, mode: u32, rock: u32)
        ensures
            *final(self) == selected(mode, rock),
    {
        if mode == io_mode::NULL || mode == io_mode::FILTER || mode == io_mode::GLK {
            self.mode = mode;
            self.rock = rock;
        } else {
            self.mode = io_mode::NULL;
            self.rock = 0;
        }
    }

    /// Return to the null system -- restart's share.
    pub fn reset(&mut self)
        ensures
            *final(self) == (IOSystem { mode: io_mode::NULL, rock: 0 }),
    {
        self.mode = io_mode::NULL;
        self.rock = 0;
    }
}

/// The signed number an unsigned 32-bit value spells in two's
/// complement.
pub open spec fn as_signed(value: u32) -> int {
    if value >= 0x8000_0000 {
        value - 0x1_0000_0000
    } else {
        value as int
    }
}

/// The unsigned 32-bit spelling of a signed number in range.
pub open spec fn as_unsigned(value: int) -> u32 {
    if value < 0 {
        (value + 0x1_0000_0000) as u32
    } else {
        value as u32
    }
}

/// An unsigned 32-bit value reread as the signed one it spells.
pub fn signed(value: u32) -> (number: i32)
    ensures
        number == as_signed(value),
{
    if value >= 0x8000_0000 {
        (value as i64 - 0x1_0000_0000) as i32
    } else {
        value as i32
    }
}

/// A signed number spelled back as its unsigned 32 bits.
fn unsigned(value: i32) -> (bits: u32)
    ensures
        bits == as_unsigned(value as int),
{
    if value < 0 {
        (value as i64 + 0x1_0000_0000) as u32
    } else {
        value as u32
    }
}

/// The quotient of signed division truncated toward zero.
pub open spec fn truncated_quotient(x: int, y: int) -> int {
    let magnitude = (if x < 0 {
        -x
    } else {
        x
    }) / (if y < 0 {
        -y
    } else {
        y
    });
    if (x < 0) != (y < 0) {
        -magnitude
    } else {
        magnitude
    }
}

/// The remainder of signed division truncated toward zero: its sign
/// the dividend's.
pub open spec fn truncated_remainder(x: int, y: int) -> int {
    x - y * truncated_quotient(x, y)
}

/// The signed quotient of two words truncated toward zero, or the
/// refusal of a zero divisor and of the one overflow: the most
/// negative value divided by -1.
pub open spec fn division(a: u32, b: u32) -> Result<u32, VoxamError> {
    if b == 0 {
        Err(VoxamError::DivisionByZero)
    } else if a == 0x8000_0000 && b == 0xFFFF_FFFF {
        Err(VoxamError::DivisionOverflow)
    } else {
        Ok(as_unsigned(truncated_quotient(as_signed(a), as_signed(b))))
    }
}

/// The signed remainder of two words, its sign the dividend's, or the
/// refusal of the same two cases as division.
pub open spec fn modulus(a: u32, b: u32) -> Result<u32, VoxamError> {
    if b == 0 {
        Err(VoxamError::RemainderByZero)
    } else if a == 0x8000_0000 && b == 0xFFFF_FFFF {
        Err(VoxamError::RemainderOverflow)
    } else {
        Ok(as_unsigned(truncated_remainder(as_signed(a), as_signed(b))))
    }
}

/// Signed division truncating toward zero (Glulx: Integer Math),
/// refusing the zero divisor and the one overflow: the most negative
/// value divided by -1.
pub fn divided(a: u32, b: u32) -> (result: Result<u32, VoxamError>)
    ensures
        result == division(a, b),
{
    let x = signed(a);
    let y = signed(b);
    if y == 0 {
        return Err(VoxamError::DivisionByZero);
    }
    if y == -1 && x == i32::MIN {
        return Err(VoxamError::DivisionOverflow);
    }
    let magnitude_x: i64 = if x < 0 {
        -(x as i64)
    } else {
        x as i64
    };
    let magnitude_y: i64 = if y < 0 {
        -(y as i64)
    } else {
        y as i64
    };
    let magnitude = magnitude_x / magnitude_y;
    let quotient: i64 = if (x < 0) != (y < 0) {
        -magnitude
    } else {
        magnitude
    };
    proof {
        assert(0 <= magnitude <= magnitude_x) by (nonlinear_arith)
            requires
                magnitude == magnitude_x / magnitude_y,
                magnitude_y >= 1,
                magnitude_x >= 0,
        ;
        assert(magnitude <= 0x7FFF_FFFF || (x < 0) != (y < 0)) by (nonlinear_arith)
            requires
                magnitude == magnitude_x / magnitude_y,
                magnitude_y >= 1,
                0 <= magnitude_x <= 0x8000_0000,
                magnitude_x == 0x8000_0000 ==> x < 0,
                x < 0 && y < 0 ==> magnitude_y >= 2 || magnitude_x <= 0x7FFF_FFFF,
        ;
    }
    Ok(unsigned(quotient as i32))
}

/// Signed remainder, its sign the dividend's (Glulx: Integer Math),
/// refusing the same two cases as division.
pub fn remainder(a: u32, b: u32) -> (result: Result<u32, VoxamError>)
    ensures
        result == modulus(a, b),
{
    let x = signed(a);
    let y = signed(b);
    if y == 0 {
        return Err(VoxamError::RemainderByZero);
    }
    if y == -1 && x == i32::MIN {
        return Err(VoxamError::RemainderOverflow);
    }
    let wide_x = x as i64;
    let wide_y = y as i64;
    let magnitude_x: i64 = if x < 0 {
        -wide_x
    } else {
        wide_x
    };
    let magnitude_y: i64 = if y < 0 {
        -wide_y
    } else {
        wide_y
    };
    let magnitude = magnitude_x / magnitude_y;
    let quotient: i64 = if (x < 0) != (y < 0) {
        -magnitude
    } else {
        magnitude
    };
    proof {
        assert(0 <= magnitude <= magnitude_x) by (nonlinear_arith)
            requires
                magnitude == magnitude_x / magnitude_y,
                magnitude_y >= 1,
                magnitude_x >= 0,
        ;
        assert(magnitude_x - magnitude_y * magnitude < magnitude_y && magnitude_x - magnitude_y
            * magnitude >= 0) by (nonlinear_arith)
            requires
                magnitude == magnitude_x / magnitude_y,
                magnitude_y >= 1,
                magnitude_x >= 0,
        ;
        assert(-0x8000_0000 <= quotient <= 0x8000_0000);
        assert(-0x4000_0000_0000_0000 <= wide_y * quotient <= 0x4000_0000_0000_0000)
            by (nonlinear_arith)
            requires
                -0x8000_0000 <= wide_y <= 0x8000_0000,
                -0x8000_0000 <= quotient <= 0x8000_0000,
        ;
    }
    let rest = wide_x - wide_y * quotient;
    proof {
        assert(-0x8000_0000 <= rest <= 0x7FFF_FFFF) by (nonlinear_arith)
            requires
                rest == wide_x - wide_y * quotient,
                quotient == if (x < 0) != (y < 0) {
                    -magnitude
                } else {
                    magnitude as int
                },
                magnitude_x == if x < 0 {
                    -wide_x
                } else {
                    wide_x as int
                },
                magnitude_y == if y < 0 {
                    -wide_y
                } else {
                    wide_y as int
                },
                0 <= magnitude_x - magnitude_y * magnitude < magnitude_y,
                magnitude_y <= 0x8000_0000,
                -0x8000_0000 <= wide_x <= 0x7FFF_FFFF,
        ;
    }
    Ok(unsigned(rest as i32))
}

/// Signed division's quotient and remainder put the dividend back
/// together; the remainder is smaller than the divisor and takes the
/// dividend's sign (Glulx: Integer Math).
pub proof fn division_rebuilds_the_dividend(x: int, y: int)
    requires
        y != 0,
    ensures
        x == y * truncated_quotient(x, y) + truncated_remainder(x, y),
        truncated_remainder(x, y) == 0 || ((truncated_remainder(x, y) < 0) == (x < 0)),
        -(if y < 0 {
            -y
        } else {
            y
        }) < truncated_remainder(x, y) < (if y < 0 {
            -y
        } else {
            y
        }),
{
    let ax = if x < 0 {
        -x
    } else {
        x
    };
    let ay = if y < 0 {
        -y
    } else {
        y
    };
    let m = ax / ay;
    assert(0 <= ax - ay * m < ay) by (nonlinear_arith)
        requires
            m == ax / ay,
            ay > 0,
            ax >= 0,
    ;
    let q = truncated_quotient(x, y);
    let r = truncated_remainder(x, y);
    assert(q == if (x < 0) != (y < 0) {
        -m
    } else {
        m
    });
    assert(r == (if x < 0 {
        -(ax - ay * m)
    } else {
        ax - ay * m
    })) by (nonlinear_arith)
        requires
            r == x - y * q,
            q == if (x < 0) != (y < 0) {
                -m
            } else {
                m
            },
            ax == if x < 0 {
                -x
            } else {
                x
            },
            ay == if y < 0 {
                -y
            } else {
                y
            },
    ;
}

/// Whether a call-stub type resumes a string rather than storing a
/// result (Glulx: Call Stubs).
pub fn resumes_a_string(desttype: u32) -> (yes: bool)
    ensures
        yes == (desttype == dest_type::RESUME_COMPRESSED || desttype == dest_type::RESUME_NUMBER
            || desttype == dest_type::RESUME_CSTRING || desttype == dest_type::RESUME_UNICODE),
{
    desttype == dest_type::RESUME_COMPRESSED || desttype == dest_type::RESUME_NUMBER || desttype
        == dest_type::RESUME_CSTRING || desttype == dest_type::RESUME_UNICODE
}

/// The byte and bit a bit index names from a base address: the index
/// is signed, so a negative one reaches below the base, and bit 0 is
/// the byte's lowest (Glulx: Array Data).
pub open spec fn bit_of(base: u32, index: u32) -> (u32, u32) {
    let offset = as_signed(index);
    (((base as int + offset / 8) % 0x1_0000_0000) as u32, (offset % 8) as u32)
}

/// The byte and bit a signed bit index names from a base address.
pub fn bit_address(base: u32, index: u32) -> (place: (u32, u32))
    ensures
        place == bit_of(base, index),
{
    let offset = signed(index) as i64;
    let byte = if offset >= 0 {
        offset / 8
    } else {
        -((-offset - 1) / 8 + 1)
    };
    let bit = offset - byte * 8;
    proof {
        assert(byte == offset / 8) by (nonlinear_arith)
            requires
                byte == if offset >= 0 {
                    offset / 8
                } else {
                    -((-offset - 1) / 8 + 1) as int
                },
        ;
        assert(bit == offset % 8) by (nonlinear_arith)
            requires
                byte == offset / 8,
                bit == offset - byte * 8,
        ;
    }
    let address = ((base as i64 + byte + 0x1_0000_0000) % 0x1_0000_0000) as u32;
    proof {
        assert((base as int + byte + 0x1_0000_0000) % 0x1_0000_0000 == (base as int + byte)
            % 0x1_0000_0000) by (nonlinear_arith);
    }
    (address, bit as u32)
}

/// An opcode's operands: one letter per operand in the order the
/// instruction encodes them, `L` for one it loads and `S` for one it
/// stores, and the width in bytes that a memory or constant operand
/// moves.
#[derive(Debug, Clone, Copy, PartialEq, Eq)]
pub struct OperandList {
    /// The operand modes, in encoding order.
    pub pattern: &'static str,
    /// The width of each operand's value: 4, or 2 and 1 for the
    /// short and byte copies.
    pub width: u32,
}

/// The operand list of each opcode the Glulx specification defines,
/// as its pattern and width (Glulx: Dictionary of Opcodes).
pub open spec fn operand_list(opcode: u32) -> Option<(Seq<char>, u32)> {
    match opcode {
        op::NOP | op::STKSWAP | op::QUIT | op::RESTART | op::DISCARDUNDO => Some((""@, 4u32)),
        op::JUMP | op::JUMPABS | op::RETURN | op::STREAMCHAR | op::STREAMUNICHAR | op::STREAMNUM | op::STREAMSTR | op::SETSTRINGTBL | op::SETRANDOM | op::MFREE | op::STKCOPY | op::DEBUGTRAP => Some(("L"@, 4u32)),
        op::JZ | op::JNZ | op::TAILCALL | op::THROW | op::SETIOSYS | op::ACCELFUNC | op::ACCELPARAM | op::MZERO | op::PROTECT | op::STKROLL | op::JISNAN | op::JISINF => Some(("LL"@, 4u32)),
        op::JEQ | op::JNE | op::JLT | op::JGE | op::JGT | op::JLE | op::JLTU | op::JGEU | op::JGTU | op::JLEU | op::ASTORE | op::ASTORES | op::ASTOREB | op::ASTOREBIT | op::MCOPY | op::JFLT | op::JFLE | op::JFGT | op::JFGE | op::JDISNAN | op::JDISINF => Some(("LLL"@, 4u32)),
        op::JFEQ | op::JFNE => Some(("LLLL"@, 4u32)),
        op::JDLT | op::JDLE | op::JDGT | op::JDGE => Some(("LLLLL"@, 4u32)),
        op::JDEQ | op::JDNE => Some(("LLLLLLL"@, 4u32)),
        op::GETSTRINGTBL | op::STKCOUNT | op::GETMEMSIZE | op::VERIFY | op::SAVEUNDO | op::RESTOREUNDO | op::HASUNDO => Some(("S"@, 4u32)),
        op::GETIOSYS => Some(("SS"@, 4u32)),
        op::CATCH => Some(("SL"@, 4u32)),
        op::CALLF | op::NEG | op::BITNOT | op::SEXS | op::SEXB | op::COPY | op::STKPEEK | op::MALLOC | op::SAVE | op::RESTORE | op::RANDOM | op::SETMEMSIZE | op::NUMTOF | op::FTONUMZ | op::FTONUMN | op::CEIL | op::FLOOR | op::SQRT | op::EXP | op::LOG | op::SIN | op::COS | op::TAN | op::ASIN | op::ACOS | op::ATAN => Some(("LS"@, 4u32)),
        op::COPYS => Some(("LS"@, 2u32)),
        op::COPYB => Some(("LS"@, 1u32)),
        op::NUMTOD | op::FTOD => Some(("LSS"@, 4u32)),
        op::ADD | op::SUB | op::MUL | op::DIV | op::MOD | op::BITAND | op::BITOR | op::BITXOR | op::SHIFTL | op::SSHIFTR | op::USHIFTR | op::CALL | op::CALLFI | op::ALOAD | op::ALOADS | op::ALOADB | op::ALOADBIT | op::GLK | op::GESTALT | op::FADD | op::FSUB | op::FMUL | op::FDIV | op::POW | op::ATAN2 | op::DTONUMZ | op::DTONUMN | op::DTOF => Some(("LLS"@, 4u32)),
        op::FMOD | op::DCEIL | op::DFLOOR | op::DSQRT | op::DEXP | op::DLOG | op::DSIN | op::DCOS | op::DTAN | op::DASIN | op::DACOS | op::DATAN => Some(("LLSS"@, 4u32)),
        op::CALLFII => Some(("LLLS"@, 4u32)),
        op::CALLFIII => Some(("LLLLS"@, 4u32)),
        op::DADD | op::DSUB | op::DMUL | op::DDIV | op::DMODR | op::DMODQ | op::DPOW | op::DATAN2 => Some(("LLLLSS"@, 4u32)),
        op::LINKEDSEARCH => Some(("LLLLLLS"@, 4u32)),
        op::LINEARSEARCH | op::BINARYSEARCH => Some(("LLLLLLLS"@, 4u32)),
        _ => None,
    }
}

/// An opcode's operand list, or None for a number the specification
/// does not define (Glulx: Dictionary of Opcodes).
pub fn signature(opcode: u32) -> (found: Option<OperandList>)
    ensures
        match found {
            Some(list) => operand_list(opcode) == Some((list.pattern@, list.width)),
            None => operand_list(opcode) is None,
        },
{
    match opcode {
        op::NOP | op::STKSWAP | op::QUIT | op::RESTART | op::DISCARDUNDO => Some(OperandList { pattern: "", width: 4 }),
        op::JUMP | op::JUMPABS | op::RETURN | op::STREAMCHAR | op::STREAMUNICHAR | op::STREAMNUM | op::STREAMSTR | op::SETSTRINGTBL | op::SETRANDOM | op::MFREE | op::STKCOPY | op::DEBUGTRAP => Some(OperandList { pattern: "L", width: 4 }),
        op::JZ | op::JNZ | op::TAILCALL | op::THROW | op::SETIOSYS | op::ACCELFUNC | op::ACCELPARAM | op::MZERO | op::PROTECT | op::STKROLL | op::JISNAN | op::JISINF => Some(OperandList { pattern: "LL", width: 4 }),
        op::JEQ | op::JNE | op::JLT | op::JGE | op::JGT | op::JLE | op::JLTU | op::JGEU | op::JGTU | op::JLEU | op::ASTORE | op::ASTORES | op::ASTOREB | op::ASTOREBIT | op::MCOPY | op::JFLT | op::JFLE | op::JFGT | op::JFGE | op::JDISNAN | op::JDISINF => Some(OperandList { pattern: "LLL", width: 4 }),
        op::JFEQ | op::JFNE => Some(OperandList { pattern: "LLLL", width: 4 }),
        op::JDLT | op::JDLE | op::JDGT | op::JDGE => Some(OperandList { pattern: "LLLLL", width: 4 }),
        op::JDEQ | op::JDNE => Some(OperandList { pattern: "LLLLLLL", width: 4 }),
        op::GETSTRINGTBL | op::STKCOUNT | op::GETMEMSIZE | op::VERIFY | op::SAVEUNDO | op::RESTOREUNDO | op::HASUNDO => Some(OperandList { pattern: "S", width: 4 }),
        op::GETIOSYS => Some(OperandList { pattern: "SS", width: 4 }),
        op::CATCH => Some(OperandList { pattern: "SL", width: 4 }),
        op::CALLF | op::NEG | op::BITNOT | op::SEXS | op::SEXB | op::COPY | op::STKPEEK | op::MALLOC | op::SAVE | op::RESTORE | op::RANDOM | op::SETMEMSIZE | op::NUMTOF | op::FTONUMZ | op::FTONUMN | op::CEIL | op::FLOOR | op::SQRT | op::EXP | op::LOG | op::SIN | op::COS | op::TAN | op::ASIN | op::ACOS | op::ATAN => Some(OperandList { pattern: "LS", width: 4 }),
        op::COPYS => Some(OperandList { pattern: "LS", width: 2 }),
        op::COPYB => Some(OperandList { pattern: "LS", width: 1 }),
        op::NUMTOD | op::FTOD => Some(OperandList { pattern: "LSS", width: 4 }),
        op::ADD | op::SUB | op::MUL | op::DIV | op::MOD | op::BITAND | op::BITOR | op::BITXOR | op::SHIFTL | op::SSHIFTR | op::USHIFTR | op::CALL | op::CALLFI | op::ALOAD | op::ALOADS | op::ALOADB | op::ALOADBIT | op::GLK | op::GESTALT | op::FADD | op::FSUB | op::FMUL | op::FDIV | op::POW | op::ATAN2 | op::DTONUMZ | op::DTONUMN | op::DTOF => Some(OperandList { pattern: "LLS", width: 4 }),
        op::FMOD | op::DCEIL | op::DFLOOR | op::DSQRT | op::DEXP | op::DLOG | op::DSIN | op::DCOS | op::DTAN | op::DASIN | op::DACOS | op::DATAN => Some(OperandList { pattern: "LLSS", width: 4 }),
        op::CALLFII => Some(OperandList { pattern: "LLLS", width: 4 }),
        op::CALLFIII => Some(OperandList { pattern: "LLLLS", width: 4 }),
        op::DADD | op::DSUB | op::DMUL | op::DDIV | op::DMODR | op::DMODQ | op::DPOW | op::DATAN2 => Some(OperandList { pattern: "LLLLSS", width: 4 }),
        op::LINKEDSEARCH => Some(OperandList { pattern: "LLLLLLS", width: 4 }),
        op::LINEARSEARCH | op::BINARYSEARCH => Some(OperandList { pattern: "LLLLLLLS", width: 4 }),
        _ => None,
    }
}

/// A mathematical integer as the 32-bit word it wraps to.
pub open spec fn wrapped(value: int) -> u32 {
    (value % 0x1_0000_0000) as u32
}

/// A word's low `bits` bits, read as a signed number and spelled again
/// as a word.
pub open spec fn extended(value: u32, bits: nat) -> u32 {
    let low = value as int % pow2_of(bits);
    if low >= pow2_of(bits) / 2 {
        wrapped(low - pow2_of(bits))
    } else {
        low as u32
    }
}

/// Two to a small power.
pub open spec fn pow2_of(bits: nat) -> int {
    if bits == 8 {
        0x100
    } else {
        0x10000
    }
}

/// The word an integer-math or data-moving opcode stores, computed
/// from its loaded operands `a` and `b` alone: sums, differences,
/// products, and negations that wrap; signed division and remainder,
/// with their refusals; bitwise logic; shifts that leave nothing, or
/// only the sign, from 32 places on; copies, and sign extension from
/// 16 and 8 bits (Glulx: Integer Math; Glulx: Moving Data). None for
/// an opcode whose result is not such a computation.
pub open spec fn stored_value(opcode: u32, a: u32, b: u32) -> Option<Result<u32, VoxamError>> {
    match opcode {
        op::ADD => Some(Ok(wrapped(a + b))),
        op::SUB => Some(Ok(wrapped(a - b))),
        op::MUL => Some(Ok(wrapped(a * b))),
        op::DIV => Some(division(a, b)),
        op::MOD => Some(modulus(a, b)),
        op::NEG => Some(Ok(wrapped(-a))),
        op::BITAND => Some(Ok(a & b)),
        op::BITOR => Some(Ok(a | b)),
        op::BITXOR => Some(Ok(a ^ b)),
        op::BITNOT => Some(Ok(!a)),
        op::SHIFTL => Some(
            Ok(
                if b < 32 {
                    a << b
                } else {
                    0
                },
            ),
        ),
        op::USHIFTR => Some(
            Ok(
                if b < 32 {
                    a >> b
                } else {
                    0
                },
            ),
        ),
        op::SSHIFTR => Some(
            Ok(
                if b < 32 {
                    ((as_signed(a) as i32) >> b) as u32
                } else if a >= 0x8000_0000 {
                    0xFFFF_FFFF
                } else {
                    0
                },
            ),
        ),
        op::COPY => Some(Ok(a)),
        op::SEXS => Some(Ok(extended(a, 16))),
        op::SEXB => Some(Ok(extended(a, 8))),
        _ => None,
    }
}

/// A word's low half or low byte, sign-extended.
fn sign_extended(value: u32, bits: u32) -> (word: u32)
    requires
        bits == 8 || bits == 16,
    ensures
        word == extended(value, bits as nat),
{
    let range: u32 = if bits == 8 {
        0x100
    } else {
        0x10000
    };
    let low = value % range;
    if low >= range / 2 {
        proof {
            assert(wrapped(low - range) == (low + 0x1_0000_0000 - range) as u32) by (nonlinear_arith)
                requires
                    low < range,
                    range <= 0x10000,
            {
                assert((low - range) % 0x1_0000_0000 == low + 0x1_0000_0000 - range);
            }
        }
        low + (0xFFFF_FFFF - range + 1)
    } else {
        low
    }
}

/// The word an integer-math or data-moving opcode stores, from its
/// loaded operands; None for an opcode whose result is not such a
/// computation.
pub fn computed(opcode: u32, a: u32, b: u32) -> (value: Option<Result<u32, VoxamError>>)
    ensures
        value == stored_value(opcode, a, b),
{
    match opcode {
        op::ADD => {
            let sum = ((a as u64 + b as u64) % 0x1_0000_0000) as u32;
            Some(Ok(sum))
        },
        op::SUB => {
            let difference = ((a as u64 + 0x1_0000_0000 - b as u64) % 0x1_0000_0000) as u32;
            proof {
                assert((a + 0x1_0000_0000 - b) % 0x1_0000_0000 == (a - b) % 0x1_0000_0000int)
                    by (nonlinear_arith);
            }
            Some(Ok(difference))
        },
        op::MUL => {
            proof {
                assert(a * b <= 0xFFFF_FFFF * 0xFFFF_FFFF) by (nonlinear_arith)
                    requires
                        a <= 0xFFFF_FFFF,
                        b <= 0xFFFF_FFFF,
                ;
            }
            let product = ((a as u64 * b as u64) % 0x1_0000_0000) as u32;
            Some(Ok(product))
        },
        op::DIV => Some(divided(a, b)),
        op::MOD => Some(remainder(a, b)),
        op::NEG => {
            let negated = ((0x1_0000_0000 - a as u64) % 0x1_0000_0000) as u32;
            proof {
                assert((0x1_0000_0000 - a) % 0x1_0000_0000 == (-a) % 0x1_0000_0000int)
                    by (nonlinear_arith);
            }
            Some(Ok(negated))
        },
        op::BITAND => Some(Ok(a & b)),
        op::BITOR => Some(Ok(a | b)),
        op::BITXOR => Some(Ok(a ^ b)),
        op::BITNOT => Some(Ok(!a)),
        op::SHIFTL => Some(
            Ok(
                if b < 32 {
                    a << b
                } else {
                    0
                },
            ),
        ),
        op::USHIFTR => Some(
            Ok(
                if b < 32 {
                    a >> b
                } else {
                    0
                },
            ),
        ),
        op::SSHIFTR => {
            let value = if b < 32 {
                #[verifier::truncate] ((signed(a) >> b) as u32)
            } else if a >= 0x8000_0000 {
                0xFFFF_FFFF
            } else {
                0
            };
            Some(Ok(value))
        },
        op::COPY => Some(Ok(a)),
        op::SEXS => Some(Ok(sign_extended(a, 16))),
        op::SEXB => Some(Ok(sign_extended(a, 8))),
        _ => None,
    }
}

/// Whether a conditional branch opcode branches on its loaded operands
/// `a` and `b`: on zero or not, on equality, or on order read signed or
/// unsigned (Glulx: Branches). None for any other opcode.
pub open spec fn branch_condition(opcode: u32, a: u32, b: u32) -> Option<bool> {
    match opcode {
        op::JZ => Some(a == 0),
        op::JNZ => Some(a != 0),
        op::JEQ => Some(a == b),
        op::JNE => Some(a != b),
        op::JLT => Some(as_signed(a) < as_signed(b)),
        op::JGE => Some(as_signed(a) >= as_signed(b)),
        op::JGT => Some(as_signed(a) > as_signed(b)),
        op::JLE => Some(as_signed(a) <= as_signed(b)),
        op::JLTU => Some(a < b),
        op::JGEU => Some(a >= b),
        op::JGTU => Some(a > b),
        op::JLEU => Some(a <= b),
        _ => None,
    }
}

/// Whether a conditional branch opcode branches on its loaded
/// operands; None for any other opcode.
pub fn branches(opcode: u32, a: u32, b: u32) -> (taken: Option<bool>)
    ensures
        taken == branch_condition(opcode, a, b),
{
    match opcode {
        op::JZ => Some(a == 0),
        op::JNZ => Some(a != 0),
        op::JEQ => Some(a == b),
        op::JNE => Some(a != b),
        op::JLT => Some(signed(a) < signed(b)),
        op::JGE => Some(signed(a) >= signed(b)),
        op::JGT => Some(signed(a) > signed(b)),
        op::JLE => Some(signed(a) <= signed(b)),
        op::JLTU => Some(a < b),
        op::JGEU => Some(a >= b),
        op::JGTU => Some(a > b),
        op::JLEU => Some(a <= b),
        _ => None,
    }
}

/// Where a branch goes.
#[derive(Debug, Clone, Copy, PartialEq, Eq, Structural)]
pub enum Jump {
    /// Offsets 0 and 1 return that value from the current function.
    Return(u32),
    /// Any other offset moves the program counter here.
    To(u32),
}

/// Where a branch by `offset` goes from the program counter `pc`,
/// which already sits past the instruction: offsets 0 and 1 return
/// false or true, and any other lands at `pc + offset - 2`, wrapping
/// (Glulx: Branches).
pub open spec fn jump_of(pc: u32, offset: u32) -> Jump {
    if offset == 0 || offset == 1 {
        Jump::Return(offset)
    } else {
        Jump::To(wrapped(pc + offset - 2))
    }
}

/// Where a branch by an offset goes from a program counter.
pub fn jumped(pc: u32, offset: u32) -> (jump: Jump)
    ensures
        jump == jump_of(pc, offset),
{
    if offset == 0 || offset == 1 {
        Jump::Return(offset)
    } else {
        let target = ((pc as u64 + offset as u64 + 0xFFFF_FFFE) % 0x1_0000_0000) as u32;
        proof {
            assert((pc + offset + 0xFFFF_FFFE) % 0x1_0000_0000 == (pc + offset - 2)
                % 0x1_0000_0000int) by (nonlinear_arith);
        }
        Jump::To(target)
    }
}

/// The address of an array's element: the base plus the index times
/// the element's width, wrapping at 32 bits, so an index of -1 reaches
/// backward (Glulx: Array Data).
pub open spec fn element(base: u32, index: u32, width: int) -> u32 {
    wrapped(base + index * width)
}

/// The word at an address, or the fault for one off the map.
pub open spec fn word_read(memory: MemoryState, address: u32) -> Result<u32, VoxamError> {
    if address + 4 <= memory.endmem() {
        Ok(be_word(memory.bytes, address as int))
    } else {
        Err(VoxamError::OutOfRange { address })
    }
}

/// The short at an address, widened, or the fault for one off the map.
pub open spec fn short_read(memory: MemoryState, address: u32) -> Result<u32, VoxamError> {
    if address + 2 <= memory.endmem() {
        Ok(be_short(memory.bytes, address as int) as u32)
    } else {
        Err(VoxamError::OutOfRange { address })
    }
}

/// The byte at an address, or the fault for one off the map.
pub open spec fn byte_read(memory: MemoryState, address: u32) -> Result<u8, VoxamError> {
    if address < memory.endmem() {
        Ok(memory.bytes[address as int])
    } else {
        Err(VoxamError::OutOfRange { address })
    }
}

/// Whether a byte's bit is set, as 1 or 0.
pub open spec fn bit_value(byte: u8, bit: u32) -> u32 {
    ((byte >> (bit as u8)) & 1u8) as u32
}

/// The word an array-loading opcode reads: a word, a short, or a byte
/// by index from a base, or one bit by signed bit index; None for any
/// other opcode (Glulx: Array Data).
pub open spec fn array_loaded(memory: MemoryState, opcode: u32, base: u32, index: u32) -> Option<
    Result<u32, VoxamError>,
> {
    match opcode {
        op::ALOAD => Some(word_read(memory, element(base, index, 4))),
        op::ALOADS => Some(short_read(memory, element(base, index, 2))),
        op::ALOADB => Some(
            match byte_read(memory, element(base, index, 1)) {
                Ok(byte) => Ok(byte as u32),
                Err(fault) => Err(fault),
            },
        ),
        op::ALOADBIT => Some(
            match byte_read(memory, bit_of(base, index).0) {
                Ok(byte) => Ok(bit_value(byte, bit_of(base, index).1)),
                Err(fault) => Err(fault),
            },
        ),
        _ => None,
    }
}

/// An array element's address, computed.
fn element_at(base: u32, index: u32, width: u32) -> (address: u32)
    requires
        width == 1 || width == 2 || width == 4,
    ensures
        address == element(base, index, width as int),
{
    proof {
        assert(index * width <= 0xFFFF_FFFF * 4) by (nonlinear_arith)
            requires
                index <= 0xFFFF_FFFF,
                width <= 4,
        ;
    }
    ((base as u64 + index as u64 * width as u64) % 0x1_0000_0000) as u32
}

/// The word an array-loading opcode reads from memory; None for any
/// other opcode.
pub fn array_load(memory: &Memory, opcode: u32, base: u32, index: u32) -> (loaded: Option<
    Result<u32, VoxamError>,
>)
    requires
        memory@.wf(),
    ensures
        loaded == array_loaded(memory@, opcode, base, index),
{
    match opcode {
        op::ALOAD => Some(memory.read_word(element_at(base, index, 4))),
        op::ALOADS => Some(
            match memory.read_short(element_at(base, index, 2)) {
                Ok(value) => Ok(value as u32),
                Err(fault) => Err(fault),
            },
        ),
        op::ALOADB => Some(
            match memory.read_byte(element_at(base, index, 1)) {
                Ok(byte) => Ok(byte as u32),
                Err(fault) => Err(fault),
            },
        ),
        op::ALOADBIT => {
            let (address, bit) = bit_address(base, index);
            Some(
                match memory.read_byte(address) {
                    Ok(byte) => Ok(((byte >> (bit as u8)) & 1u8) as u32),
                    Err(fault) => Err(fault),
                },
            )
        },
        _ => None,
    }
}

/// A byte with one bit set or cleared.
pub open spec fn bit_put(byte: u8, bit: u32, set: bool) -> u8 {
    if set {
        byte | (1u8 << (bit as u8))
    } else {
        byte & !(1u8 << (bit as u8))
    }
}

/// A write of `count` bytes at an address: its verdict and the map it
/// leaves, the bytes laid in where the run lies wholly in RAM, and the
/// map unchanged otherwise.
pub open spec fn written_run(memory: MemoryState, address: u32, count: int, bytes: Seq<u8>) -> (
    Result<(), VoxamError>,
    MemoryState,
) {
    if memory.writable(address, count) {
        (Ok(()), memory.with_bytes(bytes))
    } else {
        (Err(refusal(address, memory.ramstart)), memory)
    }
}

/// What an array-storing opcode does to memory: its verdict and the
/// map it leaves. A word, a short, or a byte lands by index from a
/// base, the value cut to the element's width; a bit is set where the
/// value is nonzero and cleared where it is zero, its byte read first.
/// None for any other opcode (Glulx: Array Data).
pub open spec fn array_stored(
    memory: MemoryState,
    opcode: u32,
    base: u32,
    index: u32,
    value: u32,
) -> Option<(Result<(), VoxamError>, MemoryState)> {
    match opcode {
        op::ASTORE => {
            let address = element(base, index, 4);
            Some(written_run(memory, address, 4, put_word(memory.bytes, address as int, value)))
        },
        op::ASTORES => {
            let address = element(base, index, 2);
            Some(
                written_run(
                    memory,
                    address,
                    2,
                    put_short(memory.bytes, address as int, (value % 0x10000) as u16),
                ),
            )
        },
        op::ASTOREB => {
            let address = element(base, index, 1);
            Some(
                written_run(
                    memory,
                    address,
                    1,
                    memory.bytes.update(address as int, (value % 0x100) as u8),
                ),
            )
        },
        op::ASTOREBIT => {
            let (address, bit) = bit_of(base, index);
            Some(
                match byte_read(memory, address) {
                    Ok(byte) => written_run(
                        memory,
                        address,
                        1,
                        memory.bytes.update(address as int, bit_put(byte, bit, value != 0)),
                    ),
                    Err(fault) => (Err(fault), memory),
                },
            )
        },
        _ => None,
    }
}

/// Carry out an array-storing opcode on memory; None, with memory
/// untouched, for any other opcode.
pub fn array_store(memory: &mut Memory, opcode: u32, base: u32, index: u32, value: u32) -> (stored:
    Option<Result<(), VoxamError>>)
    requires
        old(memory)@.wf(),
    ensures
        final(memory)@.wf(),
        match array_stored(old(memory)@, opcode, base, index, value) {
            Some((verdict, after)) => stored == Some(verdict) && final(memory)@ == after,
            None => stored is None && final(memory)@ == old(memory)@,
        },
{
    match opcode {
        op::ASTORE => Some(memory.write_word(element_at(base, index, 4), value)),
        op::ASTORES => Some(memory.write_short(element_at(base, index, 2), (value % 0x10000) as u16)),
        op::ASTOREB => Some(memory.write_byte(element_at(base, index, 1), (value % 0x100) as u8)),
        op::ASTOREBIT => {
            let (address, bit) = bit_address(base, index);
            match memory.read_byte(address) {
                Ok(byte) => {
                    let changed = if value != 0 {
                        byte | (1u8 << (bit as u8))
                    } else {
                        byte & !(1u8 << (bit as u8))
                    };
                    Some(memory.write_byte(address, changed))
                },
                Err(fault) => Some(Err(fault)),
            }
        },
        _ => None,
    }
}

/// What the random opcode asks of the generator.
#[derive(Debug, Clone, Copy, PartialEq, Eq, Structural)]
pub enum Draw {
    /// A full 32-bit value.
    Word,
    /// A value from 0 up to, not including, a bound.
    Below(u32),
}

/// The draw a random opcode's range asks for: a full word for a zero
/// range, and otherwise a value below the range's magnitude (Glulx:
/// The Random Number Generator).
pub open spec fn draw_for(range: u32) -> Draw {
    if range == 0 {
        Draw::Word
    } else if range < 0x8000_0000 {
        Draw::Below(range)
    } else {
        Draw::Below((0x1_0000_0000 - range) as u32)
    }
}

/// The draw a random opcode's range asks for.
pub fn draw(range: u32) -> (asked: Draw)
    ensures
        asked == draw_for(range),
{
    if range == 0 {
        Draw::Word
    } else if range < 0x8000_0000 {
        Draw::Below(range)
    } else {
        Draw::Below(((0x1_0000_0000u64 - range as u64) as u32))
    }
}

/// The word a random opcode stores for what the generator drew: the
/// draw itself for a zero or positive range, and its negation for a
/// negative one, so that the value runs from the range plus one up to
/// zero.
pub open spec fn random_stored(range: u32, drawn: u32) -> u32 {
    if range < 0x8000_0000 {
        drawn
    } else {
        wrapped(-drawn)
    }
}

/// The word a random opcode stores for what the generator drew.
pub fn random_value(range: u32, drawn: u32) -> (value: u32)
    ensures
        value == random_stored(range, drawn),
{
    if range < 0x8000_0000 {
        drawn
    } else {
        let negated = ((0x1_0000_0000u64 - drawn as u64) % 0x1_0000_0000) as u32;
        proof {
            assert((0x1_0000_0000 - drawn) % 0x1_0000_0000 == (-drawn) % 0x1_0000_0000int)
                by (nonlinear_arith);
        }
        negated
    }
}

/// Resize the memory map for the setmemsize opcode: refused while the
/// allocation heap is active, since the heap owns the map's end (Glulx:
/// Memory Allocation Heap); otherwise the map's own resize, on a
/// 256-byte boundary and never below the boot size (Glulx: Game State).
pub fn set_memory_size(memory: &mut Memory, heap: &Heap, size: u32) -> (result: Result<
    (),
    VoxamError,
>)
    requires
        old(memory)@.wf(),
    ensures
        final(memory)@.wf(),
        heap.is_active() ==> result == Err::<(), VoxamError>(VoxamError::ResizeUnderHeap)
            && final(memory)@ == old(memory)@,
        !heap.is_active() ==> (result, final(memory)@) == old(memory)@.sized(size),
{
    if heap.active() {
        return Err(VoxamError::ResizeUnderHeap);
    }
    memory.set_size(size)
}

// The stack family works on the values above the current call frame,
// the top last (Glulx: The Stack).

/// The value a stack peek reads: the index, read signed, counts down
/// from the top of the values above the frame, 0 naming the top.
pub open spec fn peek_of(values: Seq<u32>, index: u32) -> Result<u32, VoxamError> {
    let at = as_signed(index);
    if at < 0 || at >= values.len() {
        Err(VoxamError::PeekOutside { index: at as i32 })
    } else {
        Ok(values[values.len() - 1 - at])
    }
}

/// The value a stack peek reads from the values above the frame.
pub fn peeked(values: &Vec<u32>, index: u32) -> (value: Result<u32, VoxamError>)
    ensures
        value == peek_of(values@, index),
{
    let at = signed(index);
    if at < 0 || at as usize >= values.len() {
        return Err(VoxamError::PeekOutside { index: at });
    }
    Ok(values[values.len() - 1 - at as usize])
}

/// The values above the frame after a swap of the top two, or the
/// refusal where fewer than two stand there.
pub open spec fn swap_of(values: Seq<u32>) -> Result<Seq<u32>, VoxamError> {
    if values.len() < 2 {
        Err(VoxamError::SwapTooFew)
    } else {
        let n = values.len() as int;
        Ok(values.update(n - 1, values[n - 2]).update(n - 2, values[n - 1]))
    }
}

/// Swap the top two values above the frame.
pub fn swapped(values: &mut Vec<u32>) -> (result: Result<(), VoxamError>)
    ensures
        match swap_of(old(values)@) {
            Ok(after) => result is Ok && final(values)@ == after,
            Err(fault) => result == Err::<(), VoxamError>(fault) && final(values)@ == old(values)@,
        },
{
    let n = values.len();
    if n < 2 {
        return Err(VoxamError::SwapTooFew);
    }
    let top = values[n - 1];
    let below = values[n - 2];
    values.set(n - 1, below);
    values.set(n - 2, top);
    Ok(())
}

/// The values a stack copy pushes: the top `count` values above the
/// frame in their own order, so that the block stands twice; nothing
/// for a count of zero; the refusal of a negative count, read signed,
/// and of one beyond the values there.
pub open spec fn copy_of(values: Seq<u32>, count: u32) -> Result<Seq<u32>, VoxamError> {
    let n = as_signed(count);
    if n < 0 {
        Err(VoxamError::CopyNegative)
    } else if n == 0 {
        Ok(Seq::empty())
    } else if values.len() < n {
        Err(VoxamError::CopyExceeds { count })
    } else {
        Ok(values.subrange(values.len() - n, values.len() as int))
    }
}

/// The values a stack copy pushes, or its refusal.
pub fn copied(values: &Vec<u32>, count: u32) -> (pushed: Result<Vec<u32>, VoxamError>)
    ensures
        match copy_of(values@, count) {
            Ok(block) => pushed matches Ok(held) && held@ == block,
            Err(fault) => pushed matches Err(held) && held == fault,
        },
{
    let n = signed(count);
    if n < 0 {
        return Err(VoxamError::CopyNegative);
    }
    if n == 0 {
        return Ok(Vec::new());
    }
    if values.len() < n as usize {
        return Err(VoxamError::CopyExceeds { count });
    }
    let start = values.len() - n as usize;
    let mut block: Vec<u32> = Vec::new();
    let mut at = start;
    while at < values.len()
        invariant
            start <= at <= values@.len(),
            block@ == values@.subrange(start as int, at as int),
        decreases values@.len() - at,
    {
        block.push(values[at]);
        at += 1;
    }
    Ok(block)
}

/// How far a roll of `count` values by `places` turns them down: the
/// top `places` values come to the bottom of the block, so a value
/// rises `places` places, wrapping around the block.
pub open spec fn roll_shift(count: int, places: int) -> int {
    (-places) % count
}

/// The values above the frame after a roll of the top `count` by
/// `places`, either direction; unchanged for a count of zero; the
/// refusal of a negative count, read signed, and of one beyond the
/// values there.
pub open spec fn roll_of(values: Seq<u32>, count: u32, places: u32) -> Result<
    Seq<u32>,
    VoxamError,
> {
    let n = as_signed(count);
    if n < 0 {
        Err(VoxamError::RollNegative)
    } else if values.len() < n {
        Err(VoxamError::RollExceeds { count })
    } else if n == 0 {
        Ok(values)
    } else {
        let base = values.len() - n;
        let shift = roll_shift(n, as_signed(places));
        Ok(
            Seq::new(
                values.len(),
                |i: int|
                    if i < base {
                        values[i]
                    } else {
                        values[base + (i - base + shift) % n]
                    },
            ),
        )
    }
}

/// Roll the top values above the frame. A roll by the most negative
/// number of places, whose negation does not fit in 32 bits, is left
/// out where the roll would turn anything.
pub fn rolled(values: &mut Vec<u32>, count: u32, places: u32) -> (result: Result<(), VoxamError>)
    requires
        !(places == 0x8000_0000 && 0 < as_signed(count) <= old(values)@.len()),
    ensures
        match roll_of(old(values)@, count, places) {
            Ok(after) => result is Ok && final(values)@ == after,
            Err(fault) => result == Err::<(), VoxamError>(fault) && final(values)@ == old(values)@,
        },
{
    let n = signed(count);
    if n < 0 {
        return Err(VoxamError::RollNegative);
    }
    if values.len() < n as usize {
        return Err(VoxamError::RollExceeds { count });
    }
    if n == 0 {
        return Ok(());
    }
    let p = signed(places);
    let size = n as u64;
    let magnitude: u64 = if p < 0 {
        (-(p as i64)) as u64
    } else {
        p as u64
    };
    let shift: u64 = if p > 0 {
        (size - magnitude % size) % size
    } else {
        magnitude % size
    };
    proof {
        let pi = as_signed(places);
        let ni = n as int;
        let m = magnitude as int;
        let sh = shift as int;
        assert(sh == if pi > 0 {
            (ni - m % ni) % ni
        } else {
            m % ni
        });
        assert(sh == roll_shift(ni, pi)) by (nonlinear_arith)
            requires
                ni > 0,
                pi > 0 ==> m == pi,
                pi <= 0 ==> m == -pi,
                sh == if pi > 0 {
                    (ni - m % ni) % ni
                } else {
                    m % ni
                },
        {
            if pi > 0 {
                let r = pi % ni;
                let q = pi / ni;
                assert(pi == q * ni + r);
                assert(-pi == (-q - 1) * ni + (ni - r));
                if r == 0 {
                    assert(-pi == -q * ni);
                    assert((-pi) % ni == 0);
                } else {
                    assert((-pi) % ni == ni - r);
                }
            }
        }
    }
    let total = values.len();
    let base = total - n as usize;
    let count_at = n as usize;
    let shift_at = shift as usize;
    let ghost target = roll_of(values@, count, places)->Ok_0;
    let mut turned: Vec<u32> = Vec::new();
    let mut at: usize = 0;
    while at < total
        invariant
            total == values@.len(),
            base + count_at == total,
            count_at > 0,
            shift_at < count_at,
            shift_at == roll_shift(count_at as int, as_signed(places)),
            count_at == as_signed(count),
            base == values@.len() - as_signed(count),
            target == roll_of(values@, count, places)->Ok_0,
            roll_of(values@, count, places) is Ok,
            at <= total,
            turned@.len() == at,
            forall|i: int| 0 <= i < at ==> turned@[i] == target[i],
        decreases total - at,
    {
        let value = if at < base {
            values[at]
        } else {
            values[base + (at - base + shift_at) % count_at]
        };
        turned.push(value);
        at += 1;
    }
    proof {
        assert(turned@ =~= target);
    }
    *values = turned;
    Ok(())
}

/// A swap is its own undoing: swapping the top two values twice gives
/// back the values above the frame.
pub proof fn swaps_undo(values: Seq<u32>)
    requires
        values.len() >= 2,
    ensures
        swap_of(values) is Ok,
        swap_of(swap_of(values)->Ok_0) == Ok::<Seq<u32>, VoxamError>(values),
{
    let once = swap_of(values)->Ok_0;
    assert(swap_of(once)->Ok_0 =~= values);
}

/// A roll is undone by the roll of the same block the other way:
/// rolling by `places` and then by its negation gives back the values
/// above the frame.
pub proof fn rolls_undo(values: Seq<u32>, count: u32, places: u32)
    requires
        roll_of(values, count, places) is Ok,
        places != 0x8000_0000,
    ensures
        roll_of(roll_of(values, count, places)->Ok_0, count, wrapped(-places)) == Ok::<
            Seq<u32>,
            VoxamError,
        >(values),
{
    let back = wrapped(-places);
    assert(as_signed(back) == -as_signed(places)) by {
        if places == 0 {
            assert(back == 0);
        } else if places < 0x8000_0000 {
            assert(back == 0x1_0000_0000 - places);
        } else {
            assert(back == 0x1_0000_0000 - places);
        }
    }
    let n = as_signed(count);
    let once = roll_of(values, count, places)->Ok_0;
    if n > 0 {
        let base = values.len() - n;
        let s1 = roll_shift(n, as_signed(places));
        let s2 = roll_shift(n, as_signed(back));
        assert((s1 + s2) % n == 0) by {
            vstd::arithmetic::div_mod::lemma_add_mod_noop(-as_signed(places), as_signed(places), n);
        }
        let twice = roll_of(once, count, back)->Ok_0;
        assert forall|i: int| 0 <= i < values.len() implies #[trigger] twice[i] == values[i] by {
            if i >= base {
                let j = base + (i - base + s2) % n;
                assert(0 <= (i - base + s2) % n < n);
                assert(twice[i] == once[j]);
                assert(once[j] == values[base + (j - base + s1) % n]);
                vstd::arithmetic::div_mod::lemma_add_mod_noop(i - base + s2, s1, n);
                assert(((i - base + s2) % n + s1 % n) % n == (i - base + s2 + s1) % n);
                vstd::arithmetic::div_mod::lemma_small_mod(s1 as nat, n as nat);
                assert(s1 % n == s1);
                vstd::arithmetic::div_mod::lemma_add_mod_noop(i - base, s1 + s2, n);
                vstd::arithmetic::div_mod::lemma_small_mod((i - base) as nat, n as nat);
                assert((i - base) % n == i - base);
                assert((i - base + s1 + s2) % n == ((i - base) + (s1 + s2) % n) % n);
            }
        }
        assert(twice =~= values);
    }
}

/// The conditional branches read as comparisons: each test and its
/// negation branch on exactly opposite operands; every "or equal" test
/// branches on equal operands and every strict one does not; greater
/// is less with the operands swapped; a branch on zero is a branch on
/// equality with zero; the signed and unsigned orders agree on values
/// below 0x8000_0000, and above it the signed order reads the value as
/// negative, below every value under it.
pub proof fn branches_compare_as_orders(a: u32, b: u32)
    ensures
        branch_condition(op::JNZ, a, b) == Some(!branch_condition(op::JZ, a, b)->Some_0),
        branch_condition(op::JNE, a, b) == Some(!branch_condition(op::JEQ, a, b)->Some_0),
        branch_condition(op::JGE, a, b) == Some(!branch_condition(op::JLT, a, b)->Some_0),
        branch_condition(op::JLE, a, b) == Some(!branch_condition(op::JGT, a, b)->Some_0),
        branch_condition(op::JGEU, a, b) == Some(!branch_condition(op::JLTU, a, b)->Some_0),
        branch_condition(op::JLEU, a, b) == Some(!branch_condition(op::JGTU, a, b)->Some_0),
        branch_condition(op::JEQ, a, a) == Some(true),
        branch_condition(op::JGE, a, a) == Some(true),
        branch_condition(op::JLE, a, a) == Some(true),
        branch_condition(op::JGEU, a, a) == Some(true),
        branch_condition(op::JLEU, a, a) == Some(true),
        branch_condition(op::JLT, a, a) == Some(false),
        branch_condition(op::JGT, a, a) == Some(false),
        branch_condition(op::JLTU, a, a) == Some(false),
        branch_condition(op::JGTU, a, a) == Some(false),
        branch_condition(op::JGT, a, b) == branch_condition(op::JLT, b, a),
        branch_condition(op::JGTU, a, b) == branch_condition(op::JLTU, b, a),
        branch_condition(op::JZ, a, b) == branch_condition(op::JEQ, a, 0),
        branch_condition(op::JEQ, a, b) == branch_condition(op::JEQ, b, a),
        branch_condition(op::JLTU, a, b) == Some(a < b),
        a < 0x8000_0000 && b < 0x8000_0000 ==> branch_condition(op::JLT, a, b)
            == branch_condition(op::JLTU, a, b),
        a >= 0x8000_0000 && b < 0x8000_0000 ==> branch_condition(op::JLT, a, b) == Some(true)
            && branch_condition(op::JLTU, a, b) == Some(false),
        a >= 0x8000_0000 && b >= 0x8000_0000 ==> branch_condition(op::JLT, a, b)
            == branch_condition(op::JLTU, a, b),
{
}

/// An operand list of so many loaded operands followed by so many
/// stores.
pub open spec fn shape(loads: nat, stores: nat) -> Seq<char> {
    Seq::new(loads, |i: int| 'L') + Seq::new(stores, |i: int| 'S')
}

/// Every opcode the Glulx dictionary defines takes the operands its
/// work names, loads before stores: the calls load an address and then
/// one operand per argument they pass and store the result; a float
/// operation loads one word per float and stores one per result, a
/// double operation two; a branch loads what it compares and then its
/// offset; catch alone stores before it loads. Copys and copyb move two
/// bytes and one, every other operand a word. An opcode has a list
/// exactly when the dictionary names it (Glulx: Dictionary of Opcodes).
#[verifier::rlimit(100)]
#[verifier::spinoff_prover]
pub proof fn operand_lists_follow_the_dictionary(opcode: u32)
    ensures
        operand_list(opcode) is Some <==> crate::opcodes::roster_name(opcode) is Some,
        (opcode == op::NOP || opcode == op::STKSWAP || opcode == op::QUIT || opcode == op::RESTART || opcode == op::DISCARDUNDO) ==> operand_list(opcode) == Some((shape(0, 0), 4u32)),
        (opcode == op::JUMP || opcode == op::JUMPABS || opcode == op::RETURN || opcode == op::STREAMCHAR || opcode == op::STREAMUNICHAR || opcode == op::STREAMNUM || opcode == op::STREAMSTR || opcode == op::SETSTRINGTBL || opcode == op::SETRANDOM || opcode == op::MFREE || opcode == op::STKCOPY || opcode == op::DEBUGTRAP) ==> operand_list(opcode) == Some((shape(1, 0), 4u32)),
        (opcode == op::JZ || opcode == op::JNZ || opcode == op::TAILCALL || opcode == op::THROW || opcode == op::SETIOSYS || opcode == op::ACCELFUNC || opcode == op::ACCELPARAM || opcode == op::MZERO || opcode == op::PROTECT || opcode == op::STKROLL || opcode == op::JISNAN || opcode == op::JISINF) ==> operand_list(opcode) == Some((shape(2, 0), 4u32)),
        (opcode == op::JEQ || opcode == op::JNE || opcode == op::JLT || opcode == op::JGE || opcode == op::JGT || opcode == op::JLE || opcode == op::JLTU || opcode == op::JGEU || opcode == op::JGTU || opcode == op::JLEU || opcode == op::ASTORE || opcode == op::ASTORES || opcode == op::ASTOREB || opcode == op::ASTOREBIT || opcode == op::MCOPY || opcode == op::JFLT || opcode == op::JFLE || opcode == op::JFGT || opcode == op::JFGE || opcode == op::JDISNAN || opcode == op::JDISINF) ==> operand_list(opcode) == Some((shape(3, 0), 4u32)),
        (opcode == op::JFEQ || opcode == op::JFNE) ==> operand_list(opcode) == Some((shape(4, 0), 4u32)),
        (opcode == op::JDLT || opcode == op::JDLE || opcode == op::JDGT || opcode == op::JDGE) ==> operand_list(opcode) == Some((shape(5, 0), 4u32)),
        (opcode == op::JDEQ || opcode == op::JDNE) ==> operand_list(opcode) == Some((shape(7, 0), 4u32)),
        (opcode == op::GETSTRINGTBL || opcode == op::STKCOUNT || opcode == op::GETMEMSIZE || opcode == op::VERIFY || opcode == op::SAVEUNDO || opcode == op::RESTOREUNDO || opcode == op::HASUNDO) ==> operand_list(opcode) == Some((shape(0, 1), 4u32)),
        (opcode == op::GETIOSYS) ==> operand_list(opcode) == Some((shape(0, 2), 4u32)),
        (opcode == op::CATCH) ==> operand_list(opcode) == Some((seq!['S', 'L'], 4u32)),
        (opcode == op::CALLF || opcode == op::NEG || opcode == op::BITNOT || opcode == op::SEXS || opcode == op::SEXB || opcode == op::COPY || opcode == op::STKPEEK || opcode == op::MALLOC || opcode == op::SAVE || opcode == op::RESTORE || opcode == op::RANDOM || opcode == op::SETMEMSIZE || opcode == op::NUMTOF || opcode == op::FTONUMZ || opcode == op::FTONUMN || opcode == op::CEIL || opcode == op::FLOOR || opcode == op::SQRT || opcode == op::EXP || opcode == op::LOG || opcode == op::SIN || opcode == op::COS || opcode == op::TAN || opcode == op::ASIN || opcode == op::ACOS || opcode == op::ATAN) ==> operand_list(opcode) == Some((shape(1, 1), 4u32)),
        (opcode == op::COPYS) ==> operand_list(opcode) == Some((shape(1, 1), 2u32)),
        (opcode == op::COPYB) ==> operand_list(opcode) == Some((shape(1, 1), 1u32)),
        (opcode == op::NUMTOD || opcode == op::FTOD) ==> operand_list(opcode) == Some((shape(1, 2), 4u32)),
        (opcode == op::ADD || opcode == op::SUB || opcode == op::MUL || opcode == op::DIV || opcode == op::MOD || opcode == op::BITAND || opcode == op::BITOR || opcode == op::BITXOR || opcode == op::SHIFTL || opcode == op::SSHIFTR || opcode == op::USHIFTR || opcode == op::CALL || opcode == op::CALLFI || opcode == op::ALOAD || opcode == op::ALOADS || opcode == op::ALOADB || opcode == op::ALOADBIT || opcode == op::GLK || opcode == op::GESTALT || opcode == op::FADD || opcode == op::FSUB || opcode == op::FMUL || opcode == op::FDIV || opcode == op::POW || opcode == op::ATAN2 || opcode == op::DTONUMZ || opcode == op::DTONUMN || opcode == op::DTOF) ==> operand_list(opcode) == Some((shape(2, 1), 4u32)),
        (opcode == op::FMOD || opcode == op::DCEIL || opcode == op::DFLOOR || opcode == op::DSQRT || opcode == op::DEXP || opcode == op::DLOG || opcode == op::DSIN || opcode == op::DCOS || opcode == op::DTAN || opcode == op::DASIN || opcode == op::DACOS || opcode == op::DATAN) ==> operand_list(opcode) == Some((shape(2, 2), 4u32)),
        (opcode == op::CALLFII) ==> operand_list(opcode) == Some((shape(3, 1), 4u32)),
        (opcode == op::CALLFIII) ==> operand_list(opcode) == Some((shape(4, 1), 4u32)),
        (opcode == op::DADD || opcode == op::DSUB || opcode == op::DMUL || opcode == op::DDIV || opcode == op::DMODR || opcode == op::DMODQ || opcode == op::DPOW || opcode == op::DATAN2) ==> operand_list(opcode) == Some((shape(4, 2), 4u32)),
        (opcode == op::LINKEDSEARCH) ==> operand_list(opcode) == Some((shape(6, 1), 4u32)),
        (opcode == op::LINEARSEARCH || opcode == op::BINARYSEARCH) ==> operand_list(opcode) == Some((shape(7, 1), 4u32)),
{
    reveal_strlit("");
    reveal_strlit("L");
    reveal_strlit("LL");
    reveal_strlit("LLL");
    reveal_strlit("LLLL");
    reveal_strlit("LLLLL");
    reveal_strlit("LLLLLLL");
    reveal_strlit("LLLLLLLS");
    reveal_strlit("LLLLLLS");
    reveal_strlit("LLLLS");
    reveal_strlit("LLLLSS");
    reveal_strlit("LLLS");
    reveal_strlit("LLS");
    reveal_strlit("LLSS");
    reveal_strlit("LS");
    reveal_strlit("LSS");
    reveal_strlit("S");
    reveal_strlit("SL");
    reveal_strlit("SS");
    assert(""@ =~= shape(0, 0));
    assert("L"@ =~= shape(1, 0));
    assert("LL"@ =~= shape(2, 0));
    assert("LLL"@ =~= shape(3, 0));
    assert("LLLL"@ =~= shape(4, 0));
    assert("LLLLL"@ =~= shape(5, 0));
    assert("LLLLLLL"@ =~= shape(7, 0));
    assert("LLLLLLLS"@ =~= shape(7, 1));
    assert("LLLLLLS"@ =~= shape(6, 1));
    assert("LLLLS"@ =~= shape(4, 1));
    assert("LLLLSS"@ =~= shape(4, 2));
    assert("LLLS"@ =~= shape(3, 1));
    assert("LLS"@ =~= shape(2, 1));
    assert("LLSS"@ =~= shape(2, 2));
    assert("LS"@ =~= shape(1, 1));
    assert("LSS"@ =~= shape(1, 2));
    assert("S"@ =~= shape(0, 1));
    assert("SL"@ =~= seq!['S', 'L']);
    assert("SS"@ =~= shape(0, 2));
}

/// Integer math is arithmetic on words modulo 2^32: sums and products
/// commute and have their identities, a difference added back gives the
/// word again, negation is subtraction from zero, and shifting left by
/// one doubles; copy stores its operand.
pub proof fn integer_math_is_modular(a: u32, b: u32)
    ensures
        stored_value(op::ADD, a, b) == stored_value(op::ADD, b, a),
        stored_value(op::ADD, a, 0) == Some(Ok::<u32, VoxamError>(a)),
        stored_value(op::MUL, a, b) == stored_value(op::MUL, b, a),
        stored_value(op::MUL, a, 1) == Some(Ok::<u32, VoxamError>(a)),
        stored_value(op::MUL, a, 0) == Some(Ok::<u32, VoxamError>(0)),
        stored_value(op::SUB, a, a) == Some(Ok::<u32, VoxamError>(0)),
        stored_value(op::SUB, a, 0) == Some(Ok::<u32, VoxamError>(a)),
        stored_value(op::ADD, stored_value(op::SUB, a, b)->Some_0->Ok_0, b) == Some(
            Ok::<u32, VoxamError>(a),
        ),
        stored_value(op::NEG, a, b) == stored_value(op::SUB, 0, a),
        stored_value(op::SHIFTL, a, 1) == stored_value(op::ADD, a, a),
        stored_value(op::COPY, a, b) == Some(Ok::<u32, VoxamError>(a)),
        a + b < 0x1_0000_0000 ==> stored_value(op::ADD, a, b) == Some(Ok::<u32, VoxamError>(
            (a + b) as u32,
        )),
        a * b < 0x1_0000_0000 ==> stored_value(op::MUL, a, b) == Some(Ok::<u32, VoxamError>(
            (a * b) as u32,
        )),
        a >= b ==> stored_value(op::SUB, a, b) == Some(Ok::<u32, VoxamError>((a - b) as u32)),
{
    assert(a << 1u32 == ((a as int + a as int) % 0x1_0000_0000) as u32) by (bit_vector);
    assert((a as int * b as int) % 0x1_0000_0000 == (b as int * a as int) % 0x1_0000_0000)
        by (nonlinear_arith);
    assert((a as int * 1) % 0x1_0000_0000 == a) by (nonlinear_arith);
    assert((a as int * 0) % 0x1_0000_0000 == 0) by (nonlinear_arith);
    let d = wrapped(a - b);
    assert(wrapped(d + b) == a) by (nonlinear_arith)
        requires
            d == ((a - b) % 0x1_0000_0000) as u32,
            a < 0x1_0000_0000,
            b < 0x1_0000_0000,
            wrapped(d + b) == ((d + b) % 0x1_0000_0000) as u32,
    ;
    if a * b < 0x1_0000_0000 {
        assert((a as int * b as int) % 0x1_0000_0000 == a * b) by (nonlinear_arith)
            requires
                0 <= a * b < 0x1_0000_0000,
        ;
    }
}

/// The bitwise opcodes are bitwise logic: a word anded or ored with
/// itself is itself, xored with itself is zero, anded with zero is zero
/// and ored with zero is itself; not twice gives the word back, and a
/// word anded with its own not is zero.
pub proof fn bitwise_opcodes_are_logic(a: u32, b: u32)
    ensures
        stored_value(op::BITAND, a, a) == Some(Ok::<u32, VoxamError>(a)),
        stored_value(op::BITOR, a, a) == Some(Ok::<u32, VoxamError>(a)),
        stored_value(op::BITXOR, a, a) == Some(Ok::<u32, VoxamError>(0)),
        stored_value(op::BITAND, a, 0) == Some(Ok::<u32, VoxamError>(0)),
        stored_value(op::BITOR, a, 0) == Some(Ok::<u32, VoxamError>(a)),
        stored_value(op::BITAND, a, b) == stored_value(op::BITAND, b, a),
        stored_value(op::BITOR, a, b) == stored_value(op::BITOR, b, a),
        stored_value(op::BITXOR, a, b) == stored_value(op::BITXOR, b, a),
        stored_value(op::BITNOT, stored_value(op::BITNOT, a, b)->Some_0->Ok_0, b) == Some(
            Ok::<u32, VoxamError>(a),
        ),
        stored_value(op::BITAND, a, stored_value(op::BITNOT, a, b)->Some_0->Ok_0) == Some(
            Ok::<u32, VoxamError>(0),
        ),
        stored_value(op::BITOR, a, stored_value(op::BITNOT, a, b)->Some_0->Ok_0) == Some(
            Ok::<u32, VoxamError>(0xFFFF_FFFF),
        ),
{
    assert(a & a == a && a | a == a && a ^ a == 0 && a & 0 == 0 && a | 0 == a) by (bit_vector);
    assert(a & b == b & a && a | b == b | a && a ^ b == b ^ a) by (bit_vector);
    assert(!!a == a && a & !a == 0 && a | !a == 0xFFFF_FFFF) by (bit_vector);
}

/// Shifts move bits: by nothing they leave the word alone; from 32
/// places on the logical shifts leave zero; a right shift by one
/// halves, rounding down; and the arithmetic right shift agrees with
/// the logical one on a word whose sign bit is clear, and fills with
/// ones where it is set.
pub proof fn shifts_move_bits(a: u32, b: u32)
    ensures
        stored_value(op::SHIFTL, a, 0) == Some(Ok::<u32, VoxamError>(a)),
        stored_value(op::USHIFTR, a, 0) == Some(Ok::<u32, VoxamError>(a)),
        stored_value(op::SSHIFTR, a, 0) == Some(Ok::<u32, VoxamError>(a)),
        b >= 32 ==> stored_value(op::SHIFTL, a, b) == Some(Ok::<u32, VoxamError>(0))
            && stored_value(op::USHIFTR, a, b) == Some(Ok::<u32, VoxamError>(0)),
        stored_value(op::USHIFTR, a, 1) == Some(Ok::<u32, VoxamError>(a / 2)),
        a < 0x8000_0000 ==> stored_value(op::SSHIFTR, a, b) == stored_value(op::USHIFTR, a, b),
        a >= 0x8000_0000 && b >= 32 ==> stored_value(op::SSHIFTR, a, b) == Some(
            Ok::<u32, VoxamError>(0xFFFF_FFFF),
        ),
        a >= 0x8000_0000 && b == 31 ==> stored_value(op::SSHIFTR, a, b) == Some(
            Ok::<u32, VoxamError>(0xFFFF_FFFF),
        ),
{
    assert(a << 0u32 == a && a >> 0u32 == a && a >> 1u32 == a / 2) by (bit_vector);
    let x = as_signed(a) as i32;
    assert(x == a as i32) by {
        assert((a as i32) as int == as_signed(a)) by (bit_vector)
            requires
                as_signed(a) == if a >= 0x8000_0000 {
                    a - 0x1_0000_0000
                } else {
                    a as int
                },
        ;
    }
    assert(((a as i32) >> 0u32) as u32 == a) by (bit_vector);
    if b < 32 {
        assert(a < 0x8000_0000 ==> ((a as i32) >> b) as u32 == a >> b) by (bit_vector)
            requires
                b < 32,
        ;
    }
    assert(a >= 0x8000_0000 ==> ((a as i32) >> 31u32) as u32 == 0xFFFF_FFFF) by (bit_vector);
}

/// Signed division and remainder put the dividend back together: where
/// neither is refused, the quotient times the divisor plus the
/// remainder is the dividend, read signed; the remainder is smaller than
/// the divisor and takes the dividend's sign. Both refuse a zero
/// divisor and the most negative value divided by -1, and nothing else.
pub proof fn division_and_remainder_agree(a: u32, b: u32)
    ensures
        stored_value(op::DIV, a, b)->Some_0 is Err <==> (b == 0 || (a == 0x8000_0000 && b
            == 0xFFFF_FFFF)),
        stored_value(op::MOD, a, b)->Some_0 is Err <==> (b == 0 || (a == 0x8000_0000 && b
            == 0xFFFF_FFFF)),
        !(b == 0 || (a == 0x8000_0000 && b == 0xFFFF_FFFF)) ==> ({
            let q = stored_value(op::DIV, a, b)->Some_0->Ok_0;
            let r = stored_value(op::MOD, a, b)->Some_0->Ok_0;
            &&& as_signed(q) * as_signed(b) + as_signed(r) == as_signed(a)
            &&& (as_signed(r) == 0 || ((as_signed(r) < 0) == (as_signed(a) < 0)))
            &&& (if as_signed(r) < 0 {
                -as_signed(r)
            } else {
                as_signed(r)
            }) < (if as_signed(b) < 0 {
                -as_signed(b)
            } else {
                as_signed(b)
            })
        }),
{
    if !(b == 0 || (a == 0x8000_0000 && b == 0xFFFF_FFFF)) {
        let x = as_signed(a);
        let y = as_signed(b);
        division_rebuilds_the_dividend(x, y);
        let tq = truncated_quotient(x, y);
        let tr = truncated_remainder(x, y);
        let ax = if x < 0 {
            -x
        } else {
            x
        };
        let ay = if y < 0 {
            -y
        } else {
            y
        };
        assert(ay >= 1);
        assert(0 <= ax / ay <= ax) by (nonlinear_arith)
            requires
                ax >= 0,
                ay >= 1,
        ;
        assert(-0x8000_0000 <= tq < 0x8000_0000) by {
            if ax / ay == 0x8000_0000 {
                assert(ax == 0x8000_0000);
                assert(ay == 1) by (nonlinear_arith)
                    requires
                        ax == 0x8000_0000,
                        ax / ay == 0x8000_0000,
                        ay >= 1,
                ;
            }
        }
        assert(as_signed(as_unsigned(tq)) == tq);
        assert(as_signed(as_unsigned(tr)) == tr);
        let q = stored_value(op::DIV, a, b)->Some_0->Ok_0;
        let r = stored_value(op::MOD, a, b)->Some_0->Ok_0;
        assert(q == as_unsigned(tq));
        assert(r == as_unsigned(tr));
        assert(as_signed(q) * as_signed(b) == y * tq) by (nonlinear_arith)
            requires
                as_signed(q) == tq,
                as_signed(b) == y,
        ;
    }
}

/// Sign extension reads the low half or byte as a signed number: a
/// low part whose top bit is clear stays as it is, one whose top bit is
/// set has every higher bit filled with ones, and whatever lies above
/// the low part makes no difference. Unary opcodes ignore a second
/// operand.
pub proof fn sign_extension_reads_the_low_part(a: u32, b: u32)
    ensures
        stored_value(op::SEXB, a, b) == stored_value(op::SEXB, a % 0x100, 0),
        stored_value(op::SEXS, a, b) == stored_value(op::SEXS, a % 0x10000, 0),
        a < 0x80 ==> stored_value(op::SEXB, a, b) == Some(Ok::<u32, VoxamError>(a)),
        0x80 <= a < 0x100 ==> stored_value(op::SEXB, a, b) == Some(Ok::<u32, VoxamError>(
            (a + 0xFFFF_FF00) as u32,
        )),
        a < 0x8000 ==> stored_value(op::SEXS, a, b) == Some(Ok::<u32, VoxamError>(a)),
        0x8000 <= a < 0x10000 ==> stored_value(op::SEXS, a, b) == Some(Ok::<u32, VoxamError>(
            (a + 0xFFFF_0000) as u32,
        )),
        stored_value(op::NEG, a, b) == stored_value(op::NEG, a, 0),
        stored_value(op::BITNOT, a, b) == stored_value(op::BITNOT, a, 0),
{
    assert((a % 0x100) % 0x100 == a % 0x100);
    assert((a % 0x10000) % 0x10000 == a % 0x10000);
}

/// A branch offset of 0 or 1 returns that value from the function; any
/// other moves the program counter so that two past the new counter is
/// the offset past the old one, modulo 2^32 (Glulx: Branches).
pub proof fn branches_land_their_offset_away(pc: u32, offset: u32)
    ensures
        offset <= 1 ==> jump_of(pc, offset) == Jump::Return(offset),
        offset >= 2 ==> (jump_of(pc, offset) matches Jump::To(target) && (target + 2)
            % 0x1_0000_0000 == (pc + offset) % 0x1_0000_0000),
        offset >= 2 && pc + offset - 2 < 0x1_0000_0000 ==> jump_of(pc, offset) == Jump::To(
            (pc + offset - 2) as u32,
        ),
{
    if offset >= 2 {
        let t = wrapped(pc + offset - 2);
        assert((t + 2) % 0x1_0000_0000 == (pc + offset) % 0x1_0000_0000) by (nonlinear_arith)
            requires
                t == ((pc + offset - 2) % 0x1_0000_0000) as u32,
                pc < 0x1_0000_0000,
                2 <= offset < 0x1_0000_0000,
        ;
    }
}

/// Array elements read back: where an array store is accepted, the
/// load of the same kind from the same base and index reads the value,
/// cut to the element's width, and a bit reads back as whether the
/// value stored was nonzero.
pub proof fn arrays_read_back(memory: MemoryState, base: u32, index: u32, value: u32)
    requires
        memory.wf(),
    ensures
        array_stored(memory, op::ASTORE, base, index, value)->Some_0.0 is Ok ==> array_loaded(
            array_stored(memory, op::ASTORE, base, index, value)->Some_0.1,
            op::ALOAD,
            base,
            index,
        ) == Some(Ok::<u32, VoxamError>(value)),
        array_stored(memory, op::ASTORES, base, index, value)->Some_0.0 is Ok ==> array_loaded(
            array_stored(memory, op::ASTORES, base, index, value)->Some_0.1,
            op::ALOADS,
            base,
            index,
        ) == Some(Ok::<u32, VoxamError>(value % 0x10000)),
        array_stored(memory, op::ASTOREB, base, index, value)->Some_0.0 is Ok ==> array_loaded(
            array_stored(memory, op::ASTOREB, base, index, value)->Some_0.1,
            op::ALOADB,
            base,
            index,
        ) == Some(Ok::<u32, VoxamError>(value % 0x100)),
        array_stored(memory, op::ASTOREBIT, base, index, value)->Some_0.0 is Ok ==> array_loaded(
            array_stored(memory, op::ASTOREBIT, base, index, value)->Some_0.1,
            op::ALOADBIT,
            base,
            index,
        ) == Some(
            Ok::<u32, VoxamError>(
                if value != 0 {
                    1
                } else {
                    0
                },
            ),
        ),
{
    let word_at = element(base, index, 4);
    if memory.writable(word_at, 4) {
        word_reads_back(memory.bytes, word_at as int, value);
    }
    let short_at = element(base, index, 2);
    if memory.writable(short_at, 2) {
        short_reads_back(memory.bytes, short_at as int, (value % 0x10000) as u16);
    }
    let (address, bit) = bit_of(base, index);
    if memory.writable(address, 1) && address < memory.endmem() {
        let byte = memory.bytes[address as int];
        let bit8 = bit as u8;
        assert(bit < 8);
        assert(((byte | (1u8 << bit8)) >> bit8) & 1u8 == 1u8) by (bit_vector)
            requires
                bit8 < 8,
        ;
        assert(((byte & !(1u8 << bit8)) >> bit8) & 1u8 == 0u8) by (bit_vector)
            requires
                bit8 < 8,
        ;
    }
}

} // verus!
