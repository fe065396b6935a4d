//! The opcode numbers and their names.
//!
//! The whole roster lives here, so that any number the specification
//! defines can say what it is, and any other number reads as its
//! hexadecimal value.

use vstd::prelude::*;

use crate::text::{hex, push_hex};

pub mod op;

verus! {

/// An opcode number's lowercase name, where the roster defines one.
pub open spec fn roster_name(number: u32) -> Option<Seq<char>> {
    match number {
        op::NOP => Some("nop"@),
        op::ADD => Some("add"@),
        op::SUB => Some("sub"@),
        op::MUL => Some("mul"@),
        op::DIV => Some("div"@),
        op::MOD => Some("mod"@),
        op::NEG => Some("neg"@),
        op::BITAND => Some("bitand"@),
        op::BITOR => Some("bitor"@),
        op::BITXOR => Some("bitxor"@),
        op::BITNOT => Some("bitnot"@),
        op::SHIFTL => Some("shiftl"@),
        op::SSHIFTR => Some("sshiftr"@),
        op::USHIFTR => Some("ushiftr"@),
        op::JUMP => Some("jump"@),
        op::JZ => Some("jz"@),
        op::JNZ => Some("jnz"@),
        op::JEQ => Some("jeq"@),
        op::JNE => Some("jne"@),
        op::JLT => Some("jlt"@),
        op::JGE => Some("jge"@),
        op::JGT => Some("jgt"@),
        op::JLE => Some("jle"@),
        op::JLTU => Some("jltu"@),
        op::JGEU => Some("jgeu"@),
        op::JGTU => Some("jgtu"@),
        op::JLEU => Some("jleu"@),
        op::JUMPABS => Some("jumpabs"@),
        op::CALL => Some("call"@),
        op::RETURN => Some("return"@),
        op::CATCH => Some("catch"@),
        op::THROW => Some("throw"@),
        op::TAILCALL => Some("tailcall"@),
        op::CALLF => Some("callf"@),
        op::CALLFI => Some("callfi"@),
        op::CALLFII => Some("callfii"@),
        op::CALLFIII => Some("callfiii"@),
        op::COPY => Some("copy"@),
        op::COPYS => Some("copys"@),
        op::COPYB => Some("copyb"@),
        op::SEXS => Some("sexs"@),
        op::SEXB => Some("sexb"@),
        op::ALOAD => Some("aload"@),
        op::ALOADS => Some("aloads"@),
        op::ALOADB => Some("aloadb"@),
        op::ALOADBIT => Some("aloadbit"@),
        op::ASTORE => Some("astore"@),
        op::ASTORES => Some("astores"@),
        op::ASTOREB => Some("astoreb"@),
        op::ASTOREBIT => Some("astorebit"@),
        op::STKCOUNT => Some("stkcount"@),
        op::STKPEEK => Some("stkpeek"@),
        op::STKSWAP => Some("stkswap"@),
        op::STKROLL => Some("stkroll"@),
        op::STKCOPY => Some("stkcopy"@),
        op::STREAMCHAR => Some("streamchar"@),
        op::STREAMNUM => Some("streamnum"@),
        op::STREAMSTR => Some("streamstr"@),
        op::STREAMUNICHAR => Some("streamunichar"@),
        op::GETSTRINGTBL => Some("getstringtbl"@),
        op::SETSTRINGTBL => Some("setstringtbl"@),
        op::GETIOSYS => Some("getiosys"@),
        op::SETIOSYS => Some("setiosys"@),
        op::GESTALT => Some("gestalt"@),
        op::DEBUGTRAP => Some("debugtrap"@),
        op::GLK => Some("glk"@),
        op::GETMEMSIZE => Some("getmemsize"@),
        op::SETMEMSIZE => Some("setmemsize"@),
        op::RANDOM => Some("random"@),
        op::SETRANDOM => Some("setrandom"@),
        op::QUIT => Some("quit"@),
        op::VERIFY => Some("verify"@),
        op::RESTART => Some("restart"@),
        op::SAVE => Some("save"@),
        op::RESTORE => Some("restore"@),
        op::SAVEUNDO => Some("saveundo"@),
        op::RESTOREUNDO => Some("restoreundo"@),
        op::PROTECT => Some("protect"@),
        op::HASUNDO => Some("hasundo"@),
        op::DISCARDUNDO => Some("discardundo"@),
        op::LINEARSEARCH => Some("linearsearch"@),
        op::BINARYSEARCH => Some("binarysearch"@),
        op::LINKEDSEARCH => Some("linkedsearch"@),
        op::MZERO => Some("mzero"@),
        op::MCOPY => Some("mcopy"@),
        op::MALLOC => Some("malloc"@),
        op::MFREE => Some("mfree"@),
        op::ACCELFUNC => Some("accelfunc"@),
        op::ACCELPARAM => Some("accelparam"@),
        op::NUMTOF => Some("numtof"@),
        op::FTONUMZ => Some("ftonumz"@),
        op::FTONUMN => Some("ftonumn"@),
        op::CEIL => Some("ceil"@),
        op::FLOOR => Some("floor"@),
        op::FADD => Some("fadd"@),
        op::FSUB => Some("fsub"@),
        op::FMUL => Some("fmul"@),
        op::FDIV => Some("fdiv"@),
        op::FMOD => Some("fmod"@),
        op::SQRT => Some("sqrt"@),
        op::EXP => Some("exp"@),
        op::LOG => Some("log"@),
        op::POW => Some("pow"@),
        op::SIN => Some("sin"@),
        op::COS => Some("cos"@),
        op::TAN => Some("tan"@),
        op::ASIN => Some("asin"@),
        op::ACOS => Some("acos"@),
        op::ATAN => Some("atan"@),
        op::ATAN2 => Some("atan2"@),
        op::JFEQ => Some("jfeq"@),
        op::JFNE => Some("jfne"@),
        op::JFLT => Some("jflt"@),
        op::JFLE => Some("jfle"@),
        op::JFGT => Some("jfgt"@),
        op::JFGE => Some("jfge"@),
        op::JISNAN => Some("jisnan"@),
        op::JISINF => Some("jisinf"@),
        op::NUMTOD => Some("numtod"@),
        op::DTONUMZ => Some("dtonumz"@),
        op::DTONUMN => Some("dtonumn"@),
        op::FTOD => Some("ftod"@),
        op::DTOF => Some("dtof"@),
        op::DCEIL => Some("dceil"@),
        op::DFLOOR => Some("dfloor"@),
        op::DADD => Some("dadd"@),
        op::DSUB => Some("dsub"@),
        op::DMUL => Some("dmul"@),
        op::DDIV => Some("ddiv"@),
        op::DMODR => Some("dmodr"@),
        op::DMODQ => Some("dmodq"@),
        op::DSQRT => Some("dsqrt"@),
        op::DEXP => Some("dexp"@),
        op::DLOG => Some("dlog"@),
        op::DPOW => Some("dpow"@),
        op::DSIN => Some("dsin"@),
        op::DCOS => Some("dcos"@),
        op::DTAN => Some("dtan"@),
        op::DASIN => Some("dasin"@),
        op::DACOS => Some("dacos"@),
        op::DATAN => Some("datan"@),
        op::DATAN2 => Some("datan2"@),
        op::JDEQ => Some("jdeq"@),
        op::JDNE => Some("jdne"@),
        op::JDLT => Some("jdlt"@),
        op::JDLE => Some("jdle"@),
        op::JDGT => Some("jdgt"@),
        op::JDGE => Some("jdge"@),
        op::JDISNAN => Some("jdisnan"@),
        op::JDISINF => Some("jdisinf"@),
        _ => None,
    }
}

/// An opcode number's lowercase name, or its hex -- a dollar sign
/// and lowercase digits -- for a number the roster does not define.
pub fn name(number: u32) -> (text: String)
    ensures
        text@ == match roster_name(number) {
            Some(known) => known,
            None => "$"@ + hex(number as nat),
        },
{
    match number {
        op::NOP => String::from_str("nop"),
        op::ADD => String::from_str("add"),
        op::SUB => String::from_str("sub"),
        op::MUL => String::from_str("mul"),
        op::DIV => String::from_str("div"),
        op::MOD => String::from_str("mod"),
        op::NEG => String::from_str("neg"),
        op::BITAND => String::from_str("bitand"),
        op::BITOR => String::from_str("bitor"),
        op::BITXOR => String::from_str("bitxor"),
        op::BITNOT => String::from_str("bitnot"),
        op::SHIFTL => String::from_str("shiftl"),
        op::SSHIFTR => String::from_str("sshiftr"),
        op::USHIFTR => String::from_str("ushiftr"),
        op::JUMP => String::from_str("jump"),
        op::JZ => String::from_str("jz"),
        op::JNZ => String::from_str("jnz"),
        op::JEQ => String::from_str("jeq"),
        op::JNE => String::from_str("jne"),
        op::JLT => String::from_str("jlt"),
        op::JGE => String::from_str("jge"),
        op::JGT => String::from_str("jgt"),
        op::JLE => String::from_str("jle"),
        op::JLTU => String::from_str("jltu"),
        op::JGEU => String::from_str("jgeu"),
        op::JGTU => String::from_str("jgtu"),
        op::JLEU => String::from_str("jleu"),
        op::JUMPABS => String::from_str("jumpabs"),
        op::CALL => String::from_str("call"),
        op::RETURN => String::from_str("return"),
        op::CATCH => String::from_str("catch"),
        op::THROW => String::from_str("throw"),
        op::TAILCALL => String::from_str("tailcall"),
        op::CALLF => String::from_str("callf"),
        op::CALLFI => String::from_str("callfi"),
        op::CALLFII => String::from_str("callfii"),
        op::CALLFIII => String::from_str("callfiii"),
        op::COPY => String::from_str("copy"),
        op::COPYS => String::from_str("copys"),
        op::COPYB => String::from_str("copyb"),
        op::SEXS => String::from_str("sexs"),
        op::SEXB => String::from_str("sexb"),
        op::ALOAD => String::from_str("aload"),
        op::ALOADS => String::from_str("aloads"),
        op::ALOADB => String::from_str("aloadb"),
        op::ALOADBIT => String::from_str("aloadbit"),
        op::ASTORE => String::from_str("astore"),
        op::ASTORES => String::from_str("astores"),
        op::ASTOREB => String::from_str("astoreb"),
        op::ASTOREBIT => String::from_str("astorebit"),
        op::STKCOUNT => String::from_str("stkcount"),
        op::STKPEEK => String::from_str("stkpeek"),
        op::STKSWAP => String::from_str("stkswap"),
        op::STKROLL => String::from_str("stkroll"),
        op::STKCOPY => String::from_str("stkcopy"),
        op::STREAMCHAR => String::from_str("streamchar"),
        op::STREAMNUM => String::from_str("streamnum"),
        op::STREAMSTR => String::from_str("streamstr"),
        op::STREAMUNICHAR => String::from_str("streamunichar"),
        op::GETSTRINGTBL => String::from_str("getstringtbl"),
        op::SETSTRINGTBL => String::from_str("setstringtbl"),
        op::GETIOSYS => String::from_str("getiosys"),
        op::SETIOSYS => String::from_str("setiosys"),
        op::GESTALT => String::from_str("gestalt"),
        op::DEBUGTRAP => String::from_str("debugtrap"),
        op::GLK => String::from_str("glk"),
        op::GETMEMSIZE => String::from_str("getmemsize"),
        op::SETMEMSIZE => String::from_str("setmemsize"),
        op::RANDOM => String::from_str("random"),
        op::SETRANDOM => String::from_str("setrandom"),
        op::QUIT => String::from_str("quit"),
        op::VERIFY => String::from_str("verify"),
        op::RESTART => String::from_str("restart"),
        op::SAVE => String::from_str("save"),
        op::RESTORE => String::from_str("restore"),
        op::SAVEUNDO => String::from_str("saveundo"),
        op::RESTOREUNDO => String::from_str("restoreundo"),
        op::PROTECT => String::from_str("protect"),
        op::HASUNDO => String::from_str("hasundo"),
        op::DISCARDUNDO => String::from_str("discardundo"),
        op::LINEARSEARCH => String::from_str("linearsearch"),
        op::BINARYSEARCH => String::from_str("binarysearch"),
        op::LINKEDSEARCH => String::from_str("linkedsearch"),
        op::MZERO => String::from_str("mzero"),
        op::MCOPY => String::from_str("mcopy"),
        op::MALLOC => String::from_str("malloc"),
        op::MFREE => String::from_str("mfree"),
        op::ACCELFUNC => String::from_str("accelfunc"),
        op::ACCELPARAM => String::from_str("accelparam"),
        op::NUMTOF => String::from_str("numtof"),
        op::FTONUMZ => String::from_str("ftonumz"),
        op::FTONUMN => String::from_str("ftonumn"),
        op::CEIL => String::from_str("ceil"),
        op::FLOOR => String::from_str("floor"),
        op::FADD => String::from_str("fadd"),
        op::FSUB => String::from_str("fsub"),
        op::FMUL => String::from_str("fmul"),
        op::FDIV => String::from_str("fdiv"),
        op::FMOD => String::from_str("fmod"),
        op::SQRT => String::from_str("sqrt"),
        op::EXP => String::from_str("exp"),
        op::LOG => String::from_str("log"),
        op::POW => String::from_str("pow"),
        op::SIN => String::from_str("sin"),
        op::COS => String::from_str("cos"),
        op::TAN => String::from_str("tan"),
        op::ASIN => String::from_str("asin"),
        op::ACOS => String::from_str("acos"),
        op::ATAN => String::from_str("atan"),
        op::ATAN2 => String::from_str("atan2"),
        op::JFEQ => String::from_str("jfeq"),
        op::JFNE => String::from_str("jfne"),
        op::JFLT => String::from_str("jflt"),
        op::JFLE => String::from_str("jfle"),
        op::JFGT => String::from_str("jfgt"),
        op::JFGE => String::from_str("jfge"),
        op::JISNAN => String::from_str("jisnan"),
        op::JISINF => String::from_str("jisinf"),
        op::NUMTOD => String::from_str("numtod"),
        op::DTONUMZ => String::from_str("dtonumz"),
        op::DTONUMN => String::from_str("dtonumn"),
        op::FTOD => String::from_str("ftod"),
        op::DTOF => String::from_str("dtof"),
        op::DCEIL => String::from_str("dceil"),
        op::DFLOOR => String::from_str("dfloor"),
        op::DADD => String::from_str("dadd"),
        op::DSUB => String::from_str("dsub"),
        op::DMUL => String::from_str("dmul"),
        op::DDIV => String::from_str("ddiv"),
        op::DMODR => String::from_str("dmodr"),
        op::DMODQ => String::from_str("dmodq"),
        op::DSQRT => String::from_str("dsqrt"),
        op::DEXP => String::from_str("dexp"),
        op::DLOG => String::from_str("dlog"),
        op::DPOW => String::from_str("dpow"),
        op::DSIN => String::from_str("dsin"),
        op::DCOS => String::from_str("dcos"),
        op::DTAN => String::from_str("dtan"),
        op::DASIN => String::from_str("dasin"),
        op::DACOS => String::from_str("dacos"),
        op::DATAN => String::from_str("datan"),
        op::DATAN2 => String::from_str("datan2"),
        op::JDEQ => String::from_str("jdeq"),
        op::JDNE => String::from_str("jdne"),
        op::JDLT => String::from_str("jdlt"),
        op::JDLE => String::from_str("jdle"),
        op::JDGT => String::from_str("jdgt"),
        op::JDGE => String::from_str("jdge"),
        op::JDISNAN => String::from_str("jdisnan"),
        op::JDISINF => String::from_str("jdisinf"),
        _ => {
            let mut text = String::from_str("$");
            push_hex(&mut text, number as u64);
            proof {
                reveal_strlit("$");
            }
            text
        },
    }
}

} // verus!
