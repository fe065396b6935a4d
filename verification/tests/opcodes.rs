//! The opcode roster and its names.

use voxam_core::opcodes::{name, op};

#[test]
fn names_derive_from_the_roster() {
    assert_eq!(name(op::NOP), "nop");
    assert_eq!(name(op::ADD), "add");
    assert_eq!(name(op::JUMPABS), "jumpabs");
    assert_eq!(name(op::GLK), "glk");
    assert_eq!(name(op::STREAMUNICHAR), "streamunichar");
    assert_eq!(name(op::DATAN2), "datan2");
    assert_eq!(name(op::JDISINF), "jdisinf");
}

#[test]
fn unknown_numbers_answer_in_hex() {
    assert_eq!(name(0x02), "$2");
    assert_eq!(name(0x7FFF), "$7fff");
}

#[test]
fn spot_checked_numbers_match_the_dictionary() {
    assert_eq!(op::ADD, 0x10);
    assert_eq!(op::JUMPABS, 0x104);
    assert_eq!(op::CALLFIII, 0x163);
    assert_eq!(op::GESTALT, 0x100);
    assert_eq!(op::MCOPY, 0x171);
    assert_eq!(op::JFEQ, 0x1C0);
    assert_eq!(op::NUMTOD, 0x200);
}
