//! The machine's instruction work: arithmetic, branches, arrays, the
//! stack family, operand lists, and the random opcode's ranges.

use voxam_core::machine::{
    array_load, array_store, bit_address, branches, computed, copied, dest_type, divided, draw,
    io_mode, jumped, peeked, random_value, remainder, resumes_a_string, rolled, set_memory_size,
    signature, signed, swapped, Draw, IOSystem, Jump,
};
use voxam_core::error::VoxamError;
use voxam_core::heap::Heap;
use voxam_core::machine::Destination::{self, Discard, Push};
use voxam_core::machine::Operand::{self, Load, Store};
use voxam_core::machine::{Effect, Machine};
use voxam_core::memory::Memory;
use voxam_core::opcodes::op;

#[test]
fn division_truncates_toward_zero() {
    assert_eq!(computed(0x13, 0xFFFF_FFF9, 2), Some(Ok(0xFFFF_FFFD)));
    assert_eq!(computed(0x14, 0xFFFF_FFF9, 2), Some(Ok(0xFFFF_FFFF)));

    let error = computed(0x13, 7, 0).unwrap().unwrap_err();
    assert!(error.to_string().contains("division by zero"));
    let error = computed(0x14, 7, 0).unwrap().unwrap_err();
    assert!(error.to_string().contains("zero taking a remainder"));
    let error = computed(0x13, 0x8000_0000, 0xFFFF_FFFF).unwrap().unwrap_err();
    assert!(error.to_string().contains("division overflow"));
    let error = computed(0x14, 0x8000_0000, 0xFFFF_FFFF).unwrap().unwrap_err();
    assert!(error.to_string().contains("overflow taking"));

    assert_eq!(divided(0xFFFF_FFF9, 2).unwrap(), 0xFFFF_FFFD);
    assert_eq!(remainder(0xFFFF_FFF9, 2).unwrap(), 0xFFFF_FFFF);
}

#[test]
fn remainders_take_the_dividends_sign() {
    assert_eq!(divided(7, 0xFFFF_FFFE).unwrap(), 0xFFFF_FFFD);
    assert_eq!(remainder(7, 0xFFFF_FFFE).unwrap(), 1);
    assert_eq!(remainder(0xFFFF_FFF9, 0xFFFF_FFFE).unwrap(), 0xFFFF_FFFF);
    assert_eq!(divided(0x8000_0000, 1).unwrap(), 0x8000_0000);
}

#[test]
fn unknown_output_systems_select_the_null_one() {
    let mut system = IOSystem::default();

    system.select(io_mode::FILTER, 0x1234);
    assert_eq!(system, IOSystem { mode: io_mode::FILTER, rock: 0x1234 });

    system.select(20, 7);
    assert_eq!(system, IOSystem { mode: io_mode::NULL, rock: 0 });

    system.select(io_mode::GLK, 3);
    system.reset();
    assert_eq!(system, IOSystem::default());
}

#[test]
fn words_reread_as_signed_numbers() {
    assert_eq!(signed(0xFFFF_FFFF), -1);
    assert_eq!(signed(0x8000_0000), i32::MIN);
    assert_eq!(signed(5), 5);
}

#[test]
fn string_stubs_resume_and_storage_stubs_do_not() {
    assert!(resumes_a_string(dest_type::RESUME_COMPRESSED));
    assert!(resumes_a_string(dest_type::RESUME_UNICODE));
    assert!(!resumes_a_string(dest_type::RESUME_FUNCTION));
    assert!(!resumes_a_string(dest_type::STACK));
}

#[test]
fn bit_indexes_reach_both_ways() {
    assert_eq!(bit_address(0x140, 0), (0x140, 0));
    assert_eq!(bit_address(0x140, 11), (0x141, 3));
    assert_eq!(bit_address(0x140, 0xFFFF_FFFF), (0x13F, 7));
    assert_eq!(bit_address(0, 0xFFFF_FFF0), (0xFFFF_FFFE, 0));
}

#[test]
fn every_defined_opcode_has_its_operand_list() {
    let add = signature(op::ADD).unwrap();
    assert_eq!((add.pattern, add.width), ("LLS", 4));
    let copyb = signature(op::COPYB).unwrap();
    assert_eq!((copyb.pattern, copyb.width), ("LS", 1));
    let copys = signature(op::COPYS).unwrap();
    assert_eq!((copys.pattern, copys.width), ("LS", 2));
    let catch = signature(op::CATCH).unwrap();
    assert_eq!((catch.pattern, catch.width), ("SL", 4));
    let nop = signature(op::NOP).unwrap();
    assert_eq!((nop.pattern, nop.width), ("", 4));
    let search = signature(op::LINEARSEARCH).unwrap();
    assert_eq!(search.pattern, "LLLLLLLS");
    let dadd = signature(op::DADD).unwrap();
    assert_eq!(dadd.pattern, "LLLLSS");
    assert!(signature(0x7FF).is_none());
    assert!(signature(0x16).is_none());
}

#[test]
fn integer_math_wraps_at_thirty_two_bits() {
    assert_eq!(computed(op::ADD, 0xFFFF_FFFF, 2), Some(Ok(1)));
    assert_eq!(computed(op::SUB, 1, 2), Some(Ok(0xFFFF_FFFF)));
    assert_eq!(computed(op::MUL, 0x1_0000, 0x1_0001), Some(Ok(0x1_0000)));
    assert_eq!(computed(op::NEG, 1, 0), Some(Ok(0xFFFF_FFFF)));
    assert_eq!(computed(op::NEG, 0, 0), Some(Ok(0)));
    assert_eq!(computed(op::DIV, 0xFFFF_FFF9, 2), Some(Ok(0xFFFF_FFFD)));
    assert_eq!(computed(op::MOD, 0xFFFF_FFF9, 2), Some(Ok(0xFFFF_FFFF)));
    assert!(computed(op::DIV, 7, 0).unwrap().is_err());
    assert_eq!(computed(op::BITAND, 0b1100, 0b1010), Some(Ok(0b1000)));
    assert_eq!(computed(op::BITOR, 0b1100, 0b1010), Some(Ok(0b1110)));
    assert_eq!(computed(op::BITXOR, 0b1100, 0b1010), Some(Ok(0b0110)));
    assert_eq!(computed(op::BITNOT, 0, 0), Some(Ok(0xFFFF_FFFF)));
    assert_eq!(computed(op::COPY, 42, 7), Some(Ok(42)));
    assert_eq!(computed(op::JUMP, 1, 2), None);
}

#[test]
fn shifts_past_thirty_one_places_leave_nothing_or_the_sign() {
    assert_eq!(computed(op::SHIFTL, 1, 31), Some(Ok(0x8000_0000)));
    assert_eq!(computed(op::SHIFTL, 1, 32), Some(Ok(0)));
    assert_eq!(computed(op::SHIFTL, 3, 0xFFFF_FFFF), Some(Ok(0)));
    assert_eq!(computed(op::USHIFTR, 0x8000_0000, 31), Some(Ok(1)));
    assert_eq!(computed(op::USHIFTR, 0x8000_0000, 32), Some(Ok(0)));
    assert_eq!(computed(op::SSHIFTR, 0x8000_0000, 4), Some(Ok(0xF800_0000)));
    assert_eq!(computed(op::SSHIFTR, 0x8000_0000, 40), Some(Ok(0xFFFF_FFFF)));
    assert_eq!(computed(op::SSHIFTR, 0x4000_0000, 40), Some(Ok(0)));
    assert_eq!(computed(op::SSHIFTR, 0x4000_0000, 4), Some(Ok(0x0400_0000)));
}

#[test]
fn sign_extension_reads_the_low_half_or_byte() {
    assert_eq!(computed(op::SEXS, 0x8000, 0), Some(Ok(0xFFFF_8000)));
    assert_eq!(computed(op::SEXS, 0x1_7FFF, 0), Some(Ok(0x7FFF)));
    assert_eq!(computed(op::SEXB, 0x7F, 0), Some(Ok(0x7F)));
    assert_eq!(computed(op::SEXB, 0x180, 0), Some(Ok(0xFFFF_FF80)));
}

#[test]
fn branches_compare_signed_or_unsigned() {
    assert_eq!(branches(op::JZ, 0, 9), Some(true));
    assert_eq!(branches(op::JNZ, 0, 9), Some(false));
    assert_eq!(branches(op::JEQ, 5, 5), Some(true));
    assert_eq!(branches(op::JNE, 5, 5), Some(false));
    assert_eq!(branches(op::JLT, 0xFFFF_FFFF, 1), Some(true));
    assert_eq!(branches(op::JLTU, 0xFFFF_FFFF, 1), Some(false));
    assert_eq!(branches(op::JGE, 1, 0xFFFF_FFFF), Some(true));
    assert_eq!(branches(op::JGEU, 1, 0xFFFF_FFFF), Some(false));
    assert_eq!(branches(op::JGT, 2, 2), Some(false));
    assert_eq!(branches(op::JLE, 2, 2), Some(true));
    assert_eq!(branches(op::JGTU, 3, 2), Some(true));
    assert_eq!(branches(op::JLEU, 3, 2), Some(false));
    assert_eq!(branches(op::ADD, 0, 0), None);
}

#[test]
fn branch_offsets_return_or_land_two_short() {
    assert_eq!(jumped(0x100, 0), Jump::Return(0));
    assert_eq!(jumped(0x100, 1), Jump::Return(1));
    assert_eq!(jumped(0x100, 10), Jump::To(0x108));
    assert_eq!(jumped(0x100, 0xFFFF_FFF0), Jump::To(0xEE));
    assert_eq!(jumped(1, 0xFFFF_FFFF), Jump::To(0xFFFF_FFFE));
}

#[test]
fn integers_negate_bitwork_and_shift() {
    // Each case is an opcode with its operands as loaded: a one-byte
    // constant of 0x80 loads sign-extended, as 0xFFFF_FF80.
    let cases: &[(u32, u32, u32, u32)] = &[
        (0x11, 0x09, 0x03, 6),
        (0x12, 0x06, 0x07, 42),
        (0x15, 0x05, 0, 0xFFFF_FFFB),
        (0x18, 0x0F, 0x09, 9),
        (0x19, 0x0C, 0x03, 0x0F),
        (0x1A, 0x0F, 0x09, 6),
        (0x1B, 0x00, 0, 0xFFFF_FFFF),
        (0x1C, 0x01, 0x04, 0x10),
        (0x1C, 0x01, 0x20, 0),
        (0x1E, 0xFFFF_FF80, 0x04, 0x0FFF_FFF8),
        (0x1E, 0xFFFF_FF80, 0x21, 0),
        (0x1D, 0xFFFF_FF80, 0x04, 0xFFFF_FFF8),
        (0x1D, 0xFFFF_FF80, 0x21, 0xFFFF_FFFF),
        (0x1D, 0x01, 0x21, 0),
    ];

    for (opcode, a, b, expected) in cases {
        assert_eq!(computed(*opcode, *a, *b), Some(Ok(*expected)), "{opcode:#x}");
    }
}

#[test]
fn conditional_branches_compare_their_way() {
    // Operands as loaded: a one-byte constant of 0xFF is -1.
    let taken: &[(u32, u32, u32)] = &[
        (0x22, 0x00, 0),
        (0x23, 0x05, 0),
        (0x24, 0x07, 0x07),
        (0x25, 0x07, 0x08),
        (0x26, 0xFFFF_FFFF, 0x02),
        (0x27, 0x02, 0xFFFF_FFFF),
        (0x28, 0x02, 0xFFFF_FFFF),
        (0x29, 0xFFFF_FFFF, 0x02),
        (0x2A, 0x02, 0xFFFF_FFFF),
        (0x2B, 0xFFFF_FFFF, 0x02),
        (0x2C, 0xFFFF_FFFF, 0x02),
        (0x2D, 0x02, 0xFFFF_FFFF),
    ];

    for (opcode, a, b) in taken {
        assert_eq!(branches(*opcode, *a, *b), Some(true), "{opcode:#x}");
    }

    let untaken: &[(u32, u32, u32)] = &[
        (0x22, 0x05, 0),
        (0x23, 0x00, 0),
        (0x24, 0x07, 0x08),
        (0x25, 0x07, 0x07),
        (0x26, 0x02, 0xFFFF_FFFF),
        (0x27, 0xFFFF_FFFF, 0x02),
        (0x28, 0xFFFF_FFFF, 0x02),
        (0x29, 0x02, 0xFFFF_FFFF),
        (0x2A, 0xFFFF_FFFF, 0x02),
        (0x2B, 0x02, 0xFFFF_FFFF),
        (0x2C, 0x02, 0xFFFF_FFFF),
        (0x2D, 0xFFFF_FFFF, 0x02),
    ];

    for (opcode, a, b) in untaken {
        assert_eq!(branches(*opcode, *a, *b), Some(false), "{opcode:#x}");
    }
}

/// A 512-byte map whose RAM runs from 256, zeroed.
fn memory() -> Memory {
    let mut data = vec![0u8; 256];
    data[..4].copy_from_slice(b"Glul");
    Memory::new(data, 256, 512)
}

#[test]
fn arrays_index_and_bits_count_both_ways() {
    // Operands as loaded: one-byte constants of 0xFF and 0xFD are -1
    // and -3, a two-byte constant of 0xBEEF is 0xFFFF_BEEF.
    let mut memory = memory();

    assert_eq!(array_store(&mut memory, op::ASTORE, 0x140, 1, 0x1122_3344), Some(Ok(())));
    assert_eq!(memory.read_word(0x144).unwrap(), 0x1122_3344);
    assert_eq!(array_load(&memory, op::ALOAD, 0x140, 1), Some(Ok(0x1122_3344)));

    assert_eq!(array_store(&mut memory, op::ASTORES, 0x140, 4, 0xFFFF_BEEF), Some(Ok(())));
    assert_eq!(array_load(&memory, op::ALOADS, 0x140, 4), Some(Ok(0xBEEF)));

    assert_eq!(array_store(&mut memory, op::ASTOREB, 0x149, 0xFFFF_FFFF, 0x77), Some(Ok(())));
    assert_eq!(array_load(&memory, op::ALOADB, 0x149, 0xFFFF_FFFF), Some(Ok(0x77)));
    assert_eq!(memory.read_byte(0x148).unwrap(), 0x77);

    memory.write_byte(0x150, 0).unwrap();
    assert_eq!(array_store(&mut memory, op::ASTOREBIT, 0x151, 0xFFFF_FFFD, 1), Some(Ok(())));
    assert_eq!(memory.read_byte(0x150).unwrap(), 0b0010_0000);
    assert_eq!(array_load(&memory, op::ALOADBIT, 0x151, 0xFFFF_FFFD), Some(Ok(1)));

    assert_eq!(array_store(&mut memory, op::ASTOREBIT, 0x151, 0xFFFF_FFFD, 0), Some(Ok(())));
    assert_eq!(memory.read_byte(0x150).unwrap(), 0);
}

#[test]
fn array_faults_leave_memory_alone() {
    let mut memory = memory();

    assert!(array_load(&memory, op::ALOAD, 0x1FE, 0).unwrap().is_err());
    assert!(array_store(&mut memory, op::ASTORE, 0x10, 0, 5).unwrap().is_err());
    assert_eq!(memory.read_word(0x10).unwrap(), 0);
    assert!(array_store(&mut memory, op::ASTOREBIT, 0x300, 0, 1).unwrap().is_err());
    assert_eq!(array_load(&memory, op::ADD, 0, 0), None);
    assert_eq!(array_store(&mut memory, op::ADD, 0x140, 0, 1), None);
}

#[test]
fn random_ranges_draw_below_their_magnitude() {
    assert_eq!(draw(0), Draw::Word);
    assert_eq!(draw(6), Draw::Below(6));
    assert_eq!(draw(0xFFFF_FFFA), Draw::Below(6));
    assert_eq!(draw(0x8000_0000), Draw::Below(0x8000_0000));

    assert_eq!(random_value(6, 5), 5);
    assert_eq!(random_value(0, 0xDEAD_BEEF), 0xDEAD_BEEF);
    assert_eq!(random_value(0xFFFF_FFFA, 5), 0xFFFF_FFFB);
    assert_eq!(random_value(0xFFFF_FFFA, 0), 0);
}

#[test]
fn the_map_resizes_only_without_a_heap() {
    let mut memory = memory();
    let mut heap = Heap::new();

    assert_eq!(set_memory_size(&mut memory, &heap, 768), Ok(()));
    assert_eq!(memory.endmem(), 768);
    assert_eq!(
        set_memory_size(&mut memory, &heap, 700),
        Err(VoxamError::UnalignedSize { size: 700 })
    );
    assert_eq!(
        set_memory_size(&mut memory, &heap, 256),
        Err(VoxamError::BelowBoot { size: 256, boot: 512 })
    );
    assert_eq!(set_memory_size(&mut memory, &heap, 512), Ok(()));

    let block = heap.allocate(&mut memory, 16).unwrap();
    assert_eq!(block, 512);
    let end = memory.endmem();
    let refused = set_memory_size(&mut memory, &heap, 4096);

    assert_eq!(refused, Err(VoxamError::ResizeUnderHeap));
    assert!(refused.unwrap_err().to_string().contains("while the allocation heap is active"));
    assert_eq!(memory.endmem(), end);
}

#[test]
fn the_stack_family_counts_swaps_copies_rolls() {
    // The values above a fresh frame: the start function's argument
    // count, then 1, 2 and 3 pushed.
    let mut values: Vec<u32> = vec![0, 1, 2, 3];

    assert_eq!(values.len(), 4);
    assert_eq!(peeked(&values, 1), Ok(2));

    swapped(&mut values).unwrap();
    assert_eq!(peeked(&values, 0), Ok(2));
    assert_eq!(peeked(&values, 1), Ok(3));

    let block = copied(&values, 2).unwrap();
    values.extend(block);
    assert_eq!(values.len(), 6);
    assert_eq!(peeked(&values, 0), Ok(2));
    assert_eq!(peeked(&values, 1), Ok(3));

    rolled(&mut values, 3, 1).unwrap();
    assert_eq!(peeked(&values, 0), Ok(3));
    assert_eq!(peeked(&values, 1), Ok(2));
    assert_eq!(peeked(&values, 2), Ok(2));

    rolled(&mut values, 3, 0xFFFF_FFFF).unwrap();
    assert_eq!(peeked(&values, 0), Ok(2));

    let before = values.clone();
    rolled(&mut values, 0, 1).unwrap();
    rolled(&mut values, 2, 2).unwrap();
    assert!(copied(&values, 0).unwrap().is_empty());
    assert_eq!(values, before);

    let complaints = [
        (peeked(&values, 0x63).unwrap_err(), "stkpeek"),
        (copied(&values, 0xFFFF_FFFF).unwrap_err(), "negative count"),
        (copied(&values, 0x63).unwrap_err(), "exceeds the values"),
        (rolled(&mut values, 0xFFFF_FFFF, 1).unwrap_err(), "negative count"),
        (rolled(&mut values, 0x63, 1).unwrap_err(), "exceeds the values"),
    ];
    for (error, complaint) in complaints {
        assert!(error.to_string().contains(complaint), "{error:?}");
    }
    assert_eq!(values, before);

    let mut empty: Vec<u32> = vec![0];
    let error = swapped(&mut empty).unwrap_err();
    assert!(error.to_string().contains("fewer than two"));
}

#[test]
fn rolls_turn_the_block_either_way() {
    let mut values: Vec<u32> = vec![9, 1, 2, 3, 4];

    rolled(&mut values, 4, 1).unwrap();
    assert_eq!(values, vec![9, 4, 1, 2, 3]);
    rolled(&mut values, 4, 0xFFFF_FFFE).unwrap();
    assert_eq!(values, vec![9, 2, 3, 4, 1]);
    rolled(&mut values, 4, 7).unwrap();
    assert_eq!(values, vec![9, 3, 4, 1, 2]);
    assert_eq!(
        peeked(&values, 0xFFFF_FFFF).unwrap_err().to_string(),
        "stkpeek at -1 reaches outside the current stack range (Glulx: The Stack)"
    );
    assert_eq!(
        copied(&values, 6).unwrap_err().to_string(),
        "stkcopy of 6 exceeds the values above the frame"
    );
}

#[test]
fn a_roll_and_its_negation_cancel_and_swaps_undo_themselves() {
    let original: Vec<u32> = vec![5, 6, 7, 8, 9, 10];

    for (count, places) in [(4u32, 3u32), (6, 0xFFFF_FFFB), (1, 9), (5, 0x7FFF_FFFF)] {
        let mut values = original.clone();
        rolled(&mut values, count, places).unwrap();
        rolled(&mut values, count, places.wrapping_neg()).unwrap();
        assert_eq!(values, original, "{count} {places}");
    }

    let mut values = original.clone();
    swapped(&mut values).unwrap();
    assert_eq!(values, vec![5, 6, 7, 8, 10, 9]);
    swapped(&mut values).unwrap();
    assert_eq!(values, original);
}

fn machine(limit: u32) -> Machine {
    Machine::new(memory(), limit)
}

fn at(address: u32) -> Operand {
    Store(Destination::Memory(address))
}

#[test]
fn instructions_store_where_their_operands_say() {
    let mut m = machine(16);

    assert_eq!(m.execute(op::ADD, &[Load(3), Load(4), at(0x140)]), Ok(Effect::Next));
    assert_eq!(m.memory.read_word(0x140).unwrap(), 7);
    assert_eq!(m.execute(op::NEG, &[Load(1), Store(Push)]), Ok(Effect::Next));
    assert_eq!(m.execute(op::COPY, &[Load(9), Store(Discard)]), Ok(Effect::Next));
    assert_eq!(m.execute(op::STKCOUNT, &[Store(Push)]), Ok(Effect::Next));
    assert_eq!(m.stack, vec![0xFFFF_FFFF, 1]);

    let refused = m.execute(op::DIV, &[Load(7), Load(0), at(0x140)]);
    assert!(refused.unwrap_err().to_string().contains("division by zero"));
    assert_eq!(m.memory.read_word(0x140).unwrap(), 7);

    let rom = m.execute(op::COPY, &[Load(1), at(0x10)]);
    assert!(rom.is_err());
    assert_eq!(m.memory.read_word(0x10).unwrap(), 0);

    assert_eq!(m.execute(op::NOP, &[]), Ok(Effect::Next));
    assert_eq!(m.execute(op::CALL, &[Load(0x200), Load(0), Store(Push)]), Ok(Effect::Elsewhere));
    assert_eq!(m.stack, vec![0xFFFF_FFFF, 1]);
}

#[test]
fn branches_move_the_counter_or_return() {
    let mut m = machine(16);
    m.pc = 0x100;

    assert_eq!(m.execute(op::JEQ, &[Load(5), Load(5), Load(10)]), Ok(Effect::Next));
    assert_eq!(m.pc, 0x108);
    assert_eq!(m.execute(op::JNE, &[Load(5), Load(5), Load(10)]), Ok(Effect::Next));
    assert_eq!(m.pc, 0x108);
    assert_eq!(m.execute(op::JZ, &[Load(0), Load(1)]), Ok(Effect::Return(1)));
    assert_eq!(m.execute(op::JUMP, &[Load(0)]), Ok(Effect::Return(0)));
    assert_eq!(m.execute(op::JUMP, &[Load(0xFFFF_FFFE)]), Ok(Effect::Next));
    assert_eq!(m.pc, 0x104);
    assert_eq!(m.execute(op::JUMPABS, &[Load(0x180)]), Ok(Effect::Next));
    assert_eq!(m.pc, 0x180);
    assert_eq!(m.execute(op::RETURN, &[Load(42)]), Ok(Effect::Return(42)));
}

#[test]
fn arrays_and_the_stack_family_run_on_the_machine() {
    let mut m = machine(5);

    assert_eq!(m.execute(op::ASTORE, &[Load(0x140), Load(1), Load(0x1122_3344)]), Ok(Effect::Next));
    assert_eq!(m.execute(op::ALOAD, &[Load(0x140), Load(1), Store(Push)]), Ok(Effect::Next));
    assert_eq!(m.execute(op::ALOADB, &[Load(0x144), Load(3), Store(Push)]), Ok(Effect::Next));
    assert_eq!(m.stack, vec![0x1122_3344, 0x44]);

    assert_eq!(m.execute(op::STKSWAP, &[]), Ok(Effect::Next));
    assert_eq!(m.stack, vec![0x44, 0x1122_3344]);
    assert_eq!(m.execute(op::STKPEEK, &[Load(1), at(0x150)]), Ok(Effect::Next));
    assert_eq!(m.memory.read_word(0x150).unwrap(), 0x44);
    assert_eq!(m.execute(op::STKCOPY, &[Load(2)]), Ok(Effect::Next));
    assert_eq!(m.stack, vec![0x44, 0x1122_3344, 0x44, 0x1122_3344]);
    assert_eq!(m.execute(op::STKROLL, &[Load(3), Load(1)]), Ok(Effect::Next));
    assert_eq!(m.stack, vec![0x44, 0x1122_3344, 0x1122_3344, 0x44]);

    let full = m.execute(op::STKCOPY, &[Load(2)]);
    assert_eq!(full, Err(VoxamError::StackFull));
    assert_eq!(m.stack.len(), 5);
    assert_eq!(m.execute(op::COPY, &[Load(1), Store(Push)]), Err(VoxamError::StackFull));
    assert!(m.execute(op::STKPEEK, &[Load(9), Store(Push)]).unwrap_err().to_string().contains("stkpeek"));
}

#[test]
fn the_output_system_and_string_table_are_kept() {
    let mut m = machine(16);

    assert_eq!(m.execute(op::SETIOSYS, &[Load(1), Load(0x1234)]), Ok(Effect::Next));
    assert_eq!((m.iosys.mode, m.iosys.rock), (1, 0x1234));
    assert_eq!(m.execute(op::GETIOSYS, &[Store(Push), Store(Push)]), Ok(Effect::Next));
    assert_eq!(m.stack, vec![1, 0x1234]);
    assert_eq!(m.execute(op::SETIOSYS, &[Load(2), Load(9)]), Ok(Effect::Next));
    assert_eq!((m.iosys.mode, m.iosys.rock), (0, 0));
    assert_eq!(m.execute(op::SETIOSYS, &[Load(20), Load(9)]), Ok(Effect::Next));
    assert_eq!((m.iosys.mode, m.iosys.rock), (0, 0));

    assert_eq!(m.execute(op::SETSTRINGTBL, &[Load(0x1A0)]), Ok(Effect::Next));
    assert_eq!(m.execute(op::GETSTRINGTBL, &[at(0x140)]), Ok(Effect::Next));
    assert_eq!(m.memory.read_word(0x140).unwrap(), 0x1A0);
}

#[test]
fn the_map_and_heap_opcodes_run_on_the_machine() {
    let mut m = machine(16);

    assert_eq!(m.execute(op::GETMEMSIZE, &[Store(Push)]), Ok(Effect::Next));
    assert_eq!(m.stack, vec![512]);
    assert_eq!(m.execute(op::SETMEMSIZE, &[Load(0x300), Store(Push)]), Ok(Effect::Next));
    assert_eq!(m.memory.endmem(), 0x300);
    assert_eq!(m.stack, vec![512, 0]);
    assert!(m.execute(op::SETMEMSIZE, &[Load(0x301), Store(Push)]).is_err());

    m.memory.write_word(0x160, 0xFEED_F00D).unwrap();
    assert_eq!(m.execute(op::MCOPY, &[Load(4), Load(0x160), Load(0x164)]), Ok(Effect::Next));
    assert_eq!(m.memory.read_word(0x164).unwrap(), 0xFEED_F00D);
    assert_eq!(m.execute(op::MZERO, &[Load(4), Load(0x160)]), Ok(Effect::Next));
    assert_eq!(m.memory.read_word(0x160).unwrap(), 0);
    assert!(m.execute(op::MZERO, &[Load(4), Load(0x10)]).is_err());
    assert_eq!(m.execute(op::PROTECT, &[Load(0x140), Load(4)]), Ok(Effect::Next));

    assert_eq!(m.execute(op::MALLOC, &[Load(16), at(0x140)]), Ok(Effect::Next));
    assert_eq!(m.memory.read_word(0x140).unwrap(), 0x300);
    assert!(m.heap.active());
    assert_eq!(
        m.execute(op::SETMEMSIZE, &[Load(0x800), Store(Discard)]),
        Err(VoxamError::ResizeUnderHeap)
    );
    assert_eq!(m.execute(op::MALLOC, &[Load(0), Store(Push)]), Err(VoxamError::EmptyAllocation));
    assert_eq!(
        m.execute(op::MFREE, &[Load(0x9999)]),
        Err(VoxamError::NoHeapBlock { address: 0x9999 })
    );
    assert_eq!(m.execute(op::MFREE, &[Load(0x300)]), Ok(Effect::Next));
    assert!(!m.heap.active());
    assert_eq!(m.memory.endmem(), 0x300);

    assert!(m.running());
    assert_eq!(m.execute(op::QUIT, &[]), Ok(Effect::Next));
    assert!(!m.running());

    let trapped = m.execute(op::DEBUGTRAP, &[Load(7)]).unwrap_err();
    assert!(trapped.to_string().contains("debugtrap with value 7"));
}
