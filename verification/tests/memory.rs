//! The memory map: reads, writes, the ROM boundary, resizing, and
//! the protected range.

use voxam_core::memory::Memory;

/// A 512-byte map over a 256-byte ROM image: RAM runs 256 to 512,
/// starting zeroed.
fn memory() -> Memory {
    let mut data = vec![0u8; 256];
    data[..4].copy_from_slice(b"Glul");
    data[4..8].copy_from_slice(&0x0003_0102u32.to_be_bytes());
    data[8..12].copy_from_slice(&256u32.to_be_bytes());
    data[12..16].copy_from_slice(&256u32.to_be_bytes());
    data[16..20].copy_from_slice(&512u32.to_be_bytes());
    data[20..24].copy_from_slice(&256u32.to_be_bytes());
    data[100..104].copy_from_slice(&0xDEAD_BEEFu32.to_be_bytes());

    Memory::new(data, 256, 512)
}

#[test]
fn the_image_lays_in_and_ram_starts_zeroed() {
    let memory = memory();

    assert_eq!(memory.read_word(100).unwrap(), 0xDEAD_BEEF);
    assert_eq!(memory.read_word(300).unwrap(), 0);
    assert_eq!(memory.endmem(), 512);
}

#[test]
fn reads_have_no_alignment_rule() {
    let memory = memory();

    assert_eq!(memory.read_word(101).unwrap(), 0xADBE_EF00);
    assert_eq!(memory.read_short(103).unwrap(), 0xEF00);
}

#[test]
fn rom_refuses_writes_and_the_map_bounds_all() {
    let mut memory = memory();

    let error = memory.write_byte(10, 1).unwrap_err();
    assert!(error.to_string().contains("ROM"));

    assert!(memory.write_word(300, 0x12345678).is_ok());
    assert_eq!(memory.read_word(300).unwrap(), 0x12345678);

    assert!(memory.read_byte(512).is_err());
    assert!(memory.read_word(509).is_err());
    assert!(memory.write_word(509, 0).is_err());
}

#[test]
fn copies_survive_overlap() {
    let mut memory = memory();
    memory.write_run(300, &[1, 2, 3, 4]).unwrap();

    memory.copy(302, 300, 4).unwrap();

    assert_eq!(memory.read_run(300, 6).unwrap(), [1, 2, 1, 2, 3, 4]);
}

#[test]
fn resizing_respects_the_boundary_and_the_floor() {
    let mut memory = memory();

    memory.set_size(1024).unwrap();
    assert_eq!(memory.endmem(), 1024);
    assert_eq!(memory.read_word(1000).unwrap(), 0);

    memory.set_size(512).unwrap();
    assert!(memory.read_byte(512).is_err());

    assert!(memory.set_size(300).is_err());
    assert!(memory.set_size(256).is_err());
}

#[test]
fn reset_restores_the_boot_image_and_size() {
    let mut memory = memory();
    memory.write_word(300, 0x1111_2222).unwrap();
    memory.set_size(1024).unwrap();

    memory.reset();

    assert_eq!(memory.endmem(), 512);
    assert_eq!(memory.read_word(300).unwrap(), 0);
    assert_eq!(memory.read_word(100).unwrap(), 0xDEAD_BEEF);
}

#[test]
fn protection_survives_reset_and_restore() {
    let mut memory = memory();
    memory.write_word(300, 0x5555_6666).unwrap();
    memory.set_protection(300, 4);

    memory.reset();
    assert_eq!(memory.read_word(300).unwrap(), 0x5555_6666);

    // A restore lays RAM in around the range.
    let mut restored = vec![0xAAu8; 256];
    restored[48] = 0xBB; // address 304
    memory.overwrite_ram(&restored);

    assert_eq!(memory.read_word(300).unwrap(), 0x5555_6666);
    assert_eq!(memory.read_byte(304).unwrap(), 0xBB);
    assert_eq!(memory.read_byte(299).unwrap(), 0xAA);
}

#[test]
fn the_original_run_extends_with_zeroes() {
    let memory = memory();

    let run = memory.original_run(252, 8);
    assert_eq!(run.len(), 8);
    assert_eq!(&run[4..], &[0, 0, 0, 0]);

    assert_eq!(memory.original_run(1000, 4), [0, 0, 0, 0]);
}

// Own checks of the laws on concrete values.

#[test]
fn a_written_word_reads_back_and_spares_its_neighbours() {
    let mut memory = memory();

    memory.write_word(400, 0x0102_0304).unwrap();

    assert_eq!(memory.read_word(400).unwrap(), 0x0102_0304);
    assert_eq!(memory.read_byte(399).unwrap(), 0);
    assert_eq!(memory.read_byte(404).unwrap(), 0);
    assert_eq!(memory.read(401, 2).unwrap(), 0x0203);
}

#[test]
fn refused_errors_name_their_address() {
    let mut memory = memory();

    assert_eq!(
        memory.write_byte(10, 1).unwrap_err().to_string(),
        "the address $a is in ROM, which ends at $100: it is illegal to write there (Glulx: The Memory Map)"
    );
    assert_eq!(
        memory.read_byte(512).unwrap_err().to_string(),
        "the address $200 is outside the memory map (Glulx: The Memory Map)"
    );
}

#[test]
fn resetting_twice_is_resetting_once() {
    let mut memory = memory();
    memory.write_word(300, 7).unwrap();

    memory.reset();
    let once = memory.data().to_vec();
    memory.reset();

    assert_eq!(memory.data(), &once[..]);
}
