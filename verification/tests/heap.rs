use voxam_core::heap::{Block, Heap};
use voxam_core::memory::Memory;

const BOOT_END: u32 = 0x300;

/// A memory whose map ends at the tests' BOOT_END: a 256-byte ROM
/// image, RAM from 256.
fn booted() -> Memory {
    let mut data = vec![0u8; 256];
    data[..4].copy_from_slice(b"Glul");
    data[4..8].copy_from_slice(&0x0003_0102u32.to_be_bytes());
    data[8..12].copy_from_slice(&256u32.to_be_bytes());
    data[12..16].copy_from_slice(&256u32.to_be_bytes());
    data[16..20].copy_from_slice(&BOOT_END.to_be_bytes());
    data[20..24].copy_from_slice(&256u32.to_be_bytes());

    Memory::new(data, 256, BOOT_END)
}

#[test]
fn the_heap_activates_and_retires() {
    let mut memory = booted();
    let mut heap = Heap::new();

    assert!(!heap.active());

    let first = heap.allocate(&mut memory, 0x40).unwrap();

    assert_eq!(first, BOOT_END);
    assert_eq!(heap.start, BOOT_END);
    assert_eq!(memory.endmem(), BOOT_END + 0x100);

    heap.free(&mut memory, first).unwrap();

    assert!(!heap.active());
    assert_eq!(memory.endmem(), BOOT_END);
}

#[test]
fn blocks_split_reuse_and_coalesce() {
    let mut memory = booted();
    let mut heap = Heap::new();

    let first = heap.allocate(&mut memory, 0x40).unwrap();
    let second = heap.allocate(&mut memory, 0x40).unwrap();
    let third = heap.allocate(&mut memory, 0x40).unwrap();

    assert_eq!((second, third), (BOOT_END + 0x40, BOOT_END + 0x80));

    heap.free(&mut memory, first).unwrap();
    heap.free(&mut memory, second).unwrap();

    let merged = heap.allocate(&mut memory, 0x60).unwrap();

    assert_eq!(merged, first);

    assert_eq!(heap.allocate(&mut memory, 0x20).unwrap(), first + 0x60);
    assert_eq!(heap.allocate(&mut memory, 0x40).unwrap(), BOOT_END + 0xC0);

    heap.free(&mut memory, third).unwrap();

    assert_eq!(heap.allocate(&mut memory, 0x50).unwrap(), BOOT_END + 0x100);

    heap.free(&mut memory, BOOT_END + 0x100).unwrap();

    assert_eq!(heap.allocate(&mut memory, 0x200).unwrap(), BOOT_END + 0x100);
}

#[test]
fn the_heap_doubles_as_it_grows() {
    let mut memory = booted();
    let mut heap = Heap::new();

    let first = heap.allocate(&mut memory, 0x100).unwrap();

    assert_eq!(memory.endmem(), BOOT_END + 0x100);

    let second = heap.allocate(&mut memory, 0x100).unwrap();

    assert_eq!(second, BOOT_END + 0x100);
    assert_eq!(memory.endmem(), BOOT_END + 0x200);

    let third = heap.allocate(&mut memory, 0x210).unwrap();

    assert_eq!(third, BOOT_END + 0x200);
    assert_eq!(memory.endmem(), BOOT_END + 0x500);

    heap.free(&mut memory, third).unwrap();

    let fourth = heap.allocate(&mut memory, 0x800).unwrap();

    assert_eq!(fourth, BOOT_END + 0x200);

    heap.free(&mut memory, fourth).unwrap();
    heap.free(&mut memory, first).unwrap();
    heap.free(&mut memory, second).unwrap();

    assert!(!heap.active());
}

#[test]
fn the_heap_refuses_loudly_or_softly() {
    let mut memory = booted();
    let mut heap = Heap::new();

    let error = heap.allocate(&mut memory, 0).unwrap_err();
    assert!(error.to_string().contains("at least one byte"));

    let error = heap.free(&mut memory, 0x9999).unwrap_err();
    assert!(error.to_string().contains("no allocated heap block"));
    assert_eq!(
        error.to_string(),
        "no allocated heap block begins at 0x9999"
    );

    let first = heap.allocate(&mut memory, 0x40).unwrap();

    heap.allocate(&mut memory, 0x40).unwrap();
    heap.free(&mut memory, first).unwrap();

    let error = heap.free(&mut memory, first).unwrap_err();
    assert!(error.to_string().contains("no allocated heap block"));

    assert_eq!(heap.allocate(&mut memory, 0xFFFF_FF00).unwrap(), 0);
}

#[test]
fn summaries_rebuild_the_heap() {
    let mut memory = booted();
    let mut heap = Heap::new();

    assert!(heap.summary().is_empty());

    let first = heap.allocate(&mut memory, 0x40).unwrap();
    let second = heap.allocate(&mut memory, 0x30).unwrap();
    let third = heap.allocate(&mut memory, 0x20).unwrap();

    heap.free(&mut memory, second).unwrap();

    let words = heap.summary();

    assert_eq!(words, [BOOT_END, 2, first, 0x40, third, 0x20]);

    let mut twin_memory = booted();
    let mut twin = Heap::new();

    twin_memory.set_size(memory.endmem()).unwrap();
    twin.apply_summary(&twin_memory, &words).unwrap();

    assert_eq!(
        twin.blocks,
        [
            Block {
                address: first,
                length: 0x40,
                free: false
            },
            Block {
                address: first + 0x40,
                length: 0x30,
                free: true
            },
            Block {
                address: third,
                length: 0x20,
                free: false
            },
            Block {
                address: third + 0x20,
                length: 0x70,
                free: true
            },
        ]
    );
    assert_eq!(twin.summary(), words);

    let mut flush_memory = booted();
    let mut flush = Heap::new();

    flush_memory.set_size(0x400).unwrap();
    flush
        .apply_summary(&flush_memory, &[BOOT_END, 1, BOOT_END, 0x100])
        .unwrap();

    assert_eq!(
        flush.blocks,
        [Block {
            address: BOOT_END,
            length: 0x100,
            free: false
        }]
    );

    let bare_memory = booted();
    let mut bare = Heap::new();

    bare.apply_summary(&bare_memory, &[]).unwrap();
    bare.apply_summary(&bare_memory, &[0, 0]).unwrap();

    assert!(!bare.active());
}

#[test]
fn wrong_summaries_are_refused() {
    let mut memory = booted();
    let mut heap = Heap::new();

    heap.allocate(&mut memory, 0x40).unwrap();

    let error = heap
        .apply_summary(&memory, &[0x300, 1, 0x300, 0x40])
        .unwrap_err();
    assert!(error.to_string().contains("active heap"));

    let fresh_memory = booted();
    let mut fresh = Heap::new();

    let error = fresh
        .apply_summary(&fresh_memory, &[0x300, 2, 0x300])
        .unwrap_err();
    assert!(error.to_string().contains("cut short"));

    let error = fresh
        .apply_summary(&fresh_memory, &[0x300, 2, 0x340, 0x10, 0x300, 0x10])
        .unwrap_err();
    assert!(error.to_string().contains("out of address order"));
}
