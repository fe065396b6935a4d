//! The open streams: opening over memory, the walk, rocks, the current
//! stream, writing, and closing.

use voxam_core::error::VoxamError;
use voxam_core::glk::objects::{file_mode, MemArray};
use voxam_core::glk::streams::Streams;
use voxam_core::memory::Memory;

fn ram() -> Memory {
    Memory::new(vec![0u8; 256], 256, 0x300)
}

fn bytes_at(address: u32, count: u32) -> MemArray {
    MemArray { address, count, width: 1 }
}

fn words_at(address: u32, count: u32) -> MemArray {
    MemArray { address, count, width: 4 }
}

#[test]
fn memory_streams_open_and_close() {
    let mut library = Streams::new();
    let mut memory = ram();

    let stream = library.open_memory(1, Some(bytes_at(0x180, 4)), file_mode::WRITE, 5, false).unwrap();
    let wide = library.open_memory(2, Some(words_at(0x190, 2)), file_mode::READ_WRITE, 6, true).unwrap();

    assert_eq!(library.get_rock(Some(stream)), 5);
    assert_eq!(library.get_rock(None), 0);

    assert_eq!(library.iterate(None), Some((wide, 6)));
    assert_eq!(library.iterate(Some(wide)), Some((stream, 5)));
    assert_eq!(library.iterate(Some(stream)), None);

    let error = library.open_memory(3, Some(bytes_at(0x180, 4)), file_mode::WRITE_APPEND, 0, false).unwrap_err();

    assert!(error.to_string().contains("illegal filemode"));

    library.set_current(Some(stream));
    for ch in "hey".chars() {
        library.put_to(&mut memory, library.get_current(), ch as u32).unwrap();
    }

    assert_eq!(library.close(Some(stream)), Ok((0, 3)));
    assert_eq!(library.get_current(), None);
    assert_eq!(library.iterate(None), Some((wide, 6)));
    assert_eq!(library.iterate(Some(wide)), None);
    assert_eq!(memory.read_run(0x180, 3).unwrap(), b"hey".to_vec());

    // Closing again finds it already off the lists.
    let error = library.close(Some(stream)).unwrap_err();

    assert!(error.to_string().contains("invalid stream"));

    let error = library.close(None).unwrap_err();

    assert!(error.to_string().contains("invalid stream"));
    assert_eq!(library.take_closed(), vec![stream]);
    assert!(library.take_closed().is_empty());
}

#[test]
fn writes_to_no_stream_go_nowhere() {
    let mut library = Streams::new();
    let mut memory = ram();

    assert_eq!(library.put_to(&mut memory, None, 65), Ok(None));
    assert_eq!(library.put_to(&mut memory, Some(9), 65), Ok(None));
    assert!(!library.contains(9));
    assert_eq!(library.close(Some(9)), Err(VoxamError::NoStreamToClose));

    let key = library.open_memory(4, None, file_mode::READ, 0, false).unwrap();
    assert!(library.contains(key));
    assert_eq!(library.put_to(&mut memory, Some(key), 65), Ok(None));
    assert_eq!(library.close(Some(key)), Ok((0, 0)));
}
