//! Tables of file references and sound channels: filing, the walk,
//! rocks, and dropping.

use voxam_core::error::VoxamError;
use voxam_core::glk::objects::{file_usage, FileRef, SoundChannel};
use voxam_core::glk::table::{fileref_from_fileref, schannel_create, Table};

#[test]
fn file_references_walk_newest_first_and_drop() {
    let mut filerefs: Table<FileRef> = Table::new();

    filerefs.insert(3, FileRef::new("save1.glksave".to_string(), file_usage::SAVED_GAME, 30, false));
    filerefs.insert(7, FileRef::new("notes.txt".to_string(), file_usage::DATA, 70, true));

    assert_eq!(filerefs.iterate(None), Some((7, 70)));
    assert_eq!(filerefs.iterate(Some(7)), Some((3, 30)));
    assert_eq!(filerefs.iterate(Some(3)), None);
    assert_eq!(filerefs.iterate(Some(99)), None);
    assert_eq!(filerefs.get_rock(Some(3)), 30);
    assert_eq!(filerefs.get_rock(Some(99)), 0);
    assert_eq!(filerefs.get_rock(None), 0);

    let copy = fileref_from_fileref(&mut filerefs, 9, file_usage::TRANSCRIPT, Some(7), 90).unwrap();
    let made = filerefs.get(copy).unwrap();
    assert_eq!(made.filename, "notes.txt");
    assert_eq!((made.rock, made.usage, made.temporary), (90, file_usage::TRANSCRIPT, false));
    assert_eq!(filerefs.iterate(None), Some((9, 90)));

    assert_eq!(
        fileref_from_fileref(&mut filerefs, 10, file_usage::DATA, Some(42), 0),
        Err(VoxamError::NoSourceFileRef)
    );
    assert!(VoxamError::NoSourceFileRef.to_string().contains("invalid fileref"));

    let dropped = filerefs.remove(Some(7)).unwrap();
    assert!(dropped.temporary);
    assert!(!filerefs.contains(7));
    assert_eq!(filerefs.iterate(Some(9)), Some((3, 30)));
    assert!(filerefs.remove(Some(7)).is_none());
    assert!(filerefs.remove(None).is_none());
    assert_eq!(filerefs.take_dropped(), vec![7]);
    assert!(filerefs.take_dropped().is_empty());
}

#[test]
fn sound_channels_are_made_only_where_sound_plays() {
    let mut channels: Table<SoundChannel> = Table::new();

    assert_eq!(schannel_create(&mut channels, 1, false, 5, 0x10000), None);
    assert!(!channels.contains(1));
    assert_eq!(schannel_create(&mut channels, 1, true, 5, 0x8000), Some(1));

    let channel = channels.get(1).unwrap();
    assert_eq!((channel.rock, channel.volume, channel.sound, channel.paused), (5, 0x8000, 0, false));
    assert_eq!(channels.iterate(None), Some((1, 5)));
    assert!(channels.remove(Some(1)).is_some());
    assert_eq!(channels.iterate(None), None);
}
