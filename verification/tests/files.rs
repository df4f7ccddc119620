use okaywal::{Activation, DirectorySync, EntryId, Files, Timestamp};

fn activation_name<F>(activation: &Activation<F>) -> &str {
    match activation {
        Activation::Reuse { name, .. } | Activation::Create { name, .. } => name,
    }
}

#[test]
fn a_new_set_of_files_is_empty() {
    let mut files: Files<u32> = Files::default();
    assert_eq!(files.active, None);
    assert!(files.inactive.is_empty());
    assert_eq!(files.last_entry_id, EntryId(0));
    assert_eq!(files.directory_synced_at, None);
    assert!(!files.directory_is_syncing);
    assert_eq!(files.begin_entry(), None);
    assert_eq!(files.last_entry_id, EntryId(0));
}

#[test]
fn one_writer_at_a_time() {
    let mut files: Files<u32> = Files::default();
    files.set_active(5);
    assert_eq!(files.begin_entry(), Some((EntryId(1), 5)));
    assert_eq!(files.begin_entry(), None);
    files.recycle(6);
    assert_eq!(files.begin_entry(), None);
    files.set_active(5);
    assert_eq!(files.begin_entry(), Some((EntryId(2), 5)));
}

#[test]
fn ids_are_not_reused() {
    let mut files: Files<u32> = Files::default();
    let mut last = 0;
    for file in [5, 5, 6, 7, 5] {
        files.set_active(file);
        let (id, begun) = files.begin_entry().unwrap();
        assert_eq!(begun, file);
        assert!(id.0 > last);
        last = id.0;
    }
    assert_eq!(files.last_entry_id, EntryId(5));
}

#[test]
fn without_inactive_files_one_is_created() {
    let mut files: Files<u32> = Files::default();
    files.last_entry_id = EntryId(41);
    match files.activate_new_file() {
        Activation::Create { entry_id, name } => {
            assert_eq!(entry_id, 42);
            assert_eq!(name, "wal-42");
        }
        Activation::Reuse { .. } => panic!("there is no file to reuse"),
    }
    assert_eq!(files.active, None);
    assert_eq!(files.last_entry_id, EntryId(41));
}

#[test]
fn the_longest_unused_file_is_reused() {
    let mut files: Files<u32> = Files::default();
    files.recycle(5);
    files.recycle(6);
    files.last_entry_id = EntryId(9);
    match files.activate_new_file() {
        Activation::Reuse { file, name } => {
            assert_eq!(file, 5);
            assert_eq!(name, "wal-10");
        }
        Activation::Create { .. } => panic!("there are files to reuse"),
    }
    assert_eq!(files.active, None);
    assert_eq!(files.inactive, [6]);
    files.set_active(5);
    assert_eq!(files.active, Some(5));
}

#[test]
fn new_segments_have_new_names() {
    let mut files: Files<u32> = Files::default();
    let first = files.activate_new_file();
    files.set_active(5);
    files.begin_entry();
    let second = files.activate_new_file();
    assert_eq!(activation_name(&first), "wal-1");
    assert_eq!(activation_name(&second), "wal-2");
}

#[test]
fn one_directory_sync_at_a_time() {
    let mut files: Files<u32> = Files::default();
    assert_eq!(files.sync_directory(Timestamp(10)), DirectorySync::Sync);
    assert!(files.directory_is_syncing);
    assert_eq!(files.sync_directory(Timestamp(10)), DirectorySync::Wait);
    assert_eq!(files.sync_directory(Timestamp(0)), DirectorySync::Wait);
    files.directory_synced(Timestamp(12));
    assert!(!files.directory_is_syncing);
    assert_eq!(files.directory_synced_at, Some(Timestamp(12)));
    assert_eq!(files.sync_directory(Timestamp(10)), DirectorySync::Done);
    assert_eq!(files.sync_directory(Timestamp(12)), DirectorySync::Done);
    assert!(!files.directory_is_syncing);
    assert_eq!(files.sync_directory(Timestamp(13)), DirectorySync::Sync);
    assert_eq!(files.sync_directory(Timestamp(12)), DirectorySync::Done);
    assert_eq!(files.sync_directory(Timestamp(13)), DirectorySync::Wait);
}

#[test]
fn a_recorded_directory_sync_stays_recorded() {
    let mut files: Files<u32> = Files::default();
    files.directory_synced(Timestamp(12));
    files.set_active(5);
    files.begin_entry();
    files.recycle(6);
    files.activate_new_file();
    files.sync_directory(Timestamp(20));
    assert_eq!(files.directory_synced_at, Some(Timestamp(12)));
    files.directory_synced(Timestamp(21));
    assert_eq!(files.directory_synced_at, Some(Timestamp(21)));
}

#[test]
fn the_last_id_can_be_allocated() {
    let mut files: Files<u32> = Files::default();
    files.last_entry_id = EntryId(u64::MAX - 1);
    files.set_active(5);
    assert_eq!(files.begin_entry(), Some((EntryId(u64::MAX), 5)));
    assert_eq!(files.begin_entry(), None);
}
