use okaywal::wal::{shutdown_result, ShutdownError, ThreadExit};
use okaywal::{
    Activation, Checkpoint, Configuration, EntryId, Files, LogPosition, Reclaim, ReclaimEvent,
    Timestamp, WriteAheadLog, WriteResult,
};

fn log() -> WriteAheadLog<u32, &'static str> {
    let mut files = Files::default();
    files.set_active(5);
    WriteAheadLog::new(files, Configuration { checkpoint_after_bytes: 1000 })
}

#[test]
fn a_rolled_back_entry_returns_its_file() {
    let mut log = log();
    assert_eq!(log.begin_entry(), Some((EntryId(1), 5)));
    assert_eq!(log.begin_entry(), None);
    let (reclaim, full) = log.reclaim(5, WriteResult::RolledBack);
    assert_eq!(reclaim, Reclaim::Done);
    assert!(full.is_none());
    assert_eq!(log.files.active, Some(5));
    assert_eq!(log.begin_entry(), Some((EntryId(2), 5)));
}

#[test]
fn a_file_that_is_not_full_stays_active() {
    let mut log = log();
    log.files.directory_synced(Timestamp(3));
    log.begin_entry();
    let (reclaim, full) = log.reclaim(5, WriteResult::Entry { new_length: 999 });
    assert_eq!(
        reclaim,
        Reclaim::Synchronizing { new_length: 999, last_directory_sync: Some(Timestamp(3)) }
    );
    assert!(full.is_none());
    assert_eq!(log.files.active, Some(5));
}

#[test]
fn a_full_file_is_replaced() {
    let mut log = log();
    log.begin_entry();
    let (reclaim, full) = log.reclaim(5, WriteResult::Entry { new_length: 1000 });
    assert_eq!(reclaim, Reclaim::Activating { new_length: 1000 });
    let full = full.unwrap();
    assert_eq!(full.file, 5);
    match full.activation {
        Activation::Create { entry_id, name } => {
            assert_eq!(entry_id, 2);
            assert_eq!(name, "wal-2");
        }
        Activation::Reuse { .. } => panic!("there is no file to reuse"),
    }
    assert_eq!(log.files.active, None);
    assert_eq!(log.begin_entry(), None);
    log.files.directory_synced(Timestamp(8));
    let reclaim = log.replace_full_segment(reclaim, 6);
    assert_eq!(
        reclaim,
        Reclaim::Sending { new_length: 1000, last_directory_sync: Some(Timestamp(8)) }
    );
    assert_eq!(log.begin_entry(), Some((EntryId(2), 6)));
}

#[test]
fn success_follows_synchronization() {
    let reclaim = Reclaim::Sending { new_length: 7, last_directory_sync: None };
    let reclaim = reclaim.resume(ReclaimEvent::Sent);
    assert_eq!(reclaim, Reclaim::Synchronizing { new_length: 7, last_directory_sync: None });
    assert_eq!(
        reclaim.resume(ReclaimEvent::Synchronized { created_at: None }),
        Reclaim::Done
    );
    let reclaim = reclaim.resume(ReclaimEvent::Synchronized { created_at: Some(Timestamp(4)) });
    assert_eq!(reclaim, Reclaim::SyncingDirectory { sync_on_or_after: Timestamp(4) });
    for (directory_synced_at, next) in [
        (None, reclaim),
        (Some(Timestamp(3)), reclaim),
        (Some(Timestamp(4)), Reclaim::Done),
        (Some(Timestamp(5)), Reclaim::Done),
    ] {
        let event = ReclaimEvent::DirectorySynced { directory_synced_at };
        assert_eq!(reclaim.resume(event), next);
    }
}

#[test]
fn the_directory_is_synchronized_for_newer_files_only() {
    let reclaim =
        Reclaim::Synchronizing { new_length: 7, last_directory_sync: Some(Timestamp(4)) };
    for (created_at, next) in [
        (3, Reclaim::Done),
        (4, Reclaim::Done),
        (5, Reclaim::SyncingDirectory { sync_on_or_after: Timestamp(5) }),
    ] {
        let created_at = Some(Timestamp(created_at));
        assert_eq!(reclaim.resume(ReclaimEvent::Synchronized { created_at }), next);
    }
}

#[test]
fn a_failed_step_ends_the_reclaiming() {
    for reclaim in [
        Reclaim::Activating { new_length: 1 },
        Reclaim::Sending { new_length: 1, last_directory_sync: None },
        Reclaim::Synchronizing { new_length: 1, last_directory_sync: None },
        Reclaim::SyncingDirectory { sync_on_or_after: Timestamp(1) },
    ] {
        let failed = reclaim.resume(ReclaimEvent::Failed);
        assert_eq!(failed, Reclaim::Failed);
        assert_eq!(failed.resume(ReclaimEvent::Sent), Reclaim::Failed);
    }
    assert_eq!(Reclaim::Done.resume(ReclaimEvent::Failed), Reclaim::Done);
}

#[test]
fn unexpected_events_change_nothing() {
    let reclaim = Reclaim::Synchronizing { new_length: 1, last_directory_sync: None };
    for event in [
        ReclaimEvent::Activated { directory_synced_at: None },
        ReclaimEvent::Sent,
        ReclaimEvent::DirectorySynced { directory_synced_at: Some(Timestamp(9)) },
    ] {
        assert_eq!(reclaim.resume(event), reclaim);
    }
}

#[test]
fn reclaiming_ends_once_the_directory_is_synchronized() {
    let mut log = log();
    let reclaim = Reclaim::SyncingDirectory { sync_on_or_after: Timestamp(4) };
    log.files.directory_synced(Timestamp(4));
    assert_eq!(log.finish_reclaim(reclaim), Reclaim::Done);
    assert_eq!(log.files.active, Some(5));
}

#[test]
fn a_checkpointed_file_can_be_reused() {
    let mut log = log();
    log.files.recycle(8);
    log.files.directory_synced(Timestamp(1));
    let step = Checkpoint::SyncingDirectory { file: 9, sync_on_or_after: Timestamp(1) };
    assert!(matches!(log.finish_checkpoint(step), Checkpoint::Receiving));
    assert_eq!(log.files.inactive, [8, 9]);
    assert_eq!(log.files.active, Some(5));
}

#[test]
fn chunks_are_read_from_the_segment_in_use() {
    let location = WriteAheadLog::<u32, ()>::read_at(LogPosition { file_id: 17, offset: 4096 });
    assert_eq!(location.name, "wal-17");
    assert_eq!(location.offset, 4096);
}

#[test]
fn shutdown_hands_out_the_thread() {
    let mut log = log();
    assert_eq!(log.checkpoint_thread, None);
    log.set_checkpoint_thread("okaywal-cp");
    assert_eq!(log.checkpoint_thread, Some("okaywal-cp"));
    assert_eq!(log.shutdown(), "okaywal-cp");
    assert_eq!(log.checkpoint_thread, None);
    assert_eq!(log.files.active, Some(5));
}

#[test]
fn shutdown_reports_how_the_thread_ended() {
    assert!(shutdown_result::<u8>(ThreadExit::Returned(Ok(()))).is_ok());
    assert!(matches!(
        shutdown_result(ThreadExit::Returned(Err(3u8))),
        Err(ShutdownError::Checkpointing(3))
    ));
    assert!(matches!(
        shutdown_result::<u8>(ThreadExit::Panicked),
        Err(ShutdownError::BrokenPipe)
    ));
}
