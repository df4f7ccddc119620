use okaywal::{
    Checkpoint, CheckpointEvent, Configuration, EntryId, Files, Timestamp, WriteAheadLog,
    WriterStatus,
};

fn status(is_synchronized: bool, last_entry_id: Option<u64>) -> CheckpointEvent<u32> {
    CheckpointEvent::Inspected(WriterStatus {
        is_synchronized,
        position: 640,
        last_entry_id: last_entry_id.map(EntryId),
        file_name: String::from("wal-3"),
    })
}

#[test]
fn a_file_is_synchronized_checkpointed_emptied_and_renamed() {
    let step = Checkpoint::Receiving.resume(CheckpointEvent::Received { file: 3 });
    assert!(matches!(step, Checkpoint::Resuming { file: 3 }));
    let step = step.resume(CheckpointEvent::LogOpen);
    assert!(matches!(step, Checkpoint::Inspecting { file: 3 }));
    let step = step.resume(status(false, Some(9)));
    assert!(matches!(step, Checkpoint::Synchronizing { file: 3, target: 640 }));
    let step = step.resume(CheckpointEvent::Synchronized);
    assert!(matches!(step, Checkpoint::Inspecting { file: 3 }));
    let step = step.resume(status(true, Some(9)));
    match &step {
        Checkpoint::Checkpointing { file, entry_id, file_name } => {
            assert_eq!(*file, 3);
            assert_eq!(*entry_id, EntryId(9));
            assert_eq!(file_name, "wal-3");
        }
        other => panic!("{other:?}"),
    }
    let step = step.resume(CheckpointEvent::Checkpointed);
    match &step {
        Checkpoint::Reverting { file, position, new_name } => {
            assert_eq!(*file, 3);
            assert_eq!(*position, 0);
            assert_eq!(new_name, "wal-3-cp");
        }
        other => panic!("{other:?}"),
    }
    let step = step.resume(CheckpointEvent::Reverted);
    match &step {
        Checkpoint::Renaming { file, new_name } => {
            assert_eq!(*file, 3);
            assert_eq!(new_name, "wal-3-cp");
        }
        other => panic!("{other:?}"),
    }
    let step = step.resume(CheckpointEvent::Renamed { now: Timestamp(50) });
    assert!(matches!(
        step,
        Checkpoint::SyncingDirectory { file: 3, sync_on_or_after: Timestamp(50) }
    ));
}

#[test]
fn a_file_without_entries_is_not_checkpointed() {
    let step = Checkpoint::Inspecting { file: 3 }.resume(status(true, None));
    match step {
        Checkpoint::Reverting { file, position, new_name } => {
            assert_eq!(file, 3);
            assert_eq!(position, 0);
            assert_eq!(new_name, "wal-3-cp");
        }
        other => panic!("{other:?}"),
    }
}

#[test]
fn the_thread_stops_when_the_log_is_gone() {
    let step = Checkpoint::<u32>::Receiving.resume(CheckpointEvent::Disconnected);
    assert!(matches!(step, Checkpoint::Stopped));
    let step = Checkpoint::Resuming { file: 3 }.resume(CheckpointEvent::LogClosed);
    assert!(matches!(step, Checkpoint::Stopped));
    assert!(matches!(step.resume(CheckpointEvent::Failed), Checkpoint::Stopped));
}

#[test]
fn a_failed_step_ends_the_thread() {
    for step in [
        Checkpoint::Resuming { file: 1 },
        Checkpoint::Inspecting { file: 1 },
        Checkpoint::Synchronizing { file: 1, target: 1 },
        Checkpoint::Checkpointing {
            file: 1,
            entry_id: EntryId(1),
            file_name: String::from("wal-1"),
        },
        Checkpoint::Reverting { file: 1, position: 0, new_name: String::from("wal-1-cp") },
        Checkpoint::Renaming { file: 1, new_name: String::from("wal-1-cp") },
        Checkpoint::SyncingDirectory { file: 1, sync_on_or_after: Timestamp(1) },
    ] {
        let failed = step.resume(CheckpointEvent::Failed);
        assert!(matches!(failed, Checkpoint::Failed));
        assert!(matches!(failed.resume(CheckpointEvent::Received { file: 2 }), Checkpoint::Failed));
    }
}

#[test]
fn events_out_of_order_change_nothing() {
    let step = Checkpoint::Renaming { file: 1, new_name: String::from("wal-1-cp") };
    match step.resume(CheckpointEvent::Checkpointed) {
        Checkpoint::Renaming { file, new_name } => {
            assert_eq!(file, 1);
            assert_eq!(new_name, "wal-1-cp");
        }
        other => panic!("{other:?}"),
    }
}

#[test]
fn no_other_file_is_received_meanwhile() {
    for step in [
        Checkpoint::Resuming { file: 1 },
        Checkpoint::Inspecting { file: 1 },
        Checkpoint::SyncingDirectory { file: 1, sync_on_or_after: Timestamp(1) },
    ] {
        match step.resume(CheckpointEvent::Received { file: 2 }) {
            Checkpoint::Resuming { file }
            | Checkpoint::Inspecting { file }
            | Checkpoint::SyncingDirectory { file, .. } => assert_eq!(file, 1),
            other => panic!("{other:?}"),
        }
    }
}

#[test]
fn the_manager_is_asked_once_for_a_file() {
    let step = Checkpoint::Inspecting { file: 3 }.resume(status(true, Some(9)));
    let step = step.resume(status(true, Some(10)));
    assert!(matches!(step, Checkpoint::Checkpointing { entry_id: EntryId(9), .. }));
    let step = step.resume(CheckpointEvent::Checkpointed);
    let step = step.resume(status(true, Some(10)));
    assert!(matches!(step, Checkpoint::Reverting { .. }));
}

#[test]
fn files_are_dealt_with_one_after_the_other() {
    let mut log = WriteAheadLog::<u32, ()>::new(
        Files::default(),
        Configuration { checkpoint_after_bytes: 1000 },
    );
    let mut requested = Vec::new();
    let mut step = Checkpoint::Receiving;
    for (file, last_entry_id, now) in [(4, Some(2), 10), (6, None, 20), (5, Some(7), 30)] {
        step = step.resume(CheckpointEvent::Received { file });
        step = step.resume(CheckpointEvent::LogOpen);
        step = step.resume(status(false, last_entry_id));
        step = step.resume(CheckpointEvent::Synchronized);
        step = step.resume(status(true, last_entry_id));
        if let Checkpoint::Checkpointing { file, entry_id, .. } = step {
            requested.push((file, entry_id));
        }
        step = step.resume(CheckpointEvent::Checkpointed);
        step = step.resume(CheckpointEvent::Reverted);
        step = step.resume(CheckpointEvent::Renamed { now: Timestamp(now) });
        log.files.directory_synced(Timestamp(now));
        step = log.finish_checkpoint(step);
        assert!(matches!(step, Checkpoint::Receiving));
        assert_eq!(log.files.inactive.back(), Some(&file));
    }
    assert_eq!(requested, [(4, EntryId(2)), (5, EntryId(7))]);
    assert_eq!(log.files.inactive, [4, 6, 5]);
}
