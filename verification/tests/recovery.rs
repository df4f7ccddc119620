use okaywal::discovery::discover_segments;
use okaywal::recovery::Opening;
use okaywal::{
    Activation, Configuration, EntryId, LogRecovery, RecoveredLog, Recovery, RecoveryEvent,
    RecoveryStage, WriteAheadLog,
};

const CONFIG: Configuration = Configuration { checkpoint_after_bytes: 1000 };

fn names(names: &[&str]) -> Vec<String> {
    names.iter().map(|name| name.to_string()).collect()
}

fn current(recovery: &LogRecovery<u32>) -> &str {
    &recovery.current().unwrap().name
}

/// Recovers the current segment with the entries `ids`.
fn recover_segment(recovery: LogRecovery<u32>, ids: &[u64], file: u32) -> LogRecovery<u32> {
    let mut recovery = recovery.resume(RecoveryEvent::Examined(Recovery::Recover));
    for id in ids {
        assert_eq!(recovery.stage(), RecoveryStage::ReadEntry);
        recovery = recovery
            .resume(RecoveryEvent::EntryRead(EntryId(*id)))
            .resume(RecoveryEvent::EntryRecovered)
            .resume(RecoveryEvent::EndOfEntry);
    }
    recovery
        .resume(RecoveryEvent::SegmentRead { valid_until: 64, last_entry_id: None })
        .resume(RecoveryEvent::Opened(file))
}

#[test]
fn segments_are_ordered_by_number() {
    let found = discover_segments(&names(&[
        "wal-10", "lock", "wal-9-cp", "wal-100", "wal-x", "wal-1",
    ]));
    let found: Vec<_> = found
        .iter()
        .map(|file| (file.entry_id, file.name.as_str(), file.has_checkpointed))
        .collect();
    assert_eq!(
        found,
        [
            (1, "wal-1", false),
            (9, "wal-9-cp", true),
            (10, "wal-10", false),
            (100, "wal-100", false)
        ]
    );
}

#[test]
fn segments_of_equal_number_keep_their_order() {
    for listing in [["wal-5", "wal-05", "wal-5-cp"], ["wal-5-cp", "wal-5", "wal-05"]] {
        let mut listed = names(&listing);
        listed.insert(1, String::from("wal-6"));
        listed.push(String::from("wal-4"));
        let found = discover_segments(&listed);
        let found: Vec<_> = found.iter().map(|file| file.name.as_str()).collect();
        assert_eq!(found, ["wal-4", listing[0], listing[1], listing[2], "wal-6"]);
    }
}

#[test]
fn ordering_matches_the_stable_sort_of_the_standard_library() {
    let listed: Vec<String> = (0..60usize)
        .map(|n| format!("wal-{}{}", "0".repeat(n * 17 % 60), n * 37 % 11))
        .collect();
    let mut expected: Vec<(u64, String)> =
        listed.iter().enumerate().map(|(n, name)| (n as u64 * 37 % 11, name.clone())).collect();
    expected.sort_by(|a, b| a.0.cmp(&b.0));
    let found: Vec<(u64, String)> =
        discover_segments(&listed).into_iter().map(|file| (file.entry_id, file.name)).collect();
    assert_eq!(found, expected);
}

#[test]
fn an_empty_directory_gives_a_new_segment() {
    let recovery = WriteAheadLog::<u32, ()>::recover(&names(&[]));
    assert_eq!(recovery.stage(), RecoveryStage::Complete);
    assert!(recovery.current().is_none());
    let recovered: RecoveredLog<u32, ()> = recovery.finish(CONFIG);
    match recovered.activation {
        Some(Activation::Create { entry_id, name }) => {
            assert_eq!(entry_id, 1);
            assert_eq!(name, "wal-1");
        }
        _ => panic!("there is no file to reuse"),
    }
    assert_eq!(recovered.log.files.active, None);
    assert_eq!(recovered.log.files.last_entry_id, EntryId(0));
    assert_eq!(recovered.log.config, CONFIG);
    assert!(recovered.files_to_checkpoint.is_empty());
}

#[test]
fn files_that_are_not_segments_are_left_alone() {
    let recovery: LogRecovery<u32> =
        LogRecovery::begin(&names(&["wal-5-tmp", "wal-+5", "wal-5-cp-old", "lock"]));
    assert_eq!(recovery.stage(), RecoveryStage::Complete);
    let recovered: RecoveredLog<u32, ()> = recovery.finish(CONFIG);
    assert!(matches!(recovered.activation, Some(Activation::Create { entry_id: 1, .. })));
    assert!(recovered.log.files.inactive.is_empty());
    assert!(recovered.files_to_checkpoint.is_empty());
}

#[test]
fn a_segment_with_leading_zeros_is_not_replayed_after_its_checkpoint() {
    let recovery: LogRecovery<u32> = LogRecovery::begin(&names(&["wal-007-cp"]));
    assert_eq!(recovery.stage(), RecoveryStage::OpenCheckpointed);
    assert_eq!(recovery.current().unwrap().entry_id, 7);
}

#[test]
fn checkpointed_segments_are_reused() {
    let recovery: LogRecovery<u32> = LogRecovery::begin(&names(&["wal-7-cp", "wal-3-cp"]));
    assert_eq!(recovery.stage(), RecoveryStage::OpenCheckpointed);
    assert_eq!(current(&recovery), "wal-3-cp");
    assert_eq!(
        recovery.opening(),
        Some(Opening { entry_id: 3, position: 0, last_entry_id: None })
    );
    let recovery = recovery.resume(RecoveryEvent::Opened(30));
    assert_eq!(current(&recovery), "wal-7-cp");
    let recovery = recovery.resume(RecoveryEvent::Opened(70));
    let recovered: RecoveredLog<u32, ()> = recovery.finish(CONFIG);
    match recovered.activation {
        Some(Activation::Reuse { file, name }) => {
            assert_eq!(file, 30);
            assert_eq!(name, "wal-1");
        }
        _ => panic!("there are files to reuse"),
    }
    assert_eq!(recovered.log.files.inactive, [70]);
}

#[test]
fn the_newest_recovered_segment_becomes_active() {
    let recovery: LogRecovery<u32> =
        LogRecovery::begin(&names(&["wal-9", "wal-4-cp", "wal-1", "wal-5", "wal-7"]));
    assert_eq!(current(&recovery), "wal-1");
    let recovery = recover_segment(recovery, &[1, 2], 10);
    let recovery = recovery.resume(RecoveryEvent::Opened(40));
    let recovery = recover_segment(recovery, &[5, 6], 50);
    assert_eq!(current(&recovery), "wal-7");
    let recovery = recovery.resume(RecoveryEvent::Examined(Recovery::Abandon));
    assert_eq!(recovery.stage(), RecoveryStage::OpenAbandoned);
    assert_eq!(
        recovery.opening(),
        Some(Opening { entry_id: 7, position: 0, last_entry_id: None })
    );
    let recovery = recovery.resume(RecoveryEvent::Opened(70));
    let recovery = recover_segment(recovery, &[9, 10, 12], 90);
    let recovered: RecoveredLog<u32, ()> = recovery.finish(CONFIG);
    let mut log = recovered.log;
    assert!(recovered.activation.is_none());
    assert_eq!(log.files.inactive, [40, 70]);
    assert_eq!(recovered.files_to_checkpoint, [50, 10]);
    assert_eq!(log.begin_entry(), Some((EntryId(13), 90)));
}

#[test]
fn a_recovered_segment_is_continued_behind_its_last_entry() {
    let recovery: LogRecovery<u32> = LogRecovery::begin(&names(&["wal-2"]));
    assert_eq!(recovery.opening(), None);
    let recovery = recovery
        .resume(RecoveryEvent::Examined(Recovery::Recover))
        .resume(RecoveryEvent::SegmentRead { valid_until: 99, last_entry_id: Some(EntryId(2)) });
    assert_eq!(
        recovery.opening(),
        Some(Opening { entry_id: 2, position: 99, last_entry_id: Some(EntryId(2)) })
    );
}

#[test]
fn chunks_that_the_manager_left_are_skipped() {
    let recovery: LogRecovery<u32> = LogRecovery::begin(&names(&["wal-2"]));
    let entry_id = EntryId(2);
    let recovery = recovery
        .resume(RecoveryEvent::Examined(Recovery::Recover))
        .resume(RecoveryEvent::EntryRead(entry_id));
    assert_eq!(recovery.stage(), RecoveryStage::RecoverEntry { entry_id });
    let recovery = recovery.resume(RecoveryEvent::EntryRecovered);
    assert_eq!(recovery.stage(), RecoveryStage::ReadChunk { entry_id });
    let recovery = recovery.resume(RecoveryEvent::ChunkFound);
    assert_eq!(recovery.stage(), RecoveryStage::SkipChunk { entry_id });
    let recovery = recovery.resume(RecoveryEvent::ChunkSkipped);
    assert_eq!(recovery.stage(), RecoveryStage::ReadChunk { entry_id });
    let recovery = recovery.resume(RecoveryEvent::AbortedEntry);
    assert_eq!(recovery.stage(), RecoveryStage::ReadEntry);
    let recovered: RecoveredLog<u32, ()> = recovery
        .resume(RecoveryEvent::SegmentRead { valid_until: 0, last_entry_id: None })
        .resume(RecoveryEvent::Opened(20))
        .finish(CONFIG);
    assert_eq!(recovered.log.files.last_entry_id, entry_id);
    assert_eq!(recovered.log.files.active, Some(20));
}

#[test]
fn answers_to_other_questions_are_ignored() {
    let recovery: LogRecovery<u32> = LogRecovery::begin(&names(&["wal-2"]));
    let recovery = recovery.resume(RecoveryEvent::Opened(1)).resume(RecoveryEvent::EndOfEntry);
    assert_eq!(recovery.stage(), RecoveryStage::Examine);
    assert_eq!(current(&recovery), "wal-2");
}
