use okaywal::names::{
    checkpointed_file_name, parse_segment_name, segment_file_name, SegmentName,
};

fn in_use(entry_id: u64) -> Option<SegmentName> {
    Some(SegmentName { entry_id, has_checkpointed: false })
}

fn checkpointed(entry_id: u64) -> Option<SegmentName> {
    Some(SegmentName { entry_id, has_checkpointed: true })
}

#[test]
fn segment_names_are_spelled_in_decimal() {
    assert_eq!(segment_file_name(0), "wal-0");
    assert_eq!(segment_file_name(7), "wal-7");
    assert_eq!(segment_file_name(10), "wal-10");
    assert_eq!(segment_file_name(1234567890), "wal-1234567890");
    assert_eq!(segment_file_name(u64::MAX), "wal-18446744073709551615");
}

#[test]
fn checkpointed_names_end_in_cp() {
    assert_eq!(checkpointed_file_name("wal-7"), "wal-7-cp");
    assert_eq!(checkpointed_file_name(""), "-cp");
}

#[test]
fn segment_names_are_parsed() {
    assert_eq!(parse_segment_name("wal-7"), in_use(7));
    assert_eq!(parse_segment_name("wal-7-cp"), checkpointed(7));
    assert_eq!(parse_segment_name("wal-0"), in_use(0));
    assert_eq!(parse_segment_name("wal-007"), in_use(7));
    assert_eq!(parse_segment_name("wal-18446744073709551615"), in_use(u64::MAX));
}

#[test]
fn other_suffixes_are_ignored() {
    for name in [
        "wal-7-", "wal-7-tmp", "wal-7-CP", "wal-7-cpx", "wal-7-tmp-cp", "wal-7-cp-tmp",
        "wal-7-cp-", "wal-7-cp-cp", "wal-7--cp",
    ] {
        assert_eq!(parse_segment_name(name), None, "{name}");
    }
}

#[test]
fn signs_are_ignored() {
    for name in ["wal-+7", "wal-+7-cp", "wal-+", "wal-++7", "wal--7", "wal-7+"] {
        assert_eq!(parse_segment_name(name), None, "{name}");
    }
}

#[test]
fn other_files_are_ignored() {
    for name in [
        "", "-", "wal", "wal-", "wal--cp", "wal-x", "wal-7x", "wal- 7", "wal-7 ", "wall-7",
        "WAL-7", "7-wal", "log-7", "wal-0x7", "wal-\u{661}", "w\u{e4}l-7", "wal_7",
        "wal-18446744073709551616", "wal-99999999999999999999", "wal-184467440737095516150",
    ] {
        assert_eq!(parse_segment_name(name), None, "{name}");
    }
}

#[test]
fn numbers_are_parsed_as_the_standard_library_does() {
    for text in [
        "0", "1", "9", "10", "1+", "", "a", "18446744073709551615",
        "18446744073709551616", "18446744073709551620", "28446744073709551615",
        "00000000000000000000000000000001", "1_0", "\u{ff11}", "123456789012345678901",
    ] {
        let expected = text.parse::<u64>().ok();
        let parsed = parse_segment_name(&format!("wal-{text}"));
        assert_eq!(parsed.map(|parsed| parsed.entry_id), expected, "{text}");
    }
}

#[test]
fn made_names_read_back() {
    for id in [0, 1, 9, 10, 11, 99, 100, 4294967296, u64::MAX - 1, u64::MAX] {
        let name = segment_file_name(id);
        assert_eq!(name, format!("wal-{id}"));
        assert_eq!(parse_segment_name(&name), in_use(id));
        assert_eq!(parse_segment_name(&checkpointed_file_name(&name)), checkpointed(id));
    }
}

#[test]
fn any_segment_in_use_keeps_its_id_when_checkpointed() {
    for name in ["wal-7", "wal-007", "wal-0", "wal-18446744073709551615"] {
        let before = parse_segment_name(name).unwrap();
        assert!(!before.has_checkpointed);
        let renamed = checkpointed_file_name(name);
        assert_eq!(parse_segment_name(&renamed), checkpointed(before.entry_id));
    }
}
