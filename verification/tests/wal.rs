use kvwal::wal::{WalError, WAL};

#[test]
fn first_append_starts_a_segment_later_appends_do_not() {
    let mut wal = WAL::new();
    assert!(!wal.has_active_segment());
    let first = wal.append_log("Testing a log\n".as_bytes()).unwrap();
    assert!(first.is_some());
    assert!(wal.has_active_segment());
    let second = wal.append_log("Testing a log1\n".as_bytes()).unwrap();
    assert!(second.is_none());
    let third = wal.append_log("Testing a log2\n".as_bytes()).unwrap();
    assert!(third.is_none());
}

#[test]
fn appended_entries_read_back_in_write_order_after_rotation() {
    let mut wal = WAL::new();
    let first_id = wal.append_log("Testing a log\n".as_bytes()).unwrap().unwrap();
    wal.append_log("Testing a log1\n".as_bytes()).unwrap();
    wal.append_log("Testing a log2\n".as_bytes()).unwrap();
    wal.append_log("Testing a log3\n".as_bytes()).unwrap();
    wal.append_log("Testing a log4\n".as_bytes()).unwrap();
    let second_id = wal.new_log_file().unwrap();
    assert_ne!(first_id, second_id);
    let sealed = wal.read_log(&first_id).unwrap();
    let expected = "Testing a log\nTesting a log1\nTesting a log2\nTesting a log3\nTesting a log4\n";
    assert_eq!(sealed, expected.as_bytes().to_vec());
    // the active segment's own reads are unaffected by reading the sealed one
    wal.append_log("later\n".as_bytes()).unwrap();
    assert_eq!(wal.read_log(&second_id).unwrap(), "later\n".as_bytes().to_vec());
    assert_eq!(wal.read_log(&first_id).unwrap(), expected.as_bytes().to_vec());
}

#[test]
fn generated_identifiers_are_fresh_and_suffixed() {
    let mut wal = WAL::new();
    let a = wal.new_log_file().unwrap();
    let b = wal.new_log_file().unwrap();
    assert_ne!(a, b);
    assert_eq!(a.len(), 40);
    assert!(a.ends_with(".wal"));
    assert!(b.ends_with(".wal"));
    assert_eq!(wal.segment_ids(), &vec![a, b]);
}

#[test]
fn read_of_unknown_identifier_fails_as_not_found() {
    let mut wal = WAL::new();
    assert_eq!(
        wal.read_log("00000000-0000-0000-0000-000000000000.wal"),
        Err(WalError::SegmentNotFound)
    );
    wal.append_log("entry\n".as_bytes()).unwrap();
    assert_eq!(
        wal.read_log("never-created.wal"),
        Err(WalError::SegmentNotFound)
    );
}

#[test]
fn installing_a_duplicate_identifier_fails_as_exists() {
    let mut wal = WAL::new();
    assert_eq!(wal.install_segment(String::from("seg-a.wal")), Ok(()));
    assert_eq!(
        wal.install_segment(String::from("seg-a.wal")),
        Err(WalError::SegmentExists)
    );
    assert_eq!(wal.install_segment(String::from("seg-b.wal")), Ok(()));
    assert_eq!(wal.segment_ids().len(), 2);
}

#[test]
fn rotation_seals_a_segment_and_new_appends_go_to_the_new_one() {
    let mut wal = WAL::new();
    let first = wal.new_log_file().unwrap();
    wal.append_log("one".as_bytes()).unwrap();
    let second = wal.new_log_file().unwrap();
    wal.append_log("two".as_bytes()).unwrap();
    assert_eq!(wal.read_log(&first).unwrap(), "one".as_bytes().to_vec());
    assert_eq!(wal.read_log(&second).unwrap(), "two".as_bytes().to_vec());
    assert_eq!(wal.segment_ids(), &vec![first, second]);
}

#[test]
fn fresh_log_has_no_segments_and_empty_entry_appends_are_kept() {
    let mut wal = WAL::new();
    assert!(wal.segment_ids().is_empty());
    let id = wal.append_log("".as_bytes()).unwrap().unwrap();
    assert_eq!(wal.read_log(&id).unwrap(), Vec::<u8>::new());
}
