use oxide_kv::protocol::{Command, LogEntry, Snapshot};
use oxide_kv::raft::storage::{frame_bytes, keep_after, read_wal, RaftStorage, StorageFault, StorageWrite};
use oxide_kv::text_map::TextMap;

fn entry(index: usize) -> LogEntry {
    LogEntry {
        term: 1,
        index,
        command: Command::SetKey { key: format!("k{index}"), value: format!("v{index}") },
    }
}

#[test]
fn a_log_file_gives_back_its_entries() {
    let entries: Vec<LogEntry> = (1..=3).map(entry).collect();
    let mut bytes = Vec::new();
    for e in &entries {
        bytes.extend_from_slice(&frame_bytes(e));
    }
    assert_eq!(read_wal(&bytes), entries);
}

#[test]
fn a_torn_tail_is_left_out() {
    let mut bytes = frame_bytes(&entry(1));
    let second = frame_bytes(&entry(2));
    bytes.extend_from_slice(&second[..second.len() - 1]);
    assert_eq!(read_wal(&bytes), vec![entry(1)]);
    assert_eq!(read_wal(&[]), Vec::<LogEntry>::new());
}

#[test]
fn a_rewrite_keeps_the_later_entries() {
    let mut storage = RaftStorage::new();
    for i in 1..=4 {
        storage.append_wal_log(&entry(i)).unwrap();
    }
    let one = frame_bytes(&entry(1)).len() as u64;
    assert_eq!(storage.wal_size_bytes(), 4 * one);
    storage.rewrite_wal_after_snapshot(3).unwrap();
    assert_eq!(storage.restore_wal_log(), vec![entry(4)]);
    assert_eq!(storage.wal_size_bytes(), one);
    assert_eq!(keep_after(&vec![entry(1), entry(2)], 1), vec![entry(2)]);
}

#[test]
fn what_is_saved_is_loaded() {
    let mut storage = RaftStorage::new();
    storage.save_meta(7, Some("n2".to_string())).unwrap();
    storage.append_wal_log(&entry(1)).unwrap();
    let mut data = TextMap::new();
    data.insert("k".to_string(), "v".to_string());
    storage.save_snapshot(&Snapshot { last_included_index: 1, last_included_term: 1, data }).unwrap();
    let (term, vote, log) = storage.load_initial_state();
    assert_eq!(term, 7);
    assert_eq!(vote.as_deref(), Some("n2"));
    assert_eq!(log, vec![entry(1)]);
    assert_eq!(storage.load_snapshot().unwrap().data.get("k"), Some(&"v".to_string()));
    assert_eq!(
        storage.take_journal(),
        vec![StorageWrite::Meta, StorageWrite::Append, StorageWrite::Snapshot]
    );
    assert_eq!(storage.take_journal(), vec![]);
}

#[test]
fn a_medium_that_fails_takes_nothing() {
    let mut storage = RaftStorage::new();
    storage.fault = Some(StorageFault { appends_left: 1, reason: "disk full".to_string() });
    assert_eq!(storage.append_wal_log(&entry(1)), Ok(()));
    assert_eq!(storage.append_wal_log(&entry(2)), Err("disk full".to_string()));
    assert_eq!(storage.save_meta(9, None), Err("disk full".to_string()));
    assert_eq!(storage.restore_wal_log(), vec![entry(1)]);
    assert_eq!(storage.load_initial_state().0, 0);
}

#[test]
fn an_entry_takes_the_place_of_those_it_supersedes() {
    let mut storage = RaftStorage::new();
    let mut bytes = Vec::new();
    let mut newer = entry(2);
    newer.term = 2;
    for e in [entry(1), entry(2), entry(3), newer.clone()] {
        storage.append_wal_log(&e).unwrap();
        bytes.extend_from_slice(&frame_bytes(&e));
    }
    assert_eq!(storage.restore_wal_log(), vec![entry(1), newer.clone()]);
    assert_eq!(storage.wal_size_bytes(), bytes.len() as u64);

    let opened = RaftStorage::open(&bytes);
    assert_eq!(opened.restore_wal_log(), vec![entry(1), newer]);
    assert_eq!(opened.wal_size_bytes(), bytes.len() as u64);
    assert_eq!(opened.journal, vec![]);
}

#[test]
fn a_file_with_a_torn_tail_opens() {
    let mut bytes = frame_bytes(&entry(1));
    bytes.extend_from_slice(&frame_bytes(&entry(2))[..3]);
    let mut opened = RaftStorage::open(&bytes);
    assert_eq!(opened.restore_wal_log(), vec![entry(1)]);
    assert_ne!(opened.wal_size_bytes(), bytes.len() as u64);
    opened.rewrite_wal_after_snapshot(0).unwrap();
    assert_eq!(opened.restore_wal_log(), vec![entry(1)]);
    assert_eq!(RaftStorage::open(&[]), RaftStorage::new());
}
