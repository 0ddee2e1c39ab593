use flagfile_cli::raft_storage::{
    limit_by_size, ConfState, HardState, LogEntry, MemRaftStorage, Snapshot, SnapshotMetadata,
    StorageError,
};

fn entry(index: u64, term: u64) -> LogEntry {
    LogEntry { entry_type: 0, term, index, data: vec![index as u8], context: vec![], sync_log: false }
}

fn conf(voters: &[u64]) -> ConfState {
    ConfState {
        voters: voters.to_vec(),
        learners: vec![],
        voters_outgoing: vec![],
        learners_next: vec![],
        auto_leave: false,
    }
}

#[test]
fn new_storage_starts_at_index_one() {
    let s = MemRaftStorage::new(vec![1, 2, 3]);
    assert_eq!(s.first_index(), 1);
    assert_eq!(s.last_index(), 0);
    assert_eq!(s.term(0), Ok(0));
    let (hs, cs) = s.initial_state();
    assert_eq!((hs.term, hs.vote, hs.commit), (0, 0, 0));
    assert_eq!(cs.voters, vec![1, 2, 3]);
}

#[test]
fn append_then_read_back() {
    let mut s = MemRaftStorage::new(vec![1]);
    assert_eq!(s.append(&[entry(1, 1), entry(2, 1), entry(3, 2)]), Ok(()));
    assert_eq!(s.last_index(), 3);
    assert_eq!(s.term(3), Ok(2));
    let got = s.entry_range(2, 4).unwrap();
    assert_eq!(got.iter().map(|e| (e.index, e.term)).collect::<Vec<_>>(), vec![(2, 1), (3, 2)]);
    assert_eq!(s.term(4), Err(StorageError::Unavailable));
}

#[test]
fn append_overwrites_conflicting_suffix() {
    let mut s = MemRaftStorage::new(vec![1]);
    s.append(&[entry(1, 1), entry(2, 1), entry(3, 1)]).unwrap();
    s.append(&[entry(2, 5)]).unwrap();
    assert_eq!(s.last_index(), 2);
    assert_eq!(s.term(2), Ok(5));
    assert_eq!(s.append(&[entry(0, 9)]), Err(StorageError::Compacted));
}

#[test]
fn compact_moves_first_index() {
    let mut s = MemRaftStorage::new(vec![1]);
    s.append(&[entry(1, 1), entry(2, 1), entry(3, 2)]).unwrap();
    assert_eq!(s.compact(2), Ok(()));
    assert_eq!(s.first_index(), 3);
    assert_eq!(s.term(1), Err(StorageError::Compacted));
    assert_eq!(s.term(3), Ok(2));
    assert_eq!(s.compact(2), Err(StorageError::Compacted));
    assert_eq!(s.compact(9), Err(StorageError::Unavailable));
    assert_eq!(s.entry_range(2, 3).err(), Some(StorageError::Compacted));
}

#[test]
fn snapshot_apply_and_create() {
    let mut s = MemRaftStorage::new(vec![1]);
    let snap = Snapshot {
        data: vec![7],
        metadata: SnapshotMetadata { conf_state: conf(&[1, 2]), index: 10, term: 4 },
    };
    assert_eq!(s.apply_snapshot(snap), Ok(()));
    assert_eq!(s.first_index(), 11);
    assert_eq!(s.last_index(), 10);
    assert_eq!(s.term(10), Ok(4));
    assert_eq!(s.initial_state().1.voters, vec![1, 2]);
    let old = Snapshot { data: vec![], metadata: SnapshotMetadata { conf_state: conf(&[]), index: 5, term: 1 } };
    assert_eq!(s.apply_snapshot(old), Err(StorageError::SnapshotOutOfDate));
    s.append(&[entry(11, 4), entry(12, 5)]).unwrap();
    assert_eq!(s.create_snapshot(12, conf(&[3]), vec![1, 2]), Ok(()));
    let got = s.snapshot();
    assert_eq!((got.metadata.index, got.metadata.term, got.data.clone()), (12, 5, vec![1, 2]));
    assert_eq!(got.metadata.conf_state.voters, vec![3]);
    assert_eq!(s.create_snapshot(13, conf(&[3]), vec![]), Err(StorageError::Unavailable));
}

#[test]
fn hard_state_and_conf_state_stored() {
    let mut s = MemRaftStorage::new(vec![1]);
    s.set_hard_state(HardState { term: 3, vote: 2, commit: 1 });
    s.set_conf_state(conf(&[4, 5]));
    let (hs, cs) = s.initial_state();
    assert_eq!((hs.term, hs.vote, hs.commit), (3, 2, 1));
    assert_eq!(cs.voters, vec![4, 5]);
}

#[test]
fn size_limit_keeps_at_least_one_entry() {
    let es = vec![entry(1, 1), entry(2, 1), entry(3, 1)];
    let kept = limit_by_size(es, &[10, 10, 10], Some(15));
    assert_eq!(kept.iter().map(|e| e.index).collect::<Vec<_>>(), vec![1]);
    let es = vec![entry(1, 1), entry(2, 1), entry(3, 1)];
    let kept = limit_by_size(es, &[10, 10, 10], Some(5));
    assert_eq!(kept.len(), 1);
    let es = vec![entry(1, 1), entry(2, 1), entry(3, 1)];
    assert_eq!(limit_by_size(es, &[10, 10, 10], None).len(), 3);
    let es = vec![entry(1, 1), entry(2, 1), entry(3, 1)];
    assert_eq!(limit_by_size(es, &[10, 10, 10], Some(20)).len(), 2);
}
