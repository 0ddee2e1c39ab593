//! In-memory Raft log storage: the log entries after the last compaction
//! point (`offset`), the hard and configuration states, and the latest
//! snapshot.
use vstd::prelude::*;

verus! {

/// A Raft log entry.
pub struct LogEntry {
    pub entry_type: i32,
    pub term: u64,
    pub index: u64,
    pub data: Vec<u8>,
    pub context: Vec<u8>,
    pub sync_log: bool,
}

/// The value of a log entry.
pub struct EntryView {
    pub entry_type: i32,
    pub term: u64,
    pub index: u64,
    pub data: Seq<u8>,
    pub context: Seq<u8>,
    pub sync_log: bool,
}

impl View for LogEntry {
    type V = EntryView;

    open spec fn view(&self) -> EntryView {
        EntryView {
            entry_type: self.entry_type,
            term: self.term,
            index: self.index,
            data: self.data@,
            context: self.context@,
            sync_log: self.sync_log,
        }
    }
}

/// Term, vote and commit index.
#[derive(Clone, Copy, PartialEq, Eq, Structural)]
pub struct HardState {
    pub term: u64,
    pub vote: u64,
    pub commit: u64,
}

/// Cluster membership.
pub struct ConfState {
    pub voters: Vec<u64>,
    pub learners: Vec<u64>,
    pub voters_outgoing: Vec<u64>,
    pub learners_next: Vec<u64>,
    pub auto_leave: bool,
}

/// The value of a membership configuration.
pub struct ConfView {
    pub voters: Seq<u64>,
    pub learners: Seq<u64>,
    pub voters_outgoing: Seq<u64>,
    pub learners_next: Seq<u64>,
    pub auto_leave: bool,
}

impl View for ConfState {
    type V = ConfView;

    open spec fn view(&self) -> ConfView {
        ConfView {
            voters: self.voters@,
            learners: self.learners@,
            voters_outgoing: self.voters_outgoing@,
            learners_next: self.learners_next@,
            auto_leave: self.auto_leave,
        }
    }
}

/// Index, term and membership a snapshot was taken at.
pub struct SnapshotMetadata {
    pub conf_state: ConfState,
    pub index: u64,
    pub term: u64,
}

/// A Raft snapshot.
pub struct Snapshot {
    pub data: Vec<u8>,
    pub metadata: SnapshotMetadata,
}

/// The value of a snapshot.
pub struct SnapView {
    pub data: Seq<u8>,
    pub conf: ConfView,
    pub index: u64,
    pub term: u64,
}

impl View for Snapshot {
    type V = SnapView;

    open spec fn view(&self) -> SnapView {
        SnapView {
            data: self.data@,
            conf: self.metadata.conf_state@,
            index: self.metadata.index,
            term: self.metadata.term,
        }
    }
}

/// Why a storage request was refused.
#[derive(Debug, Clone, Copy, PartialEq, Eq, Structural)]
pub enum StorageError {
    /// The requested index lies at or before the compaction point.
    Compacted,
    /// The requested index lies beyond the log.
    Unavailable,
    /// The snapshot is not newer than the compaction point.
    SnapshotOutOfDate,
}

/// In-memory Raft log storage.
pub struct MemRaftStorage {
    hard_state: HardState,
    conf_state: ConfState,
    snapshot: Snapshot,
    entries: Vec<LogEntry>,
    /// Index of the first entry in `entries`.
    offset: u64,
}

/// The whole state of a storage.
pub struct StorageView {
    pub hard_state: HardState,
    pub conf: ConfView,
    pub snapshot: SnapView,
    pub entries: Seq<EntryView>,
    pub offset: u64,
}

impl View for MemRaftStorage {
    type V = StorageView;

    closed spec fn view(&self) -> StorageView {
        StorageView {
            hard_state: self.hard_state,
            conf: self.conf_state@,
            snapshot: self.snapshot@,
            entries: self.entries@.map_values(|e: LogEntry| e@),
            offset: self.offset,
        }
    }
}

/// The views of a sequence of entries.
pub open spec fn entry_views(es: Seq<LogEntry>) -> Seq<EntryView> {
    es.map_values(|e: LogEntry| e@)
}

/// An entry of the given index and term with every other field empty.
pub open spec fn blank_entry(index: u64, term: u64) -> EntryView {
    EntryView { entry_type: 0, term, index, data: seq![], context: seq![], sync_log: false }
}

/// An empty membership with the given voters.
pub open spec fn conf_with_voters(voters: Seq<u64>) -> ConfView {
    ConfView {
        voters,
        learners: seq![],
        voters_outgoing: seq![],
        learners_next: seq![],
        auto_leave: false,
    }
}

/// The index of the last entry, 0 when there is none.
pub open spec fn last_entry_index(v: StorageView) -> u64 {
    if v.entries.len() > 0 {
        v.entries.last().index
    } else {
        0
    }
}

/// Entries hold consecutive indices starting at the compaction point.
pub open spec fn contiguous(v: StorageView) -> bool {
    &&& v.entries.len() > 0
    &&& forall|i: int| 0 <= i < v.entries.len() ==> #[trigger] v.entries[i].index == v.offset + i
}

fn clone_bytes(v: &Vec<u8>) -> (r: Vec<u8>)
    ensures
        r@ == v@,
{
    let mut r: Vec<u8> = Vec::new();
    let mut i: usize = 0;
    while i < v.len()
        invariant
            i <= v.len(),
            r@ == v@.subrange(0, i as int),
        decreases v.len() - i,
    {
        r.push(v[i]);
        i = i + 1;
        assert(r@ =~= v@.subrange(0, i as int));
    }
    assert(r@ =~= v@);
    r
}

fn clone_ids(v: &Vec<u64>) -> (r: Vec<u64>)
    ensures
        r@ == v@,
{
    let mut r: Vec<u64> = Vec::new();
    let mut i: usize = 0;
    while i < v.len()
        invariant
            i <= v.len(),
            r@ == v@.subrange(0, i as int),
        decreases v.len() - i,
    {
        r.push(v[i]);
        i = i + 1;
        assert(r@ =~= v@.subrange(0, i as int));
    }
    assert(r@ =~= v@);
    r
}

/// A copy of a log entry.
pub fn clone_entry(e: &LogEntry) -> (r: LogEntry)
    ensures
        r@ == e@,
{
    LogEntry {
        entry_type: e.entry_type,
        term: e.term,
        index: e.index,
        data: clone_bytes(&e.data),
        context: clone_bytes(&e.context),
        sync_log: e.sync_log,
    }
}

/// A copy of a membership configuration.
pub fn clone_conf(c: &ConfState) -> (r: ConfState)
    ensures
        r@ == c@,
{
    ConfState {
        voters: clone_ids(&c.voters),
        learners: clone_ids(&c.learners),
        voters_outgoing: clone_ids(&c.voters_outgoing),
        learners_next: clone_ids(&c.learners_next),
        auto_leave: c.auto_leave,
    }
}

/// A copy of a snapshot.
pub fn clone_snapshot(s: &Snapshot) -> (r: Snapshot)
    ensures
        r@ == s@,
{
    Snapshot {
        data: clone_bytes(&s.data),
        metadata: SnapshotMetadata {
            conf_state: clone_conf(&s.metadata.conf_state),
            index: s.metadata.index,
            term: s.metadata.term,
        },
    }
}

fn empty_conf() -> (r: ConfState)
    ensures
        r@ == conf_with_voters(seq![]),
{
    ConfState {
        voters: Vec::new(),
        learners: Vec::new(),
        voters_outgoing: Vec::new(),
        learners_next: Vec::new(),
        auto_leave: false,
    }
}

fn blank(index: u64, term: u64) -> (r: LogEntry)
    ensures
        r@ == blank_entry(index, term),
{
    LogEntry { entry_type: 0, term, index, data: Vec::new(), context: Vec::new(), sync_log: false }
}

/// The storage after appending `es`, whose first index lies after the
/// offset: existing entries from that index on are replaced.
pub open spec fn appended(v: StorageView, es: Seq<EntryView>) -> StorageView {
    let rel = es[0].index - v.offset;
    let kept = if rel < v.entries.len() {
        v.entries.subrange(0, rel)
    } else {
        v.entries
    };
    StorageView { entries: kept + es, ..v }
}

/// The storage after applying the snapshot `snap`: the log is one
/// placeholder entry at the snapshot's index and term.
pub open spec fn snapshot_applied(v: StorageView, snap: SnapView) -> StorageView {
    StorageView {
        hard_state: v.hard_state,
        conf: snap.conf,
        snapshot: snap,
        entries: seq![blank_entry(snap.index, snap.term)],
        offset: snap.index,
    }
}

/// The storage after compacting up to `index`: earlier entries are dropped
/// and the offset moves to `index`.
pub open spec fn compacted(v: StorageView, index: u64) -> StorageView {
    StorageView {
        entries: v.entries.subrange(index - v.offset, v.entries.len() as int),
        offset: index,
        ..v
    }
}

/// The term `term` reports for `idx` (see `MemRaftStorage::term`).
pub open spec fn term_at(v: StorageView, idx: u64) -> Result<u64, StorageError> {
    if idx < v.offset {
        Err(StorageError::Compacted)
    } else if !snapshot_is_empty(v.snapshot) && idx == v.snapshot.index {
        Ok(v.snapshot.term)
    } else if idx - v.offset >= v.entries.len() {
        Err(StorageError::Unavailable)
    } else {
        Ok(v.entries[idx - v.offset].term)
    }
}

/// Appending entries that continue the log keeps it contiguous, moves its
/// last index to the last appended entry, and reading the appended range
/// back gives exactly the appended entries.
pub proof fn law_append_then_read(v: StorageView, es: Seq<EntryView>)
    requires
        contiguous(v),
        es.len() > 0,
        v.offset < es[0].index <= last_entry_index(v) + 1,
        es.last().index < u64::MAX,
        forall|i: int| 0 <= i < es.len() ==> #[trigger] es[i].index == es[0].index + i,
    ensures
        ({
            let w = appended(v, es);
            let low = es[0].index;
            let high = (es.last().index + 1) as u64;
            &&& contiguous(w)
            &&& last_entry_index(w) == es.last().index
            &&& range_in_bounds(w, low, high)
            &&& w.entries.subrange(low - w.offset, high - w.offset) == es
        }),
{
    let w = appended(v, es);
    let rel = es[0].index - v.offset;
    assert(v.entries.last().index == v.offset + v.entries.len() - 1);
    let kept = if rel < v.entries.len() {
        v.entries.subrange(0, rel)
    } else {
        v.entries
    };
    assert(kept.len() == rel);
    assert forall|i: int| 0 <= i < w.entries.len() implies #[trigger] w.entries[i].index == w.offset + i by {
        if i < rel {
            assert(w.entries[i] == v.entries[i]);
        } else {
            assert(w.entries[i] == es[i - rel]);
        }
    }
    assert(w.entries.last() == es.last());
    assert(w.entries.subrange(rel, rel + es.len()) =~= es);
}

/// Applying a snapshot newer than the log leaves a contiguous log that
/// starts and ends at the snapshot's index, whose term there is the
/// snapshot's term.
pub proof fn law_snapshot_then_term(v: StorageView, snap: SnapView)
    requires
        snap.index > v.offset,
    ensures
        ({
            let w = snapshot_applied(v, snap);
            &&& contiguous(w)
            &&& w.offset == snap.index
            &&& last_entry_index(w) == snap.index
            &&& term_at(w, snap.index) == Ok::<u64, StorageError>(snap.term)
        }),
{
}

/// Compacting a contiguous log at an index it holds keeps it contiguous,
/// makes that index the first one kept and leaves the last index unchanged.
pub proof fn law_compact_keeps_tail(v: StorageView, index: u64)
    requires
        contiguous(v),
        v.offset < index <= last_entry_index(v),
    ensures
        ({
            let w = compacted(v, index);
            &&& contiguous(w)
            &&& w.entries[0].index == index
            &&& last_entry_index(w) == last_entry_index(v)
        }),
{
    let w = compacted(v, index);
    assert(v.entries.last().index == v.offset + v.entries.len() - 1);
    assert forall|i: int| 0 <= i < w.entries.len() implies #[trigger] w.entries[i].index == w.offset + i by {
        assert(w.entries[i] == v.entries[i + index - v.offset]);
    }
    assert(w.entries.last() == v.entries.last());
}

/// An empty snapshot (index 0, term 0, no data, empty membership).
pub open spec fn empty_snapshot() -> SnapView {
    SnapView { data: seq![], conf: conf_with_voters(seq![]), index: 0, term: 0 }
}

impl MemRaftStorage {
    /// A new storage with the given voters; the log holds one placeholder
    /// entry at index 0 so that the first index is 1.
    pub fn new(voters: Vec<u64>) -> (r: Self)
        ensures
            r@.hard_state == (HardState { term: 0, vote: 0, commit: 0 }),
            r@.conf == conf_with_voters(voters@),
            r@.snapshot == empty_snapshot(),
            r@.entries == seq![blank_entry(0, 0)],
            r@.offset == 0,
    {
        let mut cs = empty_conf();
        cs.voters = voters;
        let mut entries: Vec<LogEntry> = Vec::new();
        entries.push(blank(0, 0));
        let r = MemRaftStorage {
            hard_state: HardState { term: 0, vote: 0, commit: 0 },
            conf_state: cs,
            snapshot: Snapshot {
                data: Vec::new(),
                metadata: SnapshotMetadata { conf_state: empty_conf(), index: 0, term: 0 },
            },
            entries,
            offset: 0,
        };
        assert(r@.entries =~= seq![blank_entry(0, 0)]);
        r
    }

    /// Append entries, replacing any existing entries from the first new
    /// index onward; refused when that index is at or before the offset.
    pub fn append(&mut self, entries: &[LogEntry]) -> (r: Result<(), StorageError>)
        ensures
            entries.len() == 0 ==> r is Ok && final(self)@ == old(self)@,
            entries.len() > 0 && entries@[0].index <= old(self)@.offset ==> r == Err::<
                (),
                StorageError,
            >(StorageError::Compacted) && final(self)@ == old(self)@,
            entries.len() > 0 && entries@[0].index > old(self)@.offset ==> r is Ok && final(self)@
                == appended(old(self)@, entry_views(entries@)),
    {
        if entries.len() == 0 {
            return Ok(());
        }
        let first_new = entries[0].index;
        if first_new <= self.offset {
            return Err(StorageError::Compacted);
        }
        let relative: u64 = first_new - self.offset;
        assert(entry_views(entries@)[0] == entries@[0]@);
        let ghost kept = if relative < self@.entries.len() {
            self@.entries.subrange(0, relative as int)
        } else {
            self@.entries
        };
        if relative < self.entries.len() as u64 {
            self.entries.truncate(relative as usize);
        }
        assert(self@.entries =~= kept);
        let mut i: usize = 0;
        while i < entries.len()
            invariant
                i <= entries.len(),
                self@ == (StorageView {
                    entries: kept + entry_views(entries@.subrange(0, i as int)),
                    ..old(self)@
                }),
            decreases entries.len() - i,
        {
            let e = clone_entry(&entries[i]);
            let ghost before = self.entries@;
            self.entries.push(e);
            assert(self.entries@ == before.push(e));
            assert(self@.entries =~= entry_views(before).push(entries@[i as int]@));
            assert(entry_views(entries@.subrange(0, i + 1)) =~= entry_views(
                entries@.subrange(0, i as int),
            ).push(entries@[i as int]@));
            i = i + 1;
            assert(self@.entries =~= kept + entry_views(entries@.subrange(0, i as int)));
        }
        assert(entries@.subrange(0, entries.len() as int) =~= entries@);
        Ok(())
    }

    /// Persist the hard state (term, vote, commit).
    pub fn set_hard_state(&mut self, hs: HardState)
        ensures
            final(self)@ == (StorageView { hard_state: hs, ..old(self)@ }),
    {
        self.hard_state = hs;
    }

    /// Persist the membership configuration.
    pub fn set_conf_state(&mut self, cs: ConfState)
        ensures
            final(self)@ == (StorageView { conf: cs@, ..old(self)@ }),
    {
        self.conf_state = cs;
    }

    /// Apply an incoming snapshot, replacing the log by one placeholder
    /// entry at the snapshot's index and term; refused when the snapshot is
    /// not newer than the offset.
    pub fn apply_snapshot(&mut self, snapshot: Snapshot) -> (r: Result<(), StorageError>)
        ensures
            snapshot.metadata.index <= old(self)@.offset ==> r == Err::<(), StorageError>(
                StorageError::SnapshotOutOfDate,
            ) && final(self)@ == old(self)@,
            snapshot.metadata.index > old(self)@.offset ==> r is Ok && final(self)@
                == snapshot_applied(old(self)@, snapshot@),
    {
        let snap_index = snapshot.metadata.index;
        if snap_index <= self.offset {
            return Err(StorageError::SnapshotOutOfDate);
        }
        self.conf_state = clone_conf(&snapshot.metadata.conf_state);
        self.offset = snap_index;
        let mut es: Vec<LogEntry> = Vec::new();
        es.push(blank(snap_index, snapshot.metadata.term));
        self.entries = es;
        self.snapshot = snapshot;
        assert(self@.entries =~= seq![blank_entry(snap_index, self@.snapshot.term)]);
        Ok(())
    }

    fn last_idx(&self) -> (r: u64)
        ensures
            r == last_entry_index(self@),
    {
        if self.entries.len() > 0 {
            self.entries[self.entries.len() - 1].index
        } else {
            0
        }
    }

    /// The compaction at `index` passes its checks but would drain more
    /// entries than the log holds.
    pub open spec fn compact_overruns(self, index: u64) -> bool {
        index > self@.offset && index <= last_entry_index(self@) && index - self@.offset
            > self@.entries.len()
    }

    /// Compact the log up to and including `index`, discarding older
    /// entries; refused at or before the offset, or beyond the last entry.
    pub fn compact(&mut self, index: u64) -> (r: Result<(), StorageError>)
        requires
            !old(self).compact_overruns(index),
        ensures
            index <= old(self)@.offset ==> r == Err::<(), StorageError>(StorageError::Compacted)
                && final(self)@ == old(self)@,
            index > old(self)@.offset && index > last_entry_index(old(self)@) ==> r == Err::<
                (),
                StorageError,
            >(StorageError::Unavailable) && final(self)@ == old(self)@,
            index > old(self)@.offset && index <= last_entry_index(old(self)@) ==> r is Ok
                && final(self)@ == compacted(old(self)@, index),
    {
        if index <= self.offset {
            return Err(StorageError::Compacted);
        }
        let last = self.last_idx();
        if index > last {
            return Err(StorageError::Unavailable);
        }
        let drain_to = (index - self.offset) as usize;
        let mut kept: Vec<LogEntry> = Vec::new();
        let mut i = drain_to;
        while i < self.entries.len()
            invariant
                drain_to <= i <= self.entries.len(),
                self@ == old(self)@,
                entry_views(kept@) == self@.entries.subrange(drain_to as int, i as int),
            decreases self.entries.len() - i,
        {
            let ghost before = kept@;
            let e = clone_entry(&self.entries[i]);
            kept.push(e);
            assert(entry_views(kept@) =~= entry_views(before).push(self@.entries[i as int]));
            i = i + 1;
            assert(entry_views(kept@) =~= self@.entries.subrange(drain_to as int, i as int));
        }
        self.entries = kept;
        self.offset = index;
        Ok(())
    }

    /// Record a snapshot at `index` with the voters and learners of `cs` and
    /// the given data; refused when `index` lies beyond the log.
    pub fn create_snapshot(&mut self, index: u64, cs: ConfState, data: Vec<u8>) -> (r: Result<
        (),
        StorageError,
    >)
        requires
            index <= last_entry_index(old(self)@) ==> index >= old(self)@.offset,
        ensures
            ({
                let rel = index - old(self)@.offset;
                if index > last_entry_index(old(self)@) || rel >= old(self)@.entries.len() {
                    r == Err::<(), StorageError>(StorageError::Unavailable) && final(self)@ == old(
                        self,
                    )@
                } else {
                    r is Ok && final(self)@ == (StorageView {
                        snapshot: SnapView {
                            data: data@,
                            conf: ConfView {
                                voters: cs.voters@,
                                learners: cs.learners@,
                                ..conf_with_voters(seq![])
                            },
                            index,
                            term: old(self)@.entries[rel].term,
                        },
                        ..old(self)@
                    })
                }
            }),
    {
        let last = self.last_idx();
        if index > last {
            return Err(StorageError::Unavailable);
        }
        let relative = index - self.offset;
        if relative >= self.entries.len() as u64 {
            return Err(StorageError::Unavailable);
        }
        let term = self.entries[relative as usize].term;
        let mut conf = empty_conf();
        conf.voters = clone_ids(&cs.voters);
        conf.learners = clone_ids(&cs.learners);
        self.snapshot = Snapshot {
            data,
            metadata: SnapshotMetadata { conf_state: conf, index, term },
        };
        Ok(())
    }

    /// The hard state and membership configuration.
    pub fn initial_state(&self) -> (r: (HardState, ConfState))
        ensures
            r.0 == self@.hard_state,
            r.1@ == self@.conf,
    {
        (self.hard_state, clone_conf(&self.conf_state))
    }

    /// The term of the entry at `idx`: the snapshot's term when `idx` is the
    /// snapshot's index, refused before the offset or beyond the log.
    pub fn term(&self, idx: u64) -> (r: Result<u64, StorageError>)
        ensures
            r == term_at(self@, idx),
    {
        if idx < self.offset {
            return Err(StorageError::Compacted);
        }
        if !self.snapshot_empty() && idx == self.snapshot.metadata.index {
            return Ok(self.snapshot.metadata.term);
        }
        let relative = idx - self.offset;
        if relative >= self.entries.len() as u64 {
            return Err(StorageError::Unavailable);
        }
        Ok(self.entries[relative as usize].term)
    }

    fn snapshot_empty(&self) -> (b: bool)
        ensures
            b == snapshot_is_empty(self@.snapshot),
    {
        self.snapshot.metadata.index == 0
    }

    /// The index of the first entry after the compaction point.
    pub fn first_index(&self) -> (r: u64)
        requires
            self@.offset < u64::MAX,
        ensures
            r == self@.offset + 1,
    {
        self.offset + 1
    }

    /// The index of the last entry (the offset when the log is empty).
    pub fn last_index(&self) -> (r: u64)
        ensures
            r == if self@.entries.len() > 0 {
                self@.entries.last().index
            } else {
                self@.offset
            },
    {
        if self.entries.len() > 0 {
            self.entries[self.entries.len() - 1].index
        } else {
            self.offset
        }
    }

    /// A copy of the latest snapshot.
    pub fn snapshot(&self) -> (r: Snapshot)
        ensures
            r@ == self@.snapshot,
    {
        clone_snapshot(&self.snapshot)
    }
}

/// A snapshot is empty when its index is 0 (`Snapshot::is_empty`).
pub open spec fn snapshot_is_empty(s: SnapView) -> bool {
    s.index == 0
}


/// How many entries `MemRaftStorage::entries` keeps from index `k` on, with
/// `total` bytes counted so far: it stops before the first entry after the
/// first one whose size takes the total past `max`.
pub open spec fn size_limited_count(sizes: Seq<u32>, max: Option<u64>, k: int, total: int) -> int
    decreases sizes.len() - k,
{
    if k < 0 || k >= sizes.len() {
        k
    } else {
        let t = total + sizes[k];
        if max is Some && k > 0 && t > max->0 {
            k
        } else {
            size_limited_count(sizes, max, k + 1, t)
        }
    }
}

/// The requested range `[low, high)` passes the checks against the log
/// (otherwise the range request panics).
pub open spec fn range_in_bounds(v: StorageView, low: u64, high: u64) -> bool {
    low > v.offset ==> {
        &&& high <= last_entry_index(v) + 1
        &&& low - v.offset <= high - v.offset <= v.entries.len()
    }
}

impl MemRaftStorage {
    /// The entries in `[low, high)`; refused at or before the offset.
    pub fn entry_range(&self, low: u64, high: u64) -> (r: Result<Vec<LogEntry>, StorageError>)
        requires
            range_in_bounds(self@, low, high),
        ensures
            low <= self@.offset ==> r == Err::<Vec<LogEntry>, StorageError>(StorageError::Compacted),
            low > self@.offset ==> r is Ok && entry_views(r->Ok_0@) == self@.entries.subrange(
                low - self@.offset,
                high - self@.offset,
            ),
    {
        if low <= self.offset {
            return Err(StorageError::Compacted);
        }
        assert(self@.entries.len() == self.entries@.len());
        assert(low - self.offset <= high - self.offset <= self.entries.len());
        let lo = (low - self.offset) as usize;
        let hi = (high - self.offset) as usize;
        let mut out: Vec<LogEntry> = Vec::new();
        let mut i = lo;
        while i < hi
            invariant
                lo <= i <= hi <= self.entries.len(),
                entry_views(out@) == self@.entries.subrange(lo as int, i as int),
            decreases hi - i,
        {
            let ghost before = out@;
            let e = clone_entry(&self.entries[i]);
            out.push(e);
            assert(entry_views(out@) =~= entry_views(before).push(self@.entries[i as int]));
            i = i + 1;
            assert(entry_views(out@) =~= self@.entries.subrange(lo as int, i as int));
        }
        Ok(out)
    }
}

/// Keep the leading entries whose running size stays within `max_size`
/// (the first entry is always kept); `sizes[k]` is the encoded size of
/// `entries[k]`.
pub fn limit_by_size(entries: Vec<LogEntry>, sizes: &[u32], max_size: Option<u64>) -> (r: Vec<
    LogEntry,
>)
    requires
        sizes.len() == entries.len(),
        sizes.len() < 0x1_0000_0000,
    ensures
        entry_views(r@) == entry_views(entries@).subrange(
            0,
            size_limited_count(sizes@, max_size, 0, 0),
        ),
{
    let mut out: Vec<LogEntry> = Vec::new();
    let mut total: u64 = 0;
    let mut i: usize = 0;
    let ghost n = size_limited_count(sizes@, max_size, 0, 0);
    while i < entries.len()
        invariant
            sizes.len() == entries.len() < 0x1_0000_0000,
            i <= entries.len(),
            total <= i * 0x1_0000_0000,
            entry_views(out@) == entry_views(entries@).subrange(0, i as int),
            n == size_limited_count(sizes@, max_size, i as int, total as int),
        ensures
            entry_views(out@) == entry_views(entries@).subrange(0, n),
        decreases entries.len() - i,
    {
        let t = total + sizes[i] as u64;
        let stop = match max_size {
            Some(m) => i > 0 && t > m,
            None => false,
        };
        if stop {
            break ;
        }
        total = t;
        let ghost before = out@;
        let e = clone_entry(&entries[i]);
        out.push(e);
        assert(entry_views(out@) =~= entry_views(before).push(entries@[i as int]@));
        i = i + 1;
        assert(entry_views(out@) =~= entry_views(entries@).subrange(0, i as int));
    }
    proof {
        if i == entries.len() {
            assert(entry_views(entries@).subrange(0, i as int) =~= entry_views(entries@).subrange(0, n));
        }
    }
    out
}

} // verus!
