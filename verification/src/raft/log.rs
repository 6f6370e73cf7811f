use vstd::prelude::*;
use crate::raft::types::{
    clone_entries, entries_view, opt_snapshot_view, Entry, EntryView, HardState, RaftError, Snapshot,
    SnapshotView,
};

verus! {

/// Where the term of an index can be found.
#[derive(Debug, Clone, Copy, PartialEq, Eq, Structural)]
pub enum TermLookup {
    /// The index lies before the first index: it was compacted away.
    Compacted,
    /// The term is held in memory.
    Found(u64),
    /// The term must be read from storage.
    InStorage,
}

/// The in-memory part of a Raft log.
///
/// Layout: snapshot/first ..... applied .... committed .... stabled ..... last
pub struct RaftLog {
    /// Highest index known to be stored on a quorum.
    pub committed: u64,
    /// Highest index applied to the state machine.
    pub applied: u64,
    /// Highest index persisted to storage.
    pub stabled: u64,
    /// Entries not yet compacted.
    pub entries: Vec<Entry>,
    /// Snapshot received but not yet handled by the application.
    pub pending_snapshot: Option<Snapshot>,
}

/// Mathematical value of a Raft log.
pub struct LogView {
    pub committed: u64,
    pub applied: u64,
    pub stabled: u64,
    pub entries: Seq<EntryView>,
    pub snapshot: Option<SnapshotView>,
}

impl LogView {
    /// A non-empty snapshot is pending.
    pub open spec fn has_snapshot(self) -> bool {
        self.snapshot is Some && self.snapshot->0.index != 0
    }

    /// The index of the last entry: that of the last entry held, else that
    /// of a pending snapshot, else the stable index.
    pub open spec fn last_index(self) -> u64 {
        if self.entries.len() > 0 {
            self.entries.last().index
        } else if self.has_snapshot() {
            self.snapshot->0.index
        } else {
            self.stabled
        }
    }

    /// The index of the first entry held: that of the first entry, else
    /// the one after a pending snapshot, else the one after the stable
    /// index.
    pub open spec fn first_index(self) -> int {
        if self.entries.len() > 0 {
            self.entries[0].index as int
        } else if self.has_snapshot() {
            self.snapshot->0.index + 1
        } else {
            self.stabled + 1
        }
    }

    /// Well-formedness: the indices the log computes with stay in range,
    /// and nothing is committed beyond the last index.
    pub open spec fn wf(self) -> bool {
        &&& self.stabled < u64::MAX
        &&& (self.snapshot is Some ==> self.snapshot->0.index < u64::MAX)
        &&& forall|i: int| 0 <= i < self.entries.len() ==> 1 <= #[trigger] self.entries[i].index < u64::MAX
        &&& self.committed <= self.last_index()
        &&& self.has_snapshot() ==> self.snapshot->0.index <= self.committed
    }

    /// The term of entry `index` as memory holds it: 0 for index 0, the
    /// pending snapshot's term at its index, else the term of the entry
    /// held at `index`.
    pub open spec fn term_sync(self, index: u64) -> Option<u64> {
        let first = self.first_index();
        if index == 0 {
            Some(0)
        } else if self.has_snapshot() && index == self.snapshot->0.index {
            Some(self.snapshot->0.term)
        } else if index < first {
            None
        } else if index <= self.last_index() && index - first < self.entries.len() {
            Some(self.entries[index - first].term)
        } else {
            None
        }
    }

    /// Where the term of entry `index` is found.
    pub open spec fn term(self, index: u64) -> TermLookup {
        let first = self.first_index();
        if self.has_snapshot() && index == self.snapshot->0.index {
            TermLookup::Found(self.snapshot->0.term)
        } else if index < first {
            TermLookup::Compacted
        } else if index <= self.last_index() && index - first < self.entries.len() {
            TermLookup::Found(self.entries[index - first].term)
        } else {
            TermLookup::InStorage
        }
    }

    /// The committed entries not yet applied: those with
    /// `applied < index <= committed`, in log order.
    pub open spec fn next_entries(self) -> Seq<EntryView> {
        self.entries.filter(|e: EntryView| self.applied < e.index && e.index <= self.committed)
    }

    /// Offset in `entries` of the first entry after `pos`.
    pub open spec fn offset_after(self, pos: u64) -> int {
        if pos >= self.first_index() {
            pos - self.first_index() + 1
        } else {
            0
        }
    }

    /// The entries `append(ents)` leaves in the log: the old entries with
    /// an index below `ents[0].index`, then `ents`.
    pub open spec fn append(self, ents: Seq<EntryView>) -> LogView {
        if ents.len() == 0 {
            self
        } else {
            let after = ents[0].index;
            let first = self.first_index();
            let kept = if after <= first {
                Seq::empty()
            } else if after - first < self.entries.len() {
                self.entries.subrange(0, after - first)
            } else {
                self.entries
            };
            LogView { entries: kept + ents, ..self }
        }
    }

    /// Whether `append(ents)` keeps the log well-formed without panicking:
    /// every new entry lies after the commit index and below `u64::MAX`.
    pub open spec fn can_append(self, ents: Seq<EntryView>) -> bool {
        forall|i: int| 0 <= i < ents.len() ==> self.committed < #[trigger] ents[i].index < u64::MAX
    }
}

impl View for RaftLog {
    type V = LogView;

    open spec fn view(&self) -> LogView {
        LogView {
            committed: self.committed,
            applied: self.applied,
            stabled: self.stabled,
            entries: entries_view(self.entries@),
            snapshot: opt_snapshot_view(self.pending_snapshot),
        }
    }
}

impl RaftLog {
    /// Builds the log from what storage holds: the hard state, the last
    /// stored index and the stored entries.
    pub fn new(hard_state: HardState, last_index: u64, entries: Vec<Entry>) -> (r: Self)
        ensures
            r.committed == hard_state.commit,
            r.applied == 0,
            r.stabled == last_index,
            r.entries@ == entries@,
            r.pending_snapshot is None,
    {
        RaftLog {
            committed: hard_state.commit,
            applied: 0,
            stabled: last_index,
            entries,
            pending_snapshot: None,
        }
    }

    /// All entries not yet compacted.
    pub fn all_entries(&self) -> (r: Vec<Entry>)
        ensures
            entries_view(r@) == self@.entries,
    {
        let r = clone_entries(self.entries.as_slice(), 0, self.entries.len());
        proof {
            assert(self.entries@.subrange(0, self.entries@.len() as int) =~= self.entries@);
        }
        r
    }

    pub fn last_index(&self) -> (r: u64)
        ensures
            r == self@.last_index(),
    {
        if self.entries.len() > 0 {
            return self.entries[self.entries.len() - 1].index;
        }
        if let Some(snap) = &self.pending_snapshot {
            if !snap.is_empty() {
                return snap.metadata.index;
            }
        }
        self.stabled
    }

    pub fn first_index(&self) -> (r: u64)
        requires
            self@.wf(),
        ensures
            r == self@.first_index(),
    {
        if self.entries.len() > 0 {
            return self.entries[0].index;
        }
        if let Some(snap) = &self.pending_snapshot {
            if !snap.is_empty() {
                return snap.metadata.index + 1;
            }
        }
        self.stabled + 1
    }

    /// Entries after `stabled`, to be persisted.
    pub fn unstable_entries(&self) -> (r: Vec<Entry>)
        requires
            self@.wf(),
            self@.offset_after(self.stabled) <= self@.entries.len(),
        ensures
            entries_view(r@) == self@.entries.subrange(
                self@.offset_after(self.stabled),
                self@.entries.len() as int,
            ),
    {
        let first = self.first_index();
        let start = if self.stabled >= first {
            (self.stabled - first + 1) as usize
        } else {
            0
        };
        let r = clone_entries(self.entries.as_slice(), start, self.entries.len());
        proof {
            assert(entries_view(self.entries@.subrange(start as int, self.entries@.len() as int))
                =~= self@.entries.subrange(start as int, self@.entries.len() as int));
        }
        r
    }

    /// The committed entries not yet applied: those with
    /// `applied < index <= committed`, in log order.
    pub fn next_entries(&self) -> (r: Vec<Entry>)
        ensures
            entries_view(r@) == self@.next_entries(),
    {
        let ghost all = self@.entries;
        let ghost pred = |e: EntryView| self.applied < e.index && e.index <= self.committed;
        let mut r: Vec<Entry> = Vec::new();
        let mut i: usize = 0;
        proof {
            reveal(Seq::filter);
            assert(all.take(0) =~= Seq::<EntryView>::empty());
        }
        while i < self.entries.len()
            invariant
                0 <= i <= self.entries@.len(),
                all == self@.entries,
                pred == (|e: EntryView| self.applied < e.index && e.index <= self.committed),
                entries_view(r@) == all.take(i as int).filter(pred),
            decreases self.entries@.len() - i,
        {
            proof {
                reveal(Seq::filter);
                assert(all.take(i + 1).drop_last() =~= all.take(i as int));
                assert(all[i as int] == self.entries@[i as int]@);
            }
            let e = &self.entries[i];
            if self.applied < e.index && e.index <= self.committed {
                let ghost before = r@;
                r.push(e.clone());
                proof {
                    assert(entries_view(r@) =~= entries_view(before).push(all[i as int]));
                }
            }
            i += 1;
        }
        proof {
            assert(all.take(i as int) =~= all);
        }
        r
    }

    /// Whether the log is well-formed (`LogView::wf`): the condition that
    /// `Raft::new` and `RawNode::new` ask of the log they are given.
    pub fn is_wf(&self) -> (r: bool)
        ensures
            r == self@.wf(),
    {
        if self.stabled == u64::MAX {
            return false;
        }
        if let Some(snap) = &self.pending_snapshot {
            if snap.metadata.index == u64::MAX {
                return false;
            }
        }
        let n = self.entries.len();
        let mut i: usize = 0;
        while i < n
            invariant
                n == self@.entries.len(),
                0 <= i <= n,
                forall|j: int| 0 <= j < i ==> 1 <= #[trigger] self@.entries[j].index < u64::MAX,
            decreases n - i,
        {
            let idx = self.entries[i].index;
            proof {
                assert(self@.entries[i as int].index == idx);
            }
            if idx < 1 || idx == u64::MAX {
                return false;
            }
            i += 1;
        }
        if self.committed > self.last_index() {
            return false;
        }
        if let Some(snap) = &self.pending_snapshot {
            if snap.metadata.index != 0 && snap.metadata.index > self.committed {
                return false;
            }
        }
        true
    }

    /// Whether the log is laid out as usual (`LogView::laid_out`).
    pub fn is_laid_out(&self) -> (r: bool)
        requires
            self@.wf(),
        ensures
            r == self@.laid_out(),
    {
        let n = self.entries.len();
        if n > 0 {
            let e0 = self.entries[0].index;
            let mut i: usize = 0;
            while i < n
                invariant
                    n == self@.entries.len(),
                    n > 0,
                    e0 == self@.entries[0].index,
                    0 <= i <= n,
                    forall|j: int| 0 <= j < i ==> #[trigger] self@.entries[j].index == e0 + j,
                decreases n - i,
            {
                let idx = self.entries[i].index;
                proof {
                    assert(self@.entries[i as int].index == idx);
                }
                if (i as u64) > u64::MAX - e0 || idx != e0 + i as u64 {
                    return false;
                }
                i += 1;
            }
        }
        if self.applied > self.committed {
            return false;
        }
        match &self.pending_snapshot {
            Some(snap) => {
                if snap.metadata.index != 0 {
                    let si = snap.metadata.index;
                    return self.stabled <= si && self.applied <= si && (n == 0
                        || self.entries[0].index == si + 1);
                }
            },
            None => {},
        }
        let first = self.first_index();
        first <= self.applied + 1
    }

    /// Where the term of entry `index` is found.
    pub fn term(&self, index: u64) -> (r: TermLookup)
        requires
            self@.wf(),
        ensures
            r == self@.term(index),
    {
        if let Some(snap) = &self.pending_snapshot {
            if !snap.is_empty() && snap.metadata.index == index {
                return TermLookup::Found(snap.metadata.term);
            }
        }
        let first = self.first_index();
        let last = self.last_index();
        if index < first {
            return TermLookup::Compacted;
        }
        if index <= last {
            let offset = index - first;
            if offset < self.entries.len() as u64 {
                return TermLookup::Found(self.entries[offset as usize].term);
            }
        }
        TermLookup::InStorage
    }

    /// The term of entry `index` as memory holds it.
    pub fn term_sync(&self, index: u64) -> (r: Option<u64>)
        requires
            self@.wf(),
        ensures
            r == self@.term_sync(index),
    {
        if index == 0 {
            return Some(0);
        }
        if let Some(snap) = &self.pending_snapshot {
            if !snap.is_empty() && snap.metadata.index == index {
                return Some(snap.metadata.term);
            }
        }
        let first = self.first_index();
        let last = self.last_index();
        if index < first {
            return None;
        }
        if index <= last {
            let offset = index - first;
            if offset < self.entries.len() as u64 {
                return Some(self.entries[offset as usize].term);
            }
        }
        None
    }

    /// Appends `ents`, first dropping the entries from `ents[0].index` on.
    pub fn append(&mut self, ents: &[Entry])
        requires
            old(self)@.wf(),
            old(self)@.can_append(entries_view(ents@)),
        ensures
            final(self)@.wf(),
            final(self)@ == old(self)@.append(entries_view(ents@)),
            ({
                let es = entries_view(ents@);
                consecutive(old(self)@.entries) && consecutive(es) && es.len() > 0
                    && old(self)@.first_index() <= es[0].index <= old(self)@.first_index()
                    + old(self)@.entries.len() ==> {
                    &&& consecutive(final(self)@.entries)
                    &&& final(self)@.entries == old(self)@.entries.filter(
                        |e: EntryView| e.index < es[0].index,
                    ) + es
                    &&& final(self)@.last_index() == es.last().index
                }
            }),
    {
        proof {
            let es = entries_view(ents@);
            if consecutive(old(self)@.entries) && consecutive(es) && es.len() > 0
                && old(self)@.first_index() <= es[0].index <= old(self)@.first_index()
                + old(self)@.entries.len() {
                lemma_append_keeps_consecutive(old(self)@, es);
            }
        }
        if ents.len() == 0 {
            return;
        }
        let after = ents[0].index;
        let first = self.first_index();
        let ghost old_entries = self.entries@;
        let ghost old_view = self@;
        if after <= first {
            self.entries.clear();
        } else {
            let offset = after - first;
            if offset < self.entries.len() as u64 {
                self.entries.truncate(offset as usize);
            }
        }
        let ghost kept = self.entries@;
        self.entries.extend_from_slice(ents);
        proof {
            assert forall|i: int| 0 <= i < self.entries@.len() implies #[trigger] self.entries@[i]@
                == (entries_view(kept) + entries_view(ents@))[i] by {
                if i >= kept.len() {
                    assert(cloned::<Entry>(ents@[i - kept.len()], self.entries@[i]));
                }
            }
            assert(entries_view(self.entries@) =~= entries_view(kept) + entries_view(ents@));
            let kv = if after <= first {
                Seq::<Entry>::empty()
            } else if after - first < old_entries.len() {
                old_entries.subrange(0, after - first)
            } else {
                old_entries
            };
            assert(kept =~= kv);
            assert(entries_view(kept) =~= (if after <= first {
                Seq::<EntryView>::empty()
            } else if after - first < old_view.entries.len() {
                old_view.entries.subrange(0, after - first)
            } else {
                old_view.entries
            }));
            assert(entries_view(ents@)[0] == ents@[0]@);
            assert(self@ =~= old_view.append(entries_view(ents@)));
            assert(self@.entries.last() == entries_view(ents@)[ents@.len() - 1]);
            assert forall|i: int| 0 <= i < self@.entries.len() implies 1 <= #[trigger] self@.entries[i].index
                < u64::MAX by {
                if i >= kept.len() {
                    assert(self@.entries[i] == entries_view(ents@)[i - kept.len()]);
                } else {
                    assert(self@.entries[i] == old_view.entries[i]);
                }
            }
        }
    }

    /// Drops the entries up to and including `compact_index`.
    pub fn maybe_compact(&mut self, compact_index: u64) -> (r: Result<(), RaftError>)
        requires
            old(self)@.wf(),
        ensures
            final(self)@.wf(),
            final(self).committed == old(self).committed,
            final(self).applied == old(self).applied,
            final(self).stabled == old(self).stabled,
            final(self).pending_snapshot == old(self).pending_snapshot,
            compact_index <= old(self)@.first_index() ==> r is Ok && final(self)@ == old(self)@,
            compact_index > old(self)@.first_index() && compact_index > old(self)@.last_index()
                ==> r == Err::<(), RaftError>(RaftError::CompactBeyondLast(compact_index))
                && final(self)@ == old(self)@,
            compact_index > old(self)@.first_index() && compact_index <= old(self)@.last_index()
                ==> r is Ok && final(self)@.entries == (if compact_index - old(self)@.first_index()
                + 1 < old(self)@.entries.len() {
                old(self)@.entries.subrange(
                    compact_index - old(self)@.first_index() + 1,
                    old(self)@.entries.len() as int,
                )
            } else {
                old(self)@.entries
            }),
            consecutive(old(self)@.entries) ==> consecutive(final(self)@.entries),
    {
        let first = self.first_index();
        if compact_index <= first {
            return Ok(());
        }
        if compact_index > self.last_index() {
            return Err(RaftError::CompactBeyondLast(compact_index));
        }
        let offset = compact_index - first + 1;
        if offset < self.entries.len() as u64 {
            let ghost old_view = self@;
            let tail = self.entries.split_off(offset as usize);
            self.entries = tail;
            proof {
                assert(self@.entries =~= old_view.entries.subrange(offset as int, old_view.entries.len() as int));
                assert forall|i: int| 0 <= i < self@.entries.len() implies 1 <= #[trigger] self@.entries[i].index
                    < u64::MAX by {
                    assert(self@.entries[i] == old_view.entries[i + offset]);
                }
                if consecutive(old_view.entries) {
                    lemma_suffix_keeps_consecutive(old_view.entries, offset as int);
                }
            }
        }
        Ok(())
    }

    /// Installs a snapshot that is newer than the commit index.
    pub fn apply_snapshot(&mut self, snapshot: Snapshot) -> (r: Result<(), RaftError>)
        requires
            old(self)@.wf(),
            snapshot.metadata.index < u64::MAX,
        ensures
            final(self)@.wf(),
            snapshot.spec_is_empty() ==> r is Ok && final(self)@ == old(self)@,
            !snapshot.spec_is_empty() && snapshot.metadata.index <= old(self).committed ==> r
                == Err::<(), RaftError>(RaftError::SnapshotOutOfDate(snapshot.metadata.index))
                && final(self)@ == old(self)@,
            !snapshot.spec_is_empty() && snapshot.metadata.index > old(self).committed ==> {
                &&& r is Ok
                &&& final(self)@ == (LogView {
                    committed: snapshot.metadata.index,
                    applied: snapshot.metadata.index,
                    stabled: snapshot.metadata.index,
                    entries: Seq::empty(),
                    snapshot: Some(snapshot@),
                })
            },
            consecutive(old(self)@.entries) ==> consecutive(final(self)@.entries),
    {
        if snapshot.is_empty() {
            return Ok(());
        }
        let snap_index = snapshot.metadata.index;
        if snap_index <= self.committed {
            return Err(RaftError::SnapshotOutOfDate(snap_index));
        }
        self.pending_snapshot = Some(snapshot);
        self.committed = snap_index;
        self.applied = snap_index;
        self.stabled = snap_index;
        self.entries.clear();
        proof {
            assert(self@.entries =~= Seq::<EntryView>::empty());
        }
        Ok(())
    }

    pub fn pending_snapshot(&self) -> (r: Option<&Snapshot>)
        ensures
            match r {
                Some(s) => self.pending_snapshot == Some(*s),
                None => self.pending_snapshot is None,
            },
    {
        self.pending_snapshot.as_ref()
    }

    pub fn take_pending_snapshot(&mut self) -> (r: Option<Snapshot>)
        ensures
            r == old(self).pending_snapshot,
            final(self)@ == (LogView { snapshot: None, ..old(self)@ }),
            consecutive(old(self)@.entries) ==> consecutive(final(self)@.entries),
    {
        self.pending_snapshot.take()
    }
}

/// The indices of `ents` follow one another.
pub open spec fn consecutive(ents: Seq<EntryView>) -> bool {
    forall|i: int| 0 <= i < ents.len() ==> #[trigger] ents[i].index == ents[0].index + i
}

impl LogView {
    /// The layout the log keeps: snapshot/first ..... applied .... committed
    /// .... stabled ..... last. The entries are consecutive and nothing is
    /// applied beyond the commit index. Without a pending snapshot every
    /// entry after the applied one is held; a pending snapshot lies at or
    /// after the applied and stable indices and the entries follow it.
    pub open spec fn laid_out(self) -> bool {
        &&& consecutive(self.entries)
        &&& self.applied <= self.committed
        &&& if self.has_snapshot() {
            let s = self.snapshot->0.index;
            &&& self.stabled <= s
            &&& self.applied <= s
            &&& self.entries.len() > 0 ==> self.entries[0].index == s + 1
        } else {
            self.first_index() <= self.applied + 1
        }
    }
}

/// Of consecutive entries, those with `lo < index <= hi` form a slice.
pub proof fn lemma_filter_window(s: Seq<EntryView>, lo: u64, hi: u64)
    requires
        consecutive(s),
        s.len() > 0,
        lo < hi,
    ensures
        s.filter(|e: EntryView| lo < e.index && e.index <= hi) =~= s.subrange(
            clamp(lo + 1 - s[0].index, s.len() as int),
            clamp(hi + 1 - s[0].index, s.len() as int),
        ),
    decreases s.len(),
{
    reveal(Seq::filter);
    let pred = |e: EntryView| lo < e.index && e.index <= hi;
    let p = s.drop_last();
    assert(s.filter(pred) == if pred(s.last()) {
        p.filter(pred).push(s.last())
    } else {
        p.filter(pred)
    });
    assert(s.last().index == s[0].index + s.len() - 1);
    let a = clamp(lo + 1 - s[0].index, s.len() as int);
    let b = clamp(hi + 1 - s[0].index, s.len() as int);
    if p.len() == 0 {
        assert(p.filter(pred) =~= Seq::<EntryView>::empty());
    } else {
        assert forall|i: int| 0 <= i < p.len() implies #[trigger] p[i].index == p[0].index + i by {
            assert(p[i] == s[i]);
        }
        lemma_filter_window(p, lo, hi);
        assert(p[0] == s[0]);
        if pred(s.last()) {
            assert(p.subrange(a, p.len() as int).push(s.last()) =~= s.subrange(a, b));
        } else {
            assert(p.subrange(clamp(lo + 1 - s[0].index, p.len() as int), clamp(
                hi + 1 - s[0].index,
                p.len() as int,
            )) =~= s.subrange(a, b));
        }
    }
}

/// Appending entries that continue or overwrite a log of consecutive
/// entries from its first index to one past its last keeps the entries
/// consecutive: the old entries below the first new one, then the new
/// ones, the last index being that of the last new entry.
pub proof fn lemma_append_keeps_consecutive(log: LogView, ents: Seq<EntryView>)
    requires
        consecutive(log.entries),
        consecutive(ents),
        ents.len() > 0,
        log.first_index() <= ents[0].index <= log.first_index() + log.entries.len(),
    ensures
        consecutive(log.append(ents).entries),
        log.append(ents).entries =~= log.entries.filter(|e: EntryView| e.index < ents[0].index) + ents,
        log.append(ents).last_index() == ents.last().index,
{
    reveal(Seq::filter);
    let a = log.append(ents);
    let first = log.first_index();
    let after = ents[0].index;
    let kept = if after <= first {
        Seq::<EntryView>::empty()
    } else if after - first < log.entries.len() {
        log.entries.subrange(0, after - first)
    } else {
        log.entries
    };
    assert(a.entries == kept + ents);
    assert(kept.len() == after - first);
    assert forall|i: int| 0 <= i < a.entries.len() implies #[trigger] a.entries[i].index == a.entries[0].index
        + i by {
        if kept.len() > 0 {
            assert(a.entries[0] == log.entries[0]);
            if i < kept.len() {
                assert(a.entries[i] == log.entries[i]);
            } else {
                assert(a.entries[i] == ents[i - kept.len()]);
            }
        } else {
            assert(a.entries[i] == ents[i]);
        }
    }
    if log.entries.len() > 0 {
        lemma_filter_below(log.entries, after);
        assert(kept =~= log.entries.take(clamp(after - log.entries[0].index, log.entries.len() as int)));
    } else {
        reveal(Seq::filter);
    }
    assert(a.entries.last() == ents.last());
}

/// Compaction keeps consecutive entries consecutive: what it leaves is a
/// suffix of them, and a suffix of consecutive entries is consecutive.
pub proof fn lemma_suffix_keeps_consecutive(s: Seq<EntryView>, k: int)
    requires
        consecutive(s),
        0 <= k <= s.len(),
    ensures
        consecutive(s.subrange(k, s.len() as int)),
{
    let t = s.subrange(k, s.len() as int);
    assert forall|i: int| 0 <= i < t.len() implies #[trigger] t[i].index == t[0].index + i by {
        assert(t[i] == s[k + i]);
        assert(t[0] == s[k]);
    }
}

/// `x` kept within `0..=hi`.
pub open spec fn clamp(x: int, hi: int) -> int {
    if x < 0 {
        0
    } else if x > hi {
        hi
    } else {
        x
    }
}

proof fn lemma_filter_below(s: Seq<EntryView>, after: u64)
    requires
        consecutive(s),
        s.len() > 0,
    ensures
        s.filter(|e: EntryView| e.index < after) =~= s.take(clamp(after - s[0].index, s.len() as int)),
    decreases s.len(),
{
    reveal(Seq::filter);
    let pred = |e: EntryView| e.index < after;
    let p = s.drop_last();
    assert(s.filter(pred) == if pred(s.last()) {
        p.filter(pred).push(s.last())
    } else {
        p.filter(pred)
    });
    if p.len() == 0 {
        assert(p.filter(pred) =~= Seq::<EntryView>::empty());
    }
    if p.len() > 0 {
        assert forall|i: int| 0 <= i < p.len() implies #[trigger] p[i].index == p[0].index + i by {
            assert(p[i] == s[i]);
        }
        lemma_filter_below(p, after);
        assert(p[0] == s[0]);
    }
    assert(s.last().index == s[0].index + s.len() - 1);
    let k = clamp(after - s[0].index, s.len() as int);
    if s.last().index < after {
        assert(k == s.len());
        assert(p.take(p.len() as int) =~= p);
        assert(s.take(k) =~= p.push(s.last()));
    } else {
        assert(p.take(k) =~= s.take(k));
    }
}

proof fn lemma_filter_all_below(s: Seq<EntryView>, after: u64)
    requires
        forall|i: int| 0 <= i < s.len() ==> #[trigger] s[i].index < after,
    ensures
        s.filter(|e: EntryView| e.index < after) =~= s,
    decreases s.len(),
{
    reveal(Seq::filter);
    if s.len() > 0 {
        lemma_filter_all_below(s.drop_last(), after);
        assert(s.drop_last().push(s.last()) =~= s);
    }
}

/// Reading a log back after an append gives the appended terms: when the
/// new entries continue or overwrite a log of consecutive entries (from
/// its first index to one past its last), every appended entry's term is
/// found at its index.
pub proof fn lemma_append_then_read_term(log: LogView, ents: Seq<EntryView>, i: int)
    requires
        log.wf(),
        consecutive(log.entries),
        consecutive(ents),
        0 <= i < ents.len(),
        forall|j: int| 0 <= j < ents.len() ==> log.committed < #[trigger] ents[j].index < u64::MAX,
        log.first_index() <= ents[0].index <= log.first_index() + log.entries.len(),
    ensures
        log.append(ents).term_sync(ents[i].index) == Some(ents[i].term),
{
    lemma_append_keeps_consecutive(log, ents);
    let a = log.append(ents);
    let first = log.first_index();
    let after = ents[0].index;
    let kept = if after <= first {
        Seq::<EntryView>::empty()
    } else if after - first < log.entries.len() {
        log.entries.subrange(0, after - first)
    } else {
        log.entries
    };
    assert(a.entries == kept + ents);
    assert(kept.len() == after - first);
    if kept.len() > 0 {
        assert(a.entries[0] == log.entries[0]);
    } else {
        assert(a.entries[0] == ents[0]);
    }
    assert(a.first_index() == first);
    assert(a.entries[ents[i].index - first] == ents[i]);
}

} // verus!
