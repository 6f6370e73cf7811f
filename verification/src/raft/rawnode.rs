use vstd::prelude::*;
use vstd::multiset::Multiset;
use crate::raft::log::{clamp, lemma_filter_window, LogView, RaftLog};
use crate::raft::progress::{has_key, keys_of, IdMap, Progress};
use crate::raft::raft::{Raft, RaftView};
use crate::raft::types::{
    blank_message, entries_view, messages_view, opt_snapshot_view, ConfChange, ConfChangeType,
    ConfState, Entry, EntryType, EntryView, HardState, Message, MessageType, MessageView,
    RaftConfig, RaftError, Snapshot, SnapshotView, StateType,
};

verus! {

/// State that need not be persisted: the leader and the role.
#[derive(Debug, Clone, Copy, PartialEq, Eq, Structural)]
pub struct SoftState {
    pub lead: u64,
    pub raft_state: StateType,
}

impl SoftState {
    pub fn new(lead: u64, raft_state: StateType) -> (r: Self)
        ensures
            r == (SoftState { lead, raft_state }),
    {
        SoftState { lead, raft_state }
    }

    pub fn is_updated(&self, other: &SoftState) -> (r: bool)
        ensures
            r == (*self != *other),
    {
        self.lead != other.lead || self.raft_state != other.raft_state
    }
}

/// Mathematical value of a `Ready`.
pub struct ReadyView {
    pub soft_state: Option<SoftState>,
    pub hard_state: HardState,
    pub entries: Seq<EntryView>,
    pub snapshot: Option<SnapshotView>,
    pub committed_entries: Seq<EntryView>,
    pub messages: Seq<MessageView>,
    pub must_sync: bool,
}

/// The updates the application must handle: persist `entries`, the hard
/// state and the snapshot, apply `committed_entries`, then send `messages`.
#[derive(Debug)]
pub struct Ready {
    pub soft_state: Option<SoftState>,
    pub hard_state: HardState,
    pub entries: Vec<Entry>,
    pub snapshot: Option<Snapshot>,
    pub committed_entries: Vec<Entry>,
    pub messages: Vec<Message>,
    pub must_sync: bool,
}

impl View for Ready {
    type V = ReadyView;

    open spec fn view(&self) -> ReadyView {
        ReadyView {
            soft_state: self.soft_state,
            hard_state: self.hard_state,
            entries: entries_view(self.entries@),
            snapshot: opt_snapshot_view(self.snapshot),
            committed_entries: entries_view(self.committed_entries@),
            messages: messages_view(self.messages@),
            must_sync: self.must_sync,
        }
    }
}

/// The empty hard state.
pub open spec fn zero_hard_state() -> HardState {
    HardState { term: 0, vote: 0, commit: 0 }
}

impl ReadyView {
    pub open spec fn empty() -> ReadyView {
        ReadyView {
            soft_state: None,
            hard_state: zero_hard_state(),
            entries: Seq::empty(),
            snapshot: None,
            committed_entries: Seq::empty(),
            messages: Seq::empty(),
            must_sync: false,
        }
    }

    pub open spec fn has_ready(self) -> bool {
        self.soft_state is Some || !self.hard_state.spec_is_empty() || self.entries.len() > 0
            || self.snapshot is Some || self.committed_entries.len() > 0 || self.messages.len() > 0
    }
}

impl Ready {
    pub fn new() -> (r: Self)
        ensures
            r@ == ReadyView::empty(),
    {
        let entries: Vec<Entry> = Vec::new();
        let committed_entries: Vec<Entry> = Vec::new();
        let messages: Vec<Message> = Vec::new();
        proof {
            assert(entries_view(entries@) =~= Seq::<EntryView>::empty());
            assert(messages_view(messages@) =~= Seq::<MessageView>::empty());
        }
        Ready {
            soft_state: None,
            hard_state: HardState { term: 0, vote: 0, commit: 0 },
            entries,
            snapshot: None,
            committed_entries,
            messages,
            must_sync: false,
        }
    }

    /// Whether there is anything to handle.
    pub fn has_ready(&self) -> (r: bool)
        ensures
            r == self@.has_ready(),
    {
        self.soft_state.is_some() || !self.hard_state.is_empty() || self.entries.len() > 0
            || self.snapshot.is_some() || self.committed_entries.len() > 0 || self.messages.len() > 0
    }
}

impl Default for Ready {
    fn default() -> (r: Self)
        ensures
            r@ == ReadyView::empty(),
    {
        Ready::new()
    }
}

/// Mathematical value of a `RawNode`.
pub struct RawNodeView {
    pub raft: RaftView,
    pub prev_soft_state: SoftState,
    pub prev_hard_state: HardState,
    pub prev_stabled: u64,
    pub prev_applied: u64,
}

impl RawNodeView {
    pub open spec fn soft_state(self) -> SoftState {
        SoftState { lead: self.raft.lead, raft_state: self.raft.state }
    }

    pub open spec fn hard_state(self) -> HardState {
        HardState { term: self.raft.term, vote: self.raft.vote, commit: self.raft.log.committed }
    }

    pub open spec fn hard_state_changed(self) -> bool {
        !self.hard_state().spec_is_empty() && self.hard_state() != self.prev_hard_state
    }

    pub open spec fn snapshot_pending(self) -> bool {
        self.raft.log.snapshot is Some && self.raft.log.snapshot->0.index != 0
    }

    /// `ready()` does not panic.
    pub open spec fn can_ready(self) -> bool {
        let log = self.raft.log;
        &&& log.offset_after(log.stabled) <= log.entries.len()
    }

    /// The `Ready` that `ready()` hands out.
    pub open spec fn ready(self) -> ReadyView {
        let log = self.raft.log;
        ReadyView {
            soft_state: if self.soft_state() != self.prev_soft_state {
                Some(self.soft_state())
            } else {
                None
            },
            hard_state: if self.hard_state_changed() {
                self.hard_state()
            } else {
                zero_hard_state()
            },
            entries: log.entries.subrange(log.offset_after(log.stabled), log.entries.len() as int),
            snapshot: if self.snapshot_pending() {
                log.snapshot
            } else {
                None
            },
            committed_entries: log.next_entries(),
            messages: self.raft.msgs,
            must_sync: self.hard_state_changed() || self.snapshot_pending(),
        }
    }

    pub open spec fn has_ready(self) -> bool {
        ||| self.soft_state() != self.prev_soft_state
        ||| self.hard_state_changed()
        ||| self.raft.log.last_index() > self.raft.log.stabled
        ||| self.snapshot_pending()
        ||| self.raft.log.applied < self.raft.log.committed
        ||| self.raft.msgs.len() > 0
    }

    /// The node after `advance(rd)`.
    pub open spec fn advance(self, rd: ReadyView) -> RawNodeView {
        let s0 = match rd.snapshot {
            Some(snap) => if snap.index != 0 {
                RawNodeView {
                    prev_stabled: snap.index,
                    prev_applied: snap.index,
                    raft: RaftView {
                        log: LogView {
                            stabled: snap.index,
                            applied: snap.index,
                            snapshot: None,
                            ..self.raft.log
                        },
                        ..self.raft
                    },
                    ..self
                }
            } else {
                self
            },
            None => self,
        };
        let s1 = match rd.soft_state {
            Some(ss) => RawNodeView { prev_soft_state: ss, ..s0 },
            None => s0,
        };
        let s2 = if !rd.hard_state.spec_is_empty() {
            RawNodeView { prev_hard_state: rd.hard_state, ..s1 }
        } else {
            s1
        };
        let s3 = if rd.entries.len() > 0 {
            let i = rd.entries.last().index;
            RawNodeView {
                prev_stabled: i,
                raft: RaftView { log: LogView { stabled: i, ..s2.raft.log }, ..s2.raft },
                ..s2
            }
        } else {
            s2
        };
        if rd.committed_entries.len() > 0 {
            let i = rd.committed_entries.last().index;
            RawNodeView {
                prev_applied: i,
                raft: RaftView { log: LogView { applied: i, ..s3.raft.log }, ..s3.raft },
                ..s3
            }
        } else {
            s3
        }
    }

    /// The membership after a change: this node and its peers, sorted.
    pub open spec fn conf_nodes(self) -> Seq<u64> {
        seq![self.raft.id] + keys_of(self.raft.prs)
    }
}

/// `s` is sorted in ascending order.
pub open spec fn sorted(s: Seq<u64>) -> bool {
    forall|i: int, j: int| 0 <= i <= j < s.len() ==> s[i] <= s[j]
}

/// Sorts `v` in ascending order.
fn sort_ids(v: &mut Vec<u64>)
    ensures
        sorted(final(v)@),
        final(v)@.to_multiset() == old(v)@.to_multiset(),
        final(v)@.len() == old(v)@.len(),
{
    let n: usize = v.len();
    let mut i: usize = 1;
    if n == 0 {
        return ;
    }
    while i < n
        invariant
            n == v@.len(),
            1 <= i <= n,
            sorted(v@.take(i as int)),
            v@.to_multiset() == old(v)@.to_multiset(),
        decreases n - i,
    {
        let mut j: usize = i;
        proof {
            assert forall|a: int, b: int| 0 <= a <= b <= i && a != j && b != j implies v@[a] <= v@[b] by {
                assert(v@.take(i as int)[a] == v@[a]);
                assert(v@.take(i as int)[b] == v@[b]);
            }
        }
        while j > 0 && v[j - 1] > v[j]
            invariant
                n == v@.len(),
                0 <= j <= i < n,
                v@.to_multiset() == old(v)@.to_multiset(),
                forall|a: int, b: int| 0 <= a <= b <= i && a != j && b != j ==> v@[a] <= v@[b],
                forall|b: int| j < b <= i ==> v@[j as int] <= v@[b],
            decreases j,
        {
            let ghost before = v@;
            let x = v[j - 1];
            let y = v[j];
            v.set(j - 1, y);
            v.set(j, x);
            proof {
                let s1 = before.update(j - 1, y);
                assert(v@ =~= s1.update(j as int, x));
                vstd::seq_lib::to_multiset_update(before, j - 1, y);
                vstd::seq_lib::to_multiset_update(s1, j as int, x);
                broadcast use vstd::multiset::group_multiset_axioms;
                broadcast use vstd::seq_lib::group_to_multiset_ensures;
                assert(before.contains(x));
                assert(before.contains(y));
                assert(s1[j as int] == y);
                let m = before.to_multiset();
                assert(m.count(x) > 0);
                assert(m.insert(y).remove(x).insert(x).remove(y) =~= m);
            }
            j -= 1;
        }
        i += 1;
    }
    proof {
        assert(v@.take(n as int) =~= v@);
    }
}

/// The interface of a Raft node for the application: it hands out `Ready`
/// batches and takes `advance` notices back.
pub struct RawNode {
    pub raft: Raft,
    pub prev_soft_state: SoftState,
    pub prev_hard_state: HardState,
    pub prev_stabled: u64,
    pub prev_applied: u64,
}

impl View for RawNode {
    type V = RawNodeView;

    open spec fn view(&self) -> RawNodeView {
        RawNodeView {
            raft: self.raft@,
            prev_soft_state: self.prev_soft_state,
            prev_hard_state: self.prev_hard_state,
            prev_stabled: self.prev_stabled,
            prev_applied: self.prev_applied,
        }
    }
}

/// Handing out a `Ready` and acknowledging it with `advance` leaves nothing
/// ready: the snapshot and the entries are stable, the committed entries
/// applied, the states recorded and the messages gone.
pub proof fn lemma_ready_then_advance_settles(n: RawNodeView)
    requires
        n.raft.log.wf(),
        n.raft.log.laid_out(),
        n.can_ready(),
    ensures
        !(RawNodeView { raft: RaftView { msgs: Seq::empty(), ..n.raft }, ..n }).advance(
            n.ready(),
        ).has_ready(),
{
    let log = n.raft.log;
    let m = RawNodeView { raft: RaftView { msgs: Seq::empty(), ..n.raft }, ..n };
    let rd = n.ready();
    let a = m.advance(rd);
    assert(a.soft_state() == n.soft_state());
    assert(a.hard_state() == n.hard_state());
    assert(a.raft.log.entries == log.entries);
    if log.entries.len() > 0 {
        let last = log.entries.len() - 1;
        assert(log.entries[last].index == log.entries[0].index + last);
        assert(log.first_index() == log.entries[0].index);
    }
    if rd.entries.len() > 0 {
        assert(rd.entries.last() == log.entries.last());
    }
    if log.applied < log.committed && log.entries.len() > 0 && log.committed >= log.entries[0].index {
        lemma_filter_window(log.entries, log.applied, log.committed);
        let lo = clamp(log.applied + 1 - log.entries[0].index, log.entries.len() as int);
        let hi = clamp(log.committed + 1 - log.entries[0].index, log.entries.len() as int);
        assert(rd.committed_entries == log.entries.subrange(lo, hi));
        assert(hi == log.committed + 1 - log.entries[0].index);
        assert(rd.committed_entries.last() == log.entries[hi - 1]);
    }
    if log.entries.len() == 0 || log.committed < log.entries[0].index {
        reveal(Seq::filter);
        if log.entries.len() > 0 {
            assert forall|i: int| 0 <= i < log.entries.len() implies !(log.applied
                < #[trigger] log.entries[i].index && log.entries[i].index <= log.committed) by {
                assert(log.entries[i].index == log.entries[0].index + i);
            }
            lemma_filter_none(log.entries, log.applied, log.committed);
        }
    }
}

/// `has_ready()` says whether the `Ready` that `ready()` would hand out
/// carries anything, for a log laid out as usual (consecutive entries, and
/// every committed entry that is not applied still held in memory).
pub proof fn lemma_has_ready_matches_ready(n: RawNodeView)
    requires
        n.raft.log.wf(),
        n.raft.log.laid_out(),
        n.can_ready(),
    ensures
        n.has_ready() == n.ready().has_ready(),
{
    let log = n.raft.log;
    let rd = n.ready();
    if !n.snapshot_pending() {
        if log.entries.len() > 0 {
            let last = log.entries.len() - 1;
            assert(log.entries[last].index == log.entries[0].index + last);
            assert(log.first_index() == log.entries[0].index);
            assert((rd.entries.len() > 0) == (log.last_index() > log.stabled));
            if log.applied < log.committed {
                lemma_filter_window(log.entries, log.applied, log.committed);
                let lo = clamp(log.applied + 1 - log.entries[0].index, log.entries.len() as int);
                let hi = clamp(log.committed + 1 - log.entries[0].index, log.entries.len() as int);
                assert(lo < hi);
                assert(rd.committed_entries.len() == hi - lo);
            } else {
                assert forall|i: int| 0 <= i < log.entries.len() implies !(log.applied
                    < #[trigger] log.entries[i].index && log.entries[i].index <= log.committed) by {}
                lemma_filter_none(log.entries, log.applied, log.committed);
            }
        } else {
            assert(log.applied == log.committed);
            lemma_filter_none(log.entries, log.applied, log.committed);
            assert(rd.entries.len() == 0);
        }
    }
}

/// A `Ready` must be synced to disk before its messages go out exactly when
/// it carries a new hard state (non-empty and different from the one last
/// recorded) or a snapshot.
pub proof fn lemma_ready_must_sync(n: RawNodeView)
    ensures
        ({
            let rd = n.ready();
            &&& (!rd.hard_state.spec_is_empty() && rd.hard_state != n.prev_hard_state)
                ==> rd.must_sync
            &&& rd.snapshot is Some ==> rd.must_sync
            &&& rd.must_sync ==> (!rd.hard_state.spec_is_empty() && rd.hard_state
                != n.prev_hard_state) || rd.snapshot is Some
        }),
{
}

/// What a `Ready` holds, for a log laid out as usual: to persist, exactly
/// the log's entries after the stable index; to apply, exactly the log's
/// entries after the applied index up to the commit index; to send, the
/// node's pending messages.
pub proof fn lemma_ready_contents(n: RawNodeView)
    requires
        n.raft.log.wf(),
        n.raft.log.laid_out(),
        n.can_ready(),
    ensures
        ({
            let rd = n.ready();
            let log = n.raft.log;
            &&& forall|i: int|
                0 <= i < rd.entries.len() ==> (#[trigger] rd.entries[i]).index > log.stabled
                    && log.entries.contains(rd.entries[i])
            &&& forall|i: int|
                0 <= i < log.entries.len() && (#[trigger] log.entries[i]).index > log.stabled
                    ==> rd.entries.contains(log.entries[i])
            &&& forall|i: int|
                0 <= i < rd.committed_entries.len() ==> log.applied < (
                #[trigger] rd.committed_entries[i]).index <= log.committed
                    && log.entries.contains(rd.committed_entries[i])
            &&& forall|i: int|
                0 <= i < log.entries.len() && log.applied < (#[trigger] log.entries[i]).index
                    <= log.committed ==> rd.committed_entries.contains(log.entries[i])
            &&& rd.messages == n.raft.msgs
        }),
{
    let rd = n.ready();
    let log = n.raft.log;
    let off = log.offset_after(log.stabled);
    let pred = |e: EntryView| log.applied < e.index && e.index <= log.committed;
    if log.entries.len() > 0 {
        assert(log.first_index() == log.entries[0].index);
    }
    assert forall|i: int| 0 <= i < rd.entries.len() implies (#[trigger] rd.entries[i]).index
        > log.stabled && log.entries.contains(rd.entries[i]) by {
        assert(rd.entries[i] == log.entries[off + i]);
        assert(log.entries[off + i].index == log.entries[0].index + off + i);
    }
    assert forall|i: int|
        0 <= i < log.entries.len() && (#[trigger] log.entries[i]).index > log.stabled implies rd.entries.contains(
        log.entries[i]) by {
        assert(log.entries[i].index == log.entries[0].index + i);
        assert(rd.entries[i - off] == log.entries[i]);
    }
    assert forall|i: int| 0 <= i < rd.committed_entries.len() implies log.applied < (
    #[trigger] rd.committed_entries[i]).index <= log.committed && log.entries.contains(
        rd.committed_entries[i],
    ) by {
        log.entries.lemma_filter_pred(pred, i);
        assert(rd.committed_entries.contains(rd.committed_entries[i]));
        log.entries.lemma_filter_contains_rev(pred, rd.committed_entries[i]);
    }
    assert forall|i: int|
        0 <= i < log.entries.len() && log.applied < (#[trigger] log.entries[i]).index
            <= log.committed implies rd.committed_entries.contains(log.entries[i]) by {
        log.entries.lemma_filter_contains(pred, i);
    }
}

proof fn lemma_filter_none(s: Seq<EntryView>, lo: u64, hi: u64)
    requires
        forall|i: int| 0 <= i < s.len() ==> !(lo < #[trigger] s[i].index && s[i].index <= hi),
    ensures
        s.filter(|e: EntryView| lo < e.index && e.index <= hi).len() == 0,
    decreases s.len(),
{
    reveal(Seq::filter);
    if s.len() > 0 {
        lemma_filter_none(s.drop_last(), lo, hi);
    }
}

} // verus!

verus! {

impl RawNode {
    /// The node's Raft state satisfies its invariant.
    pub open spec fn wf(&self) -> bool {
        self.raft@.wf()
    }

    /// Builds a node from its configuration and what storage holds.
    pub fn new(config: RaftConfig, hard_state: HardState, conf_state: ConfState, raft_log: RaftLog)
        -> (r: Result<RawNode, RaftError>)
        requires
            raft_log@.wf(),
            config.spec_validate() is Ok ==> config.election_tick * 2 <= usize::MAX,
            config.peers@.len() < usize::MAX,
            conf_state.nodes@.len() < usize::MAX,
        ensures
            config.spec_validate() is Err ==> r == Err::<RawNode, RaftError>(
                config.spec_validate()->Err_0,
            ),
            config.spec_validate() is Ok ==> r is Ok,
            r matches Ok(node) ==> {
                &&& node.wf()
                &&& node@.raft.term == hard_state.term
                &&& node@.raft.vote == hard_state.vote
                &&& node@.raft.log == (LogView { applied: config.applied, ..raft_log@ })
                &&& node@.raft.state == StateType::Follower
                &&& node@.raft.msgs.len() == 0
                &&& node@.prev_soft_state == node@.soft_state()
                &&& node@.prev_hard_state == node@.hard_state()
                &&& node@.prev_stabled == raft_log.stabled
                &&& node@.prev_applied == config.applied
            },
    {
        let raft = match Raft::new(config, hard_state, conf_state, raft_log) {
            Ok(r) => r,
            Err(e) => {
                return Err(e);
            },
        };
        let prev_soft_state = SoftState::new(raft.lead, raft.state);
        let prev_hard_state = HardState {
            term: raft.term,
            vote: raft.vote,
            commit: raft.raft_log.committed,
        };
        let prev_stabled = raft.raft_log.stabled;
        let prev_applied = raft.raft_log.applied;
        Ok(RawNode { raft, prev_soft_state, prev_hard_state, prev_stabled, prev_applied })
    }

    pub fn tick(&mut self)
        requires
            old(self).wf(),
            old(self)@.raft.tick(old(self).raft.random_election_timeout) is Some,
        ensures
            final(self).wf(),
            final(self)@ == (RawNodeView {
                raft: old(self)@.raft.tick(old(self).raft.random_election_timeout)->0,
                ..old(self)@
            }),
            final(self).raft.timer_ok(old(self).raft.random_election_timeout),
    {
        self.raft.tick();
    }

    /// Starts an election.
    pub fn campaign(&mut self) -> (r: Result<(), RaftError>)
        requires
            old(self).wf(),
            old(self)@.raft.step(blank_message(MessageType::MsgHup, 0, old(self).raft.id, 0)) is Some,
        ensures
            final(self).wf(),
            (final(self)@.raft, r) == old(self)@.raft.step(
                blank_message(MessageType::MsgHup, 0, old(self).raft.id, 0),
            )->0,
            final(self)@ == (RawNodeView { raft: final(self)@.raft, ..old(self)@ }),
            final(self).raft.timer_ok(old(self).raft.random_election_timeout),
    {
        let mut m = Message::new();
        m.msg_type = MessageType::MsgHup;
        m.from = self.raft.id;
        self.raft.step(m)
    }

    /// The proposal message carrying `data` as one entry of kind `entry_type`.
    pub open spec fn proposal(&self, entry_type: EntryType, data: Seq<u8>) -> MessageView {
        MessageView {
            entries: seq![EntryView { entry_type, term: self.raft.term, index: 0, data }],
            ..blank_message(MessageType::MsgPropose, 0, self.raft.id, 0)
        }
    }

    fn propose_entry(&mut self, entry: Entry) -> (r: Result<(), RaftError>)
        requires
            old(self).wf(),
            old(self)@.raft.step(old(self).proposal(entry.entry_type, entry.data@)) is Some,
            entry.term == old(self).raft.term,
            entry.index == 0,
        ensures
            final(self).wf(),
            (final(self)@.raft, r) == old(self)@.raft.step(
                old(self).proposal(entry.entry_type, entry.data@),
            )->0,
            final(self)@ == (RawNodeView { raft: final(self)@.raft, ..old(self)@ }),
            final(self).raft.timer_ok(old(self).raft.random_election_timeout),
    {
        let ghost e = entry@;
        let mut m = Message::new();
        m.msg_type = MessageType::MsgPropose;
        m.from = self.raft.id;
        m.entries = vec![entry];
        proof {
            assert(entries_view(m.entries@) =~= seq![e]);
            assert(m@ == self.proposal(e.entry_type, e.data));
        }
        self.raft.step(m)
    }

    /// Whether `campaign()` can run (see `Raft::can_step`).
    pub fn can_campaign(&self) -> (r: bool)
        requires
            self.wf(),
        ensures
            r == (self@.raft.step(blank_message(MessageType::MsgHup, 0, self.raft.id, 0)) is Some),
    {
        let mut m = Message::new();
        m.msg_type = MessageType::MsgHup;
        m.from = self.raft.id;
        self.raft.can_step(&m)
    }

    /// Whether `tick()` can run (see `Raft::can_tick`).
    pub fn can_tick(&self) -> (r: bool)
        requires
            self.wf(),
        ensures
            r == (self@.raft.tick(self.raft.random_election_timeout) is Some),
    {
        self.raft.can_tick()
    }

    /// Whether `step(m)` can run (see `Raft::can_step`).
    pub fn can_step(&self, m: &Message) -> (r: bool)
        requires
            self.wf(),
        ensures
            r == (self@.raft.step(m@) is Some),
    {
        self.raft.can_step(m)
    }

    /// Whether proposing `data` as an entry of kind `entry_type` can run:
    /// the condition of `propose` and `propose_conf_change`.
    pub fn can_propose(&self, entry_type: EntryType, data: &Vec<u8>) -> (r: bool)
        requires
            self.wf(),
        ensures
            r == (self@.raft.step(self.proposal(entry_type, data@)) is Some),
    {
        let d = data.clone();
        proof {
            assert(d@ =~= data@);
        }
        let entry = match entry_type {
            EntryType::Normal => Entry::new_normal(self.raft.term, 0, d),
            EntryType::ConfChange => Entry::new_conf_change(self.raft.term, 0, d),
        };
        let ghost e = entry@;
        let mut m = Message::new();
        m.msg_type = MessageType::MsgPropose;
        m.from = self.raft.id;
        m.entries = vec![entry];
        proof {
            assert(entries_view(m.entries@) =~= seq![e]);
            assert(m@ == self.proposal(entry_type, data@));
        }
        self.raft.can_step(&m)
    }

    /// Proposes `data` as a new normal entry.
    pub fn propose(&mut self, data: Vec<u8>) -> (r: Result<(), RaftError>)
        requires
            old(self).wf(),
            old(self)@.raft.step(old(self).proposal(EntryType::Normal, data@)) is Some,
        ensures
            final(self).wf(),
            (final(self)@.raft, r) == old(self)@.raft.step(
                old(self).proposal(EntryType::Normal, data@),
            )->0,
            final(self)@ == (RawNodeView { raft: final(self)@.raft, ..old(self)@ }),
            final(self).raft.timer_ok(old(self).raft.random_election_timeout),
    {
        let entry = Entry::new_normal(self.raft.term, 0, data);
        self.propose_entry(entry)
    }

    /// Proposes a membership change, given as its encoded bytes `data`.
    pub fn propose_conf_change(&mut self, data: Vec<u8>) -> (r: Result<(), RaftError>)
        requires
            old(self).wf(),
            old(self)@.raft.step(old(self).proposal(EntryType::ConfChange, data@)) is Some,
        ensures
            final(self).wf(),
            (final(self)@.raft, r) == old(self)@.raft.step(
                old(self).proposal(EntryType::ConfChange, data@),
            )->0,
            final(self)@ == (RawNodeView { raft: final(self)@.raft, ..old(self)@ }),
            final(self).raft.timer_ok(old(self).raft.random_election_timeout),
    {
        let entry = Entry::new_conf_change(self.raft.term, 0, data);
        self.propose_entry(entry)
    }

    /// Hands a message from the network to the state machine. Local
    /// messages are refused, and so are responses from unknown peers.
    pub fn step(&mut self, m: Message) -> (r: Result<(), RaftError>)
        requires
            old(self).wf(),
            !m.msg_type.spec_is_local() && (m.msg_type.spec_is_response() ==> has_key(
                old(self)@.raft.prs,
                m.from,
            )) ==> old(self)@.raft.step(m@) is Some,
        ensures
            final(self).wf(),
            m.msg_type.spec_is_local() ==> r == Err::<(), RaftError>(RaftError::LocalMessage)
                && final(self)@ == old(self)@ && final(self).raft.random_election_timeout
                == old(self).raft.random_election_timeout,
            !m.msg_type.spec_is_local() && m.msg_type.spec_is_response() && !has_key(
                old(self)@.raft.prs,
                m.from,
            ) ==> r == Err::<(), RaftError>(RaftError::PeerNotFound(m.from)) && final(self)@
                == old(self)@ && final(self).raft.random_election_timeout
                == old(self).raft.random_election_timeout,
            !m.msg_type.spec_is_local() && (m.msg_type.spec_is_response() ==> has_key(
                old(self)@.raft.prs,
                m.from,
            )) ==> {
                &&& (final(self)@.raft, r) == old(self)@.raft.step(m@)->0
                &&& final(self)@ == (RawNodeView { raft: final(self)@.raft, ..old(self)@ })
                &&& final(self).raft.timer_ok(old(self).raft.random_election_timeout)
            },
    {
        if m.msg_type.is_local() {
            return Err(RaftError::LocalMessage);
        }
        if m.msg_type.is_response() {
            if !self.raft.prs.contains_key(m.from) {
                return Err(RaftError::PeerNotFound(m.from));
            }
        }
        self.raft.step(m)
    }

    /// Collects what the application must handle, and hands out the
    /// pending messages.
    pub fn ready(&mut self) -> (r: Ready)
        requires
            old(self).wf(),
            old(self)@.can_ready(),
        ensures
            final(self).wf(),
            r@ == old(self)@.ready(),
            final(self)@ == (RawNodeView {
                raft: RaftView { msgs: Seq::empty(), ..old(self)@.raft },
                ..old(self)@
            }),
            final(self).raft.random_election_timeout == old(self).raft.random_election_timeout,
    {
        let mut ready = Ready::new();
        let current_soft_state = SoftState::new(self.raft.lead, self.raft.state);
        if current_soft_state.is_updated(&self.prev_soft_state) {
            ready.soft_state = Some(current_soft_state);
        }
        let current_hard_state = HardState {
            term: self.raft.term,
            vote: self.raft.vote,
            commit: self.raft.raft_log.committed,
        };
        if !current_hard_state.is_empty() && current_hard_state != self.prev_hard_state {
            ready.hard_state = current_hard_state;
            ready.must_sync = true;
        }
        ready.entries = self.raft.raft_log.unstable_entries();
        if let Some(snapshot) = self.raft.raft_log.pending_snapshot() {
            if !snapshot.is_empty() {
                ready.snapshot = Some(snapshot.clone());
                ready.must_sync = true;
            }
        }
        ready.committed_entries = self.raft.raft_log.next_entries();
        let mut messages: Vec<Message> = Vec::new();
        std::mem::swap(&mut messages, &mut self.raft.msgs);
        ready.messages = messages;
        proof {
            assert(messages_view(self.raft.msgs@) =~= Seq::<MessageView>::empty());
        }
        ready
    }

    /// Whether `ready()` would hand out anything.
    pub fn has_ready(&self) -> (r: bool)
        requires
            self.wf(),
        ensures
            r == self@.has_ready(),
    {
        let current_soft_state = SoftState::new(self.raft.lead, self.raft.state);
        if current_soft_state.is_updated(&self.prev_soft_state) {
            return true;
        }
        let current_hard_state = HardState {
            term: self.raft.term,
            vote: self.raft.vote,
            commit: self.raft.raft_log.committed,
        };
        if !current_hard_state.is_empty() && current_hard_state != self.prev_hard_state {
            return true;
        }
        let last_index = self.raft.raft_log.last_index();
        if last_index > self.raft.raft_log.stabled {
            return true;
        }
        if let Some(snapshot) = self.raft.raft_log.pending_snapshot() {
            if !snapshot.is_empty() {
                return true;
            }
        }
        if self.raft.raft_log.applied < self.raft.raft_log.committed {
            return true;
        }
        if self.raft.msgs.len() > 0 {
            return true;
        }
        false
    }

    /// Records that the application handled `rd`.
    pub fn advance(&mut self, rd: Ready)
        ensures
            final(self)@ == old(self)@.advance(rd@),
            final(self).raft.random_election_timeout == old(self).raft.random_election_timeout,
            old(self).wf() && final(self)@.raft.log.wf() ==> final(self).wf(),
    {
        if let Some(snapshot) = &rd.snapshot {
            if !snapshot.is_empty() {
                self.prev_stabled = snapshot.metadata.index;
                self.prev_applied = snapshot.metadata.index;
                self.raft.raft_log.stabled = snapshot.metadata.index;
                self.raft.raft_log.applied = snapshot.metadata.index;
                let _ = self.raft.raft_log.take_pending_snapshot();
            }
        }
        if let Some(soft_state) = rd.soft_state {
            self.prev_soft_state = soft_state;
        }
        if !rd.hard_state.is_empty() {
            self.prev_hard_state = rd.hard_state;
        }
        if rd.entries.len() > 0 {
            let last = rd.entries[rd.entries.len() - 1].index;
            self.prev_stabled = last;
            self.raft.raft_log.stabled = last;
        }
        if rd.committed_entries.len() > 0 {
            let last = rd.committed_entries[rd.committed_entries.len() - 1].index;
            self.prev_applied = last;
            self.raft.raft_log.applied = last;
        }
    }

    /// Applies a membership change and returns the resulting membership:
    /// this node and its peers, sorted.
    pub fn apply_conf_change(&mut self, cc: &ConfChange) -> (r: ConfState)
        requires
            old(self).wf(),
            old(self)@.raft.prs.len() + 1 < usize::MAX,
        ensures
            final(self).wf(),
            final(self)@ == (RawNodeView {
                raft: match cc.change_type {
                    ConfChangeType::AddNode => old(self)@.raft.add_node(cc.node_id),
                    ConfChangeType::RemoveNode => old(self)@.raft.remove_node(cc.node_id),
                },
                ..old(self)@
            }),
            final(self).raft.random_election_timeout == old(self).raft.random_election_timeout,
            sorted(r.nodes@),
            r.nodes@.to_multiset() == final(self)@.conf_nodes().to_multiset(),
    {
        match cc.change_type {
            ConfChangeType::AddNode => {
                self.raft.add_node(cc.node_id);
            },
            ConfChangeType::RemoveNode => {
                self.raft.remove_node(cc.node_id);
            },
        }
        let mut nodes: Vec<u64> = Vec::new();
        nodes.push(self.raft.id);
        let keys = self.raft.prs.keys();
        let mut i: usize = 0;
        while i < keys.len()
            invariant
                0 <= i <= keys@.len(),
                nodes@ =~= seq![self.raft.id] + keys@.take(i as int),
            decreases keys@.len() - i,
        {
            nodes.push(keys[i]);
            proof {
                assert(keys@.take(i + 1) =~= keys@.take(i as int).push(keys@[i as int]));
            }
            i += 1;
        }
        proof {
            assert(keys@.take(keys@.len() as int) =~= keys@);
        }
        sort_ids(&mut nodes);
        ConfState { nodes }
    }

    /// The peers' progress, when this node leads.
    pub fn get_progress(&self) -> (r: Option<IdMap<Progress>>)
        ensures
            self.raft.state != StateType::Leader ==> r is None,
            self.raft.state == StateType::Leader ==> (r matches Some(p) && p@ == self@.raft.prs),
    {
        if self.raft.state != StateType::Leader {
            return None;
        }
        Some(self.raft.prs.copy())
    }

    /// Asks the leader to hand leadership to `transferee`: a caught-up
    /// peer is told to campaign at once, a lagging one is sent the entries
    /// it misses (see `RaftView::transfer_to`).
    pub fn transfer_leader(&mut self, transferee: u64) -> (r: Result<(), RaftError>)
        requires
            old(self).wf(),
        ensures
            final(self).wf(),
            final(self).raft.timer_ok(old(self).raft.random_election_timeout),
            old(self).raft.state != StateType::Leader ==> r == Err::<(), RaftError>(
                RaftError::NotLeader,
            ) && final(self)@ == old(self)@,
            old(self).raft.state == StateType::Leader && transferee == old(self).raft.id ==> r is Ok
                && final(self)@ == old(self)@,
            old(self).raft.state == StateType::Leader && transferee != old(self).raft.id && !has_key(
                old(self)@.raft.prs,
                transferee,
            ) ==> r == Err::<(), RaftError>(RaftError::PeerNotFound(transferee)) && final(self)@
                == old(self)@,
            old(self).raft.state == StateType::Leader && transferee != old(self).raft.id && has_key(
                old(self)@.raft.prs,
                transferee,
            ) ==> r is Ok && final(self)@ == (RawNodeView {
                raft: old(self)@.raft.transfer_to(transferee),
                ..old(self)@
            }),
    {
        if self.raft.state != StateType::Leader {
            return Err(RaftError::NotLeader);
        }
        if transferee == self.raft.id {
            return Ok(());
        }
        if !self.raft.prs.contains_key(transferee) {
            return Err(RaftError::PeerNotFound(transferee));
        }
        let mut m = Message::new();
        m.msg_type = MessageType::MsgTransferLeader;
        m.from = self.raft.id;
        m.to = transferee;
        self.raft.step(m)
    }

    pub fn get_raft(&self) -> (r: &Raft)
        ensures
            r == &self.raft,
    {
        &self.raft
    }

    pub fn get_raft_mut(&mut self) -> (r: &mut Raft)
        ensures
            *r == old(self).raft,
            *final(self) == (RawNode { raft: *final(r), ..*old(self) }),
    {
        &mut self.raft
    }
}

} // verus!
