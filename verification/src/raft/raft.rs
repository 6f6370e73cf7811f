use vstd::prelude::*;
use crate::raft::log::{LogView, RaftLog};
use crate::raft::progress::{
    distinct_keys, has_key, inserted, key_pos, keys_of, lemma_key_pos, removed, value_of, IdMap,
    Progress,
};
use crate::raft::types::{
    blank_message, clone_entries, entries_view, messages_view, ConfState, Entry, EntryType, EntryView,
    HardState, Message, MessageType, MessageView, RaftConfig, RaftError, StateType, NONE,
};

verus! {

// ---------------------------------------------------------------------------
// Counting helpers
// ---------------------------------------------------------------------------

/// How many elements of `s` are at least `v`.
pub open spec fn count_ge(s: Seq<u64>, v: u64) -> nat
    decreases s.len(),
{
    if s.len() == 0 {
        0
    } else {
        count_ge(s.drop_last(), v) + if s.last() >= v { 1nat } else { 0nat }
    }
}

/// `v` is the `k`-th largest element of `s` (counting from 1): it occurs in
/// `s`, at least `k` elements are at least `v`, and fewer than `k` elements
/// are at least any larger element of `s`.
pub open spec fn is_kth_largest(s: Seq<u64>, k: int, v: u64) -> bool {
    &&& s.contains(v)
    &&& count_ge(s, v) >= k
    &&& forall|i: int| 0 <= i < s.len() && s[i] > v ==> count_ge(s, #[trigger] s[i]) < k
}

/// The `k`-th largest element of `s`.
pub open spec fn kth_largest(s: Seq<u64>, k: int) -> u64 {
    choose|v: u64| is_kth_largest(s, k, v)
}

/// How many votes in `s` equal `b`.
pub open spec fn count_votes(s: Seq<(u64, bool)>, b: bool) -> nat
    decreases s.len(),
{
    if s.len() == 0 {
        0
    } else {
        count_votes(s.drop_last(), b) + if s.last().1 == b { 1nat } else { 0nat }
    }
}

pub proof fn lemma_count_ge_monotone(s: Seq<u64>, v: u64, w: u64)
    requires
        v <= w,
    ensures
        count_ge(s, w) <= count_ge(s, v),
    decreases s.len(),
{
    if s.len() > 0 {
        lemma_count_ge_monotone(s.drop_last(), v, w);
    }
}

pub proof fn lemma_count_ge_all(s: Seq<u64>, v: u64)
    requires
        forall|i: int| 0 <= i < s.len() ==> s[i] >= v,
    ensures
        count_ge(s, v) == s.len(),
    decreases s.len(),
{
    if s.len() > 0 {
        lemma_count_ge_all(s.drop_last(), v);
    }
}

pub proof fn lemma_kth_largest_unique(s: Seq<u64>, k: int, v: u64, w: u64)
    requires
        is_kth_largest(s, k, v),
        is_kth_largest(s, k, w),
    ensures
        v == w,
{
    if v < w {
        let i = choose|i: int| 0 <= i < s.len() && s[i] == w;
        assert(s[i] > v);
    } else if w < v {
        let i = choose|i: int| 0 <= i < s.len() && s[i] == v;
        assert(s[i] > w);
    }
}

// ---------------------------------------------------------------------------
// The mathematical model of a Raft node
// ---------------------------------------------------------------------------

/// Mathematical value of a Raft node. The randomized election timeout is
/// left out: each operation states separately what it does to it.
pub struct RaftView {
    pub id: u64,
    pub term: u64,
    pub vote: u64,
    pub log: LogView,
    pub prs: Seq<(u64, Progress)>,
    pub state: StateType,
    pub votes: Seq<(u64, bool)>,
    pub msgs: Seq<MessageView>,
    pub lead: u64,
    pub heartbeat_timeout: usize,
    pub election_timeout: usize,
    pub heartbeat_elapsed: usize,
    pub election_elapsed: usize,
}

/// A reply of kind `msg_type` with the given rejection flag and index.
pub open spec fn reply(
    msg_type: MessageType,
    to: u64,
    from: u64,
    term: u64,
    reject: bool,
    index: u64,
) -> MessageView {
    MessageView { reject, index, ..blank_message(msg_type, to, from, term) }
}

/// The entries a leader appends for proposed entries `ents` after index `last`.
pub open spec fn proposal_entries(ents: Seq<EntryView>, term: u64, last: u64) -> Seq<EntryView> {
    Seq::new(
        ents.len(),
        |i: int|
            EntryView {
                entry_type: if ents[i].entry_type == EntryType::ConfChange {
                    EntryType::ConfChange
                } else {
                    EntryType::Normal
                },
                term,
                index: (last + 1 + i) as u64,
                data: ents[i].data,
            },
    )
}

/// The entries of an append that lie past the commit index; those at or
/// below it are committed already and are passed over.
pub open spec fn new_entries(ents: Seq<EntryView>, committed: u64) -> Seq<EntryView> {
    ents.filter(|e: EntryView| e.index > committed)
}

/// Whether an append for a peer whose next index is `next` can be built
/// from a log whose first index is `first`, whose last index is `last` and
/// which holds `len` entries.
pub open spec fn send_ok(next: u64, first: int, last: int, len: int) -> bool {
    next > last + 1 || (next >= 1 && (next <= last ==> (first <= next && next - first
        <= if last - first + 1 <= len {
        last - first + 1
    } else {
        len
    })))
}

/// How many of the entries of `log` an append starting at `after` keeps.
pub open spec fn kept_len(log: LogView, after: int) -> int {
    if after <= log.first_index() {
        0
    } else if after - log.first_index() < log.entries.len() {
        after - log.first_index()
    } else {
        log.entries.len() as int
    }
}


/// The first index of the log after `n` entries are appended right after
/// its last one.
pub open spec fn first_after(log: LogView, n: int) -> int {
    if n == 0 {
        log.first_index()
    } else if kept_len(log, log.last_index() + 1) == 0 {
        log.last_index() + 1
    } else {
        log.first_index()
    }
}

/// The number of entries the log holds after `n` entries are appended
/// right after its last one.
pub open spec fn len_after(log: LogView, n: int) -> int {
    if n == 0 {
        log.entries.len() as int
    } else {
        kept_len(log, log.last_index() + 1) + n
    }
}

/// Every peer can be sent an append once `n` entries have been appended
/// right after the last one.
pub open spec fn peers_reachable_after(s: RaftView, n: int) -> bool {
    forall|i: int|
        0 <= i < s.prs.len() ==> send_ok(
            #[trigger] s.prs[i].1.next_index,
            first_after(s.log, n),
            s.log.last_index() + n,
            len_after(s.log, n),
        )
}

/// `become_leader` can run: its no-op entry fits below `u64::MAX`, and an
/// append to every peer can be built once it is in the log.
pub open spec fn leader_possible(log: LogView, prs: Seq<(u64, Progress)>) -> bool {
    log.last_index() + 1 < u64::MAX && (prs.len() == 0 || send_ok(
        (log.last_index() + 1) as u64,
        first_after(log, 1),
        log.last_index() + 1,
        len_after(log, 1),
    ))
}

/// A campaign can run: the term can grow, and a lone node can become
/// leader.
pub open spec fn campaign_possible(s: RaftView) -> bool {
    s.term < u64::MAX && (s.prs.len() != 0 || s.log.last_index() + 1 < u64::MAX)
}

/// Handling append `m` in `term` does not panic.
pub open spec fn append_possible(log: LogView, term: u64, m: MessageView) -> bool {
    ||| m.term < term
    ||| m.index > log.last_index()
    ||| (m.index > 0 && log.term_sync(m.index) is None)
    ||| (m.index > 0 && log.term_sync(m.index)->0 != m.log_term)
    ||| log.can_append(new_entries(m.entries, log.committed))
}

/// Handling snapshot message `m` does not panic.
pub open spec fn snapshot_possible(log: LogView, m: MessageView) -> bool {
    match m.snapshot {
        None => true,
        Some(sn) => sn.index <= log.committed || sn.index < u64::MAX,
    }
}

impl RaftView {
    /// Well-formedness of a node.
    pub open spec fn wf(self) -> bool {
        &&& self.log.wf()
        &&& distinct_keys(self.prs)
        &&& !has_key(self.prs, self.id)
        &&& self.prs.len() < usize::MAX
        &&& distinct_keys(self.votes)
        &&& self.election_timeout * 2 <= usize::MAX
    }

    pub open spec fn quorum(self) -> int {
        ((self.prs.len() + 1) / 2 + 1) as int
    }

    pub open spec fn push(self, m: MessageView) -> RaftView {
        RaftView { msgs: self.msgs.push(m), ..self }
    }

    /// The node as a follower of `lead` in `term`; the vote it cast is
    /// kept while the term stays the same.
    pub open spec fn become_follower(self, term: u64, lead: u64) -> RaftView {
        RaftView {
            term,
            lead,
            state: StateType::Follower,
            vote: if term == self.term {
                self.vote
            } else {
                NONE
            },
            votes: Seq::empty(),
            election_elapsed: 0,
            ..self
        }
    }

    pub open spec fn become_candidate(self) -> RaftView {
        RaftView {
            term: (self.term + 1) as u64,
            state: StateType::Candidate,
            vote: self.id,
            votes: seq![(self.id, true)],
            lead: NONE,
            election_elapsed: 0,
            ..self
        }
    }

    /// `send_append(to)` does not panic.
    pub open spec fn append_safe(self, to: u64) -> bool {
        match value_of(self.prs, to) {
            None => true,
            Some(p) => send_ok(
                p.next_index,
                self.log.first_index(),
                self.log.last_index() as int,
                self.log.entries.len() as int,
            ),
        }
    }

    /// The append message `send_append(to)` sends, if any.
    pub open spec fn append_msg(self, to: u64) -> Option<MessageView> {
        match value_of(self.prs, to) {
            None => None,
            Some(p) => {
                let next = p.next_index;
                let last = self.log.last_index();
                if next > last + 1 {
                    None
                } else {
                    let first = self.log.first_index();
                    let end = if last - first + 1 <= self.log.entries.len() {
                        last - first + 1
                    } else {
                        self.log.entries.len() as int
                    };
                    let ents = if next <= last {
                        self.log.entries.subrange(next - first, end)
                    } else {
                        Seq::empty()
                    };
                    let prev_term = if next > 0 {
                        match self.log.term_sync((next - 1) as u64) {
                            Some(t) => t,
                            None => 0,
                        }
                    } else {
                        0
                    };
                    Some(
                        MessageView {
                            log_term: prev_term,
                            index: (next - 1) as u64,
                            entries: ents,
                            commit: self.log.committed,
                            ..blank_message(MessageType::MsgAppend, to, self.id, self.term)
                        },
                    )
                }
            },
        }
    }

    pub open spec fn send_append(self, to: u64) -> RaftView {
        match self.append_msg(to) {
            Some(m) => self.push(m),
            None => self,
        }
    }

    /// The append messages for the first `n` peers.
    pub open spec fn append_msgs(self, n: int) -> Seq<MessageView>
        decreases n,
    {
        if n <= 0 {
            Seq::empty()
        } else {
            let k = self.prs[n - 1].0;
            self.append_msgs(n - 1) + if k != self.id {
                match self.append_msg(k) {
                    Some(m) => seq![m],
                    None => Seq::empty(),
                }
            } else {
                Seq::empty()
            }
        }
    }

    /// `bcast_append()` does not panic.
    pub open spec fn bcast_safe(self) -> bool {
        forall|i: int| 0 <= i < self.prs.len() ==> #[trigger] self.append_safe(self.prs[i].0)
    }

    pub open spec fn bcast_append(self) -> Option<RaftView> {
        if self.bcast_safe() {
            Some(RaftView { msgs: self.msgs + self.append_msgs(self.prs.len() as int), ..self })
        } else {
            None
        }
    }

    /// The heartbeats for the first `n` peers.
    pub open spec fn heartbeat_msgs(self, n: int) -> Seq<MessageView>
        decreases n,
    {
        if n <= 0 {
            Seq::empty()
        } else {
            let k = self.prs[n - 1].0;
            self.heartbeat_msgs(n - 1) + if k != self.id {
                seq![
                    MessageView {
                        commit: self.log.committed,
                        ..blank_message(MessageType::MsgHeartbeat, k, self.id, self.term)
                    },
                ]
            } else {
                Seq::empty()
            }
        }
    }

    pub open spec fn bcast_heartbeat(self) -> RaftView {
        RaftView { msgs: self.msgs + self.heartbeat_msgs(self.prs.len() as int), ..self }
    }

    /// The match indices of the peers, in order.
    pub open spec fn match_indices(self) -> Seq<u64> {
        self.prs.map_values(|p: (u64, Progress)| p.1.match_index)
    }

    /// How far each node's log matches the leader's: the peers' match
    /// indices, then the leader's own last index.
    pub open spec fn replicated(self) -> Seq<u64> {
        self.match_indices().push(self.log.last_index())
    }

    /// A leader commits the highest index held by a majority of the
    /// cluster (its own log counted) once the entry there is of its term.
    pub open spec fn maybe_commit(self) -> RaftView {
        if self.state != StateType::Leader {
            self
        } else {
            let c = kth_largest(self.replicated(), self.quorum());
            if c > self.log.committed && self.log.term_sync(c) == Some(self.term) {
                RaftView { log: LogView { committed: c, ..self.log }, ..self }
            } else {
                self
            }
        }
    }

    pub open spec fn become_leader(self) -> Option<RaftView> {
        let last = self.log.last_index();
        if last + 1 >= u64::MAX {
            None
        } else {
            let next = (last + 1) as u64;
            let noop = EntryView {
                entry_type: EntryType::Normal,
                term: self.term,
                index: next,
                data: Seq::empty(),
            };
            let r = RaftView {
                state: StateType::Leader,
                lead: self.id,
                heartbeat_elapsed: 0,
                prs: self.prs.map_values(
                    |p: (u64, Progress)| (p.0, Progress { next_index: next, match_index: 0 }),
                ),
                log: self.log.append(seq![noop]),
                ..self
            };
            r.bcast_append()
        }
    }

    /// The vote requests of a campaign for the first `n` peers.
    pub open spec fn vote_requests(self, n: int, last_term: u64, last: u64) -> Seq<MessageView>
        decreases n,
    {
        if n <= 0 {
            Seq::empty()
        } else {
            let k = self.prs[n - 1].0;
            self.vote_requests(n - 1, last_term, last) + if k != self.id {
                seq![
                    MessageView {
                        log_term: last_term,
                        index: last,
                        ..blank_message(MessageType::MsgRequestVote, k, self.id, self.term)
                    },
                ]
            } else {
                Seq::empty()
            }
        }
    }

    pub open spec fn campaign(self) -> Option<(RaftView, Result<(), RaftError>)> {
        if self.term + 1 > u64::MAX {
            None
        } else {
            let r = self.become_candidate();
            if r.quorum() == 1 {
                match r.become_leader() {
                    Some(l) => Some((l, Ok(()))),
                    None => None,
                }
            } else {
                let last = r.log.last_index();
                match r.log.term_sync(last) {
                    None => Some((r, Err(RaftError::TermUnavailable(last)))),
                    Some(lt) => Some(
                        (
                            RaftView {
                                msgs: r.msgs + r.vote_requests(r.prs.len() as int, lt, last),
                                ..r
                            },
                            Ok(()),
                        ),
                    ),
                }
            }
        }
    }

    /// A follower's handling of an append: refused when of an older term
    /// or when the entry before the new ones does not match; otherwise the
    /// entries past the commit index are written, and the commit index
    /// moves up to the leader's, but no further than the last entry the
    /// append carried. `None` when the append would panic.
    pub open spec fn handle_append_entries(self, m: MessageView) -> Option<
        (RaftView, Result<(), RaftError>),
    > {
        if m.term < self.term {
            Some(
                (
                    self.push(reply(MessageType::MsgAppendResponse, m.from, self.id, self.term, true, 0)),
                    Ok(()),
                ),
            )
        } else {
            let r = RaftView { term: m.term, lead: m.from, ..self };
            let last = r.log.last_index();
            if m.index > last {
                Some(
                    (
                        r.push(reply(MessageType::MsgAppendResponse, m.from, r.id, r.term, true, last)),
                        Ok(()),
                    ),
                )
            } else if m.index > 0 && r.log.term_sync(m.index) is None {
                Some((r, Err(RaftError::TermUnavailable(m.index))))
            } else if m.index > 0 && r.log.term_sync(m.index)->0 != m.log_term {
                Some(
                    (
                        r.push(
                            reply(
                                MessageType::MsgAppendResponse,
                                m.from,
                                r.id,
                                r.term,
                                true,
                                (m.index - 1) as u64,
                            ),
                        ),
                        Ok(()),
                    ),
                )
            } else if !r.log.can_append(new_entries(m.entries, r.log.committed)) {
                None
            } else {
                let log2 = r.log.append(new_entries(m.entries, r.log.committed));
                let last_new = if m.entries.len() > 0 {
                    m.entries.last().index
                } else {
                    m.index
                };
                let bound = if last_new <= log2.last_index() {
                    last_new
                } else {
                    log2.last_index()
                };
                let target = if m.commit <= bound {
                    m.commit
                } else {
                    bound
                };
                let log3 = if target > log2.committed {
                    LogView { committed: target, ..log2 }
                } else {
                    log2
                };
                Some(
                    (
                        RaftView { log: log3, ..r }.push(
                            reply(
                                MessageType::MsgAppendResponse,
                                m.from,
                                r.id,
                                r.term,
                                false,
                                log3.last_index(),
                            ),
                        ),
                        Ok(()),
                    ),
                )
            }
        }
    }

    pub open spec fn handle_heartbeat(self, m: MessageView) -> RaftView {
        if m.term < self.term {
            self
        } else {
            let log = if m.commit > self.log.committed {
                LogView {
                    committed: if m.commit <= self.log.last_index() {
                        m.commit
                    } else {
                        self.log.last_index()
                    },
                    ..self.log
                }
            } else {
                self.log
            };
            RaftView { term: m.term, lead: m.from, log, ..self }.push(
                blank_message(MessageType::MsgHeartbeatResponse, m.from, self.id, m.term),
            )
        }
    }

    pub open spec fn handle_snapshot(self, m: MessageView) -> Option<
        (RaftView, Result<(), RaftError>),
    > {
        match m.snapshot {
            None => Some((self, Ok(()))),
            Some(s) => if s.index <= self.log.committed {
                Some((self, Ok(())))
            } else if s.index >= u64::MAX {
                None
            } else {
                let log = LogView {
                    committed: s.index,
                    applied: s.index,
                    stabled: s.index,
                    entries: Seq::empty(),
                    snapshot: Some(s),
                };
                Some(
                    (
                        RaftView { log, ..self }.push(
                            reply(
                                MessageType::MsgAppendResponse,
                                m.from,
                                self.id,
                                self.term,
                                false,
                                s.index,
                            ),
                        ),
                        Ok(()),
                    ),
                )
            },
        }
    }

    pub open spec fn handle_request_vote(self, m: MessageView) -> RaftView {
        if m.term < self.term {
            self.push(reply(MessageType::MsgRequestVoteResponse, m.from, self.id, self.term, true, 0))
        } else {
            let r = if m.term > self.term {
                self.become_follower(m.term, NONE)
            } else {
                self
            };
            let can_vote = r.vote == NONE || r.vote == m.from;
            let last = r.log.last_index();
            let last_term = match r.log.term_sync(last) {
                Some(t) => t,
                None => 0,
            };
            let log_ok = m.log_term > last_term || (m.log_term == last_term && m.index >= last);
            if can_vote && log_ok {
                RaftView { vote: m.from, election_elapsed: 0, ..r }.push(
                    reply(MessageType::MsgRequestVoteResponse, m.from, r.id, r.term, false, 0),
                )
            } else {
                r.push(reply(MessageType::MsgRequestVoteResponse, m.from, r.id, r.term, true, 0))
            }
        }
    }

    pub open spec fn handle_request_vote_response(self, m: MessageView) -> Option<RaftView> {
        if m.term != self.term || self.state != StateType::Candidate {
            Some(self)
        } else {
            let r = RaftView { votes: inserted(self.votes, m.from, !m.reject), ..self };
            if count_votes(r.votes, true) >= r.quorum() {
                r.become_leader()
            } else if count_votes(r.votes, false) >= r.quorum() {
                Some(r.become_follower(r.term, NONE))
            } else {
                Some(r)
            }
        }
    }

    pub open spec fn handle_append_response(self, m: MessageView) -> Option<RaftView> {
        if m.term < self.term {
            Some(self)
        } else {
            match value_of(self.prs, m.from) {
                None => Some(
                    if !m.reject {
                        self.maybe_commit()
                    } else {
                        self
                    },
                ),
                Some(p) => {
                    if m.reject && !p.can_decrease_next(m.index) {
                        None
                    } else if !m.reject && m.index >= u64::MAX {
                        None
                    } else {
                        let p2 = if m.reject {
                            p.decreased(m.index)
                        } else {
                            Progress { match_index: m.index, next_index: (m.index + 1) as u64 }
                        };
                        let r1 = RaftView {
                            prs: self.prs.update(key_pos(self.prs, m.from), (m.from, p2)),
                            ..self
                        };
                        let r2 = if !m.reject {
                            r1.maybe_commit()
                        } else {
                            r1
                        };
                        if m.reject || p2.next_index <= r2.log.last_index() {
                            if r2.append_safe(m.from) {
                                Some(r2.send_append(m.from))
                            } else {
                                None
                            }
                        } else {
                            Some(r2)
                        }
                    }
                },
            }
        }
    }

    pub open spec fn handle_heartbeat_response(self, m: MessageView) -> Option<RaftView> {
        if m.term < self.term {
            Some(self)
        } else {
            match value_of(self.prs, m.from) {
                None => Some(self),
                Some(p) => if p.next_index <= self.log.last_index() {
                    if self.append_safe(m.from) {
                        Some(self.send_append(m.from))
                    } else {
                        None
                    }
                } else {
                    Some(self)
                },
            }
        }
    }

    pub open spec fn step_follower(self, m: MessageView) -> Option<
        (RaftView, Result<(), RaftError>),
    > {
        if m.msg_type == MessageType::MsgHup || m.msg_type == MessageType::MsgTimeoutNow {
            self.campaign()
        } else if m.msg_type == MessageType::MsgBeat || m.msg_type == MessageType::MsgPropose {
            if self.lead != NONE {
                Some((self.push(MessageView { to: self.lead, ..m }), Ok(())))
            } else {
                Some((self, Ok(())))
            }
        } else if m.msg_type == MessageType::MsgAppend {
            RaftView { election_elapsed: 0, ..self }.handle_append_entries(m)
        } else if m.msg_type == MessageType::MsgHeartbeat {
            Some((RaftView { election_elapsed: 0, ..self }.handle_heartbeat(m), Ok(())))
        } else if m.msg_type == MessageType::MsgSnapshot {
            RaftView { election_elapsed: 0, ..self }.handle_snapshot(m)
        } else if m.msg_type == MessageType::MsgRequestVote {
            Some((self.handle_request_vote(m), Ok(())))
        } else {
            Some((self, Ok(())))
        }
    }

    pub open spec fn step_candidate(self, m: MessageView) -> Option<
        (RaftView, Result<(), RaftError>),
    > {
        if m.msg_type == MessageType::MsgHup {
            self.campaign()
        } else if m.msg_type == MessageType::MsgAppend {
            self.follow_current(m).handle_append_entries(m)
        } else if m.msg_type == MessageType::MsgHeartbeat {
            Some((self.follow_current(m).handle_heartbeat(m), Ok(())))
        } else if m.msg_type == MessageType::MsgSnapshot {
            self.follow_current(m).handle_snapshot(m)
        } else if m.msg_type == MessageType::MsgRequestVote {
            Some((self.handle_request_vote(m), Ok(())))
        } else if m.msg_type == MessageType::MsgRequestVoteResponse {
            match self.handle_request_vote_response(m) {
                Some(r) => Some((r, Ok(()))),
                None => None,
            }
        } else {
            Some((self, Ok(())))
        }
    }

    /// The leader's handling of a proposal.
    pub open spec fn propose(self, m: MessageView) -> Option<RaftView> {
        let last = self.log.last_index();
        if last + m.entries.len() >= u64::MAX {
            None
        } else {
            let ents = proposal_entries(m.entries, self.term, last);
            RaftView { log: self.log.append(ents), ..self }.maybe_commit().bcast_append()
        }
    }

    pub open spec fn step_leader(self, m: MessageView) -> Option<
        (RaftView, Result<(), RaftError>),
    > {
        if m.msg_type == MessageType::MsgBeat {
            Some((self.bcast_heartbeat(), Ok(())))
        } else if m.msg_type == MessageType::MsgPropose {
            match self.propose(m) {
                Some(r) => Some((r, Ok(()))),
                None => None,
            }
        } else if m.msg_type == MessageType::MsgAppendResponse {
            match self.handle_append_response(m) {
                Some(r) => Some((r, Ok(()))),
                None => None,
            }
        } else if m.msg_type == MessageType::MsgHeartbeatResponse {
            match self.handle_heartbeat_response(m) {
                Some(r) => Some((r, Ok(()))),
                None => None,
            }
        } else if m.msg_type == MessageType::MsgRequestVote {
            Some((self.handle_request_vote(m), Ok(())))
        } else if m.msg_type == MessageType::MsgSnapshot {
            self.follow_current(m).handle_snapshot(m)
        } else if m.msg_type == MessageType::MsgTransferLeader {
            Some((self.transfer_to(m.to), Ok(())))
        } else {
            Some((self, Ok(())))
        }
    }

    /// The leader's first move in handing leadership to peer `to`: a peer
    /// whose log matches the leader's is told to campaign at once
    /// (`MsgTimeoutNow`); one that lags is sent the entries it misses. An
    /// unknown peer, or one whose missing entries were compacted away, is
    /// sent nothing.
    pub open spec fn transfer_to(self, to: u64) -> RaftView {
        match value_of(self.prs, to) {
            None => self,
            Some(p) => if p.match_index == self.log.last_index() {
                self.push(blank_message(MessageType::MsgTimeoutNow, to, self.id, self.term))
            } else if self.append_safe(to) {
                self.send_append(to)
            } else {
                self
            },
        }
    }

    /// A node that hears from the leader of its term follows it; a
    /// message of an older term leaves it as it is (the handlers then
    /// refuse or ignore the message).
    pub open spec fn follow_current(self, m: MessageView) -> RaftView {
        if m.term >= self.term {
            self.become_follower(self.term, m.from)
        } else {
            self
        }
    }

    /// The outcome of `step(m)`; `None` when the step would panic.
    pub open spec fn step(self, m: MessageView) -> Option<(RaftView, Result<(), RaftError>)> {
        let r = if m.term > self.term {
            if m.msg_type == MessageType::MsgRequestVote || m.msg_type == MessageType::MsgAppend {
                self.become_follower(m.term, NONE)
            } else {
                self.become_follower(m.term, m.from)
            }
        } else {
            self
        };
        match r.state {
            StateType::Follower => r.step_follower(m),
            StateType::Candidate => r.step_candidate(m),
            StateType::Leader => r.step_leader(m),
        }
    }

    /// The outcome of `tick()` when the randomized election timeout is `rto`;
    /// `None` when the tick would panic.
    pub open spec fn tick(self, rto: usize) -> Option<RaftView> {
        if self.state == StateType::Leader {
            if self.heartbeat_elapsed + 1 > usize::MAX {
                None
            } else if self.heartbeat_elapsed + 1 >= self.heartbeat_timeout {
                match (RaftView { heartbeat_elapsed: 0, ..self }).step(
                    blank_message(MessageType::MsgBeat, NONE, self.id, 0),
                ) {
                    Some((r, _)) => Some(r),
                    None => None,
                }
            } else {
                Some(RaftView { heartbeat_elapsed: (self.heartbeat_elapsed + 1) as usize, ..self })
            }
        } else {
            if self.election_elapsed + 1 > usize::MAX {
                None
            } else if self.election_elapsed + 1 >= rto {
                match (RaftView { election_elapsed: 0, ..self }).step(
                    blank_message(MessageType::MsgHup, NONE, self.id, 0),
                ) {
                    Some((r, _)) => Some(r),
                    None => None,
                }
            } else {
                Some(RaftView { election_elapsed: (self.election_elapsed + 1) as usize, ..self })
            }
        }
    }

    pub open spec fn add_node(self, id: u64) -> RaftView {
        if id == self.id || has_key(self.prs, id) {
            self
        } else {
            RaftView {
                prs: self.prs.push(
                    (id, Progress { match_index: 0, next_index: (self.log.last_index() + 1) as u64 }),
                ),
                ..self
            }
        }
    }

    pub open spec fn remove_node(self, id: u64) -> RaftView {
        if id == self.id {
            self
        } else {
            let r = RaftView { prs: removed(self.prs, id), ..self };
            if r.state == StateType::Leader {
                r.maybe_commit()
            } else {
                r
            }
        }
    }
}

/// An element of `s` with at least `k` elements at least as large leads to
/// the `k`-th largest element.
proof fn lemma_kth_largest_from(s: Seq<u64>, k: int, i: int) -> (r: int)
    requires
        0 <= i < s.len(),
        count_ge(s, s[i]) >= k,
    ensures
        0 <= r < s.len(),
        is_kth_largest(s, k, s[r]),
    decreases u64::MAX - s[i],
{
    if exists|j: int| 0 <= j < s.len() && s[j] > s[i] && count_ge(s, #[trigger] s[j]) >= k {
        let j = choose|j: int| 0 <= j < s.len() && s[j] > s[i] && count_ge(s, #[trigger] s[j]) >= k;
        lemma_kth_largest_from(s, k, j)
    } else {
        assert(s.contains(s[i]));
        i
    }
}

/// When `s` has at least `k` elements, its `k`-th largest element exists.
pub proof fn lemma_kth_largest_exists(s: Seq<u64>, k: int)
    requires
        1 <= k <= s.len(),
    ensures
        is_kth_largest(s, k, kth_largest(s, k)),
{
    let m = lemma_min_exists(s);
    lemma_count_ge_all(s, s[m]);
    let r = lemma_kth_largest_from(s, k, m);
    assert(is_kth_largest(s, k, s[r]));
}

/// A leader moves its commit index only forward, and only to an index that
/// a majority of the cluster holds (the leader's own log counted) and whose
/// entry is of the leader's own term.
pub proof fn lemma_maybe_commit_quorum(s: RaftView)
    requires
        s.wf(),
    ensures
        s.maybe_commit().log.committed >= s.log.committed,
        s.maybe_commit().log.committed != s.log.committed ==> {
            &&& s.state == StateType::Leader
            &&& count_ge(s.replicated(), s.maybe_commit().log.committed) >= s.quorum()
            &&& s.log.term_sync(s.maybe_commit().log.committed) == Some(s.term)
        },
        s.maybe_commit() == (RaftView { log: LogView { committed: s.maybe_commit().log.committed, ..s.log }, ..s }),
{
    if s.state == StateType::Leader {
        lemma_kth_largest_exists(s.replicated(), s.quorum());
    }
}

/// The commit index never goes back when a node handles a message.
pub proof fn lemma_step_keeps_commit(s: RaftView, m: MessageView)
    requires
        s.wf(),
        s.step(m) is Some,
    ensures
        (s.step(m)->0).0.log.committed >= s.log.committed,
{
    let r = if m.term > s.term {
        if m.msg_type == MessageType::MsgRequestVote || m.msg_type == MessageType::MsgAppend {
            s.become_follower(m.term, NONE)
        } else {
            s.become_follower(m.term, m.from)
        }
    } else {
        s
    };
    assert(r.log == s.log);
    match r.state {
        StateType::Follower => lemma_step_follower_keeps_commit(r, m),
        StateType::Candidate => lemma_step_candidate_keeps_commit(r, m),
        StateType::Leader => lemma_step_leader_keeps_commit(r, m),
    }
}

proof fn lemma_campaign_keeps_commit(s: RaftView)
    requires
        s.campaign() is Some,
    ensures
        (s.campaign()->0).0.log.committed == s.log.committed,
{
}

proof fn lemma_append_entries_keeps_commit(s: RaftView, m: MessageView)
    requires
        s.log.wf(),
        s.handle_append_entries(m) is Some,
    ensures
        (s.handle_append_entries(m)->0).0.log.committed >= s.log.committed,
{
    if m.term >= s.term {
        let log2 = s.log.append(new_entries(m.entries, s.log.committed));
        assert(log2.committed == s.log.committed);
    }
}

proof fn lemma_snapshot_keeps_commit(s: RaftView, m: MessageView)
    requires
        s.handle_snapshot(m) is Some,
    ensures
        (s.handle_snapshot(m)->0).0.log.committed >= s.log.committed,
{
}

proof fn lemma_become_leader_keeps_commit(s: RaftView)
    requires
        s.become_leader() is Some,
    ensures
        s.become_leader()->0.log.committed == s.log.committed,
{
}

proof fn lemma_step_follower_keeps_commit(s: RaftView, m: MessageView)
    requires
        s.log.wf(),
        s.step_follower(m) is Some,
    ensures
        (s.step_follower(m)->0).0.log.committed >= s.log.committed,
{
    let r = RaftView { election_elapsed: 0, ..s };
    if m.msg_type == MessageType::MsgHup {
        lemma_campaign_keeps_commit(s);
    } else if m.msg_type == MessageType::MsgAppend {
        lemma_append_entries_keeps_commit(r, m);
    } else if m.msg_type == MessageType::MsgSnapshot {
        lemma_snapshot_keeps_commit(r, m);
    }
}

proof fn lemma_step_candidate_keeps_commit(s: RaftView, m: MessageView)
    requires
        s.log.wf(),
        s.step_candidate(m) is Some,
    ensures
        (s.step_candidate(m)->0).0.log.committed >= s.log.committed,
{
    let f = s.follow_current(m);
    if m.msg_type == MessageType::MsgHup {
        lemma_campaign_keeps_commit(s);
    } else if m.msg_type == MessageType::MsgAppend {
        lemma_append_entries_keeps_commit(f, m);
    } else if m.msg_type == MessageType::MsgSnapshot {
        lemma_snapshot_keeps_commit(f, m);
    } else if m.msg_type == MessageType::MsgRequestVoteResponse {
        if m.term == s.term && s.state == StateType::Candidate {
            let r = RaftView { votes: inserted(s.votes, m.from, !m.reject), ..s };
            if count_votes(r.votes, true) >= r.quorum() {
                lemma_become_leader_keeps_commit(r);
            }
        }
    }
}

proof fn lemma_step_leader_keeps_commit(s: RaftView, m: MessageView)
    requires
        s.wf(),
        s.step_leader(m) is Some,
    ensures
        (s.step_leader(m)->0).0.log.committed >= s.log.committed,
{
    if m.msg_type == MessageType::MsgPropose {
        let last = s.log.last_index();
        let ents = proposal_entries(m.entries, s.term, last);
        let a = RaftView { log: s.log.append(ents), ..s };
        assert(a.log.committed == s.log.committed);
        lemma_maybe_commit_quorum_plain(a);
    } else if m.msg_type == MessageType::MsgAppendResponse {
        lemma_append_response_keeps_commit(s, m);
    }
}

/// `maybe_commit` never lowers the commit index and touches nothing else.
proof fn lemma_maybe_commit_quorum_plain(s: RaftView)
    ensures
        s.maybe_commit().log.committed >= s.log.committed,
        s.maybe_commit() == (RaftView { log: LogView { committed: s.maybe_commit().log.committed, ..s.log }, ..s }),
{
}

proof fn lemma_append_response_keeps_commit(s: RaftView, m: MessageView)
    requires
        s.handle_append_response(m) is Some,
    ensures
        s.handle_append_response(m)->0.log.committed >= s.log.committed,
{
    if m.term >= s.term {
        lemma_maybe_commit_quorum_plain(s);
        match value_of(s.prs, m.from) {
            None => {},
            Some(p) => {
                if !(m.reject && !p.can_decrease_next(m.index)) && !(!m.reject && m.index >= u64::MAX) {
                    let p2 = if m.reject {
                        p.decreased(m.index)
                    } else {
                        Progress { match_index: m.index, next_index: (m.index + 1) as u64 }
                    };
                    let r1 = RaftView {
                        prs: s.prs.update(key_pos(s.prs, m.from), (m.from, p2)),
                        ..s
                    };
                    lemma_maybe_commit_quorum_plain(r1);
                }
            },
        }
    }
}

/// The term never goes back when a node handles a message.
pub proof fn lemma_step_keeps_term(s: RaftView, m: MessageView)
    requires
        s.wf(),
        s.step(m) is Some,
    ensures
        (s.step(m)->0).0.term >= s.term,
{
    let r = if m.term > s.term {
        if m.msg_type == MessageType::MsgRequestVote || m.msg_type == MessageType::MsgAppend {
            s.become_follower(m.term, NONE)
        } else {
            s.become_follower(m.term, m.from)
        }
    } else {
        s
    };
    assert(r.term >= s.term);
    match r.state {
        StateType::Follower => {
            if m.msg_type == MessageType::MsgHup {
                lemma_campaign_keeps_term(r);
            }
        },
        StateType::Candidate => {
            if m.msg_type == MessageType::MsgHup {
                lemma_campaign_keeps_term(r);
            } else if m.msg_type == MessageType::MsgRequestVoteResponse {
                if m.term == r.term && r.state == StateType::Candidate {
                    let v = RaftView { votes: inserted(r.votes, m.from, !m.reject), ..r };
                    if count_votes(v.votes, true) >= v.quorum() {
                        lemma_become_leader_keeps_term(v);
                    }
                }
            }
        },
        StateType::Leader => {
            if m.msg_type == MessageType::MsgPropose {
                let last = r.log.last_index();
                let ents = proposal_entries(m.entries, r.term, last);
                lemma_maybe_commit_quorum_plain(RaftView { log: r.log.append(ents), ..r });
            } else if m.msg_type == MessageType::MsgAppendResponse {
                lemma_append_response_keeps_term(r, m);
            }
        },
    }
}

/// A message from the network of a later term makes the node a follower
/// in that term; `MsgTimeoutNow` is the one exception: it tells the node
/// to campaign at once, which takes it one term further.
pub proof fn lemma_step_follows_higher_term(s: RaftView, m: MessageView)
    requires
        s.wf(),
        s.step(m) is Some,
        !m.msg_type.spec_is_local(),
        m.term > s.term,
    ensures
        m.msg_type != MessageType::MsgTimeoutNow ==> (s.step(m)->0).0.term == m.term && (s.step(
            m,
        )->0).0.state == StateType::Follower,
        m.msg_type == MessageType::MsgTimeoutNow ==> (s.step(m)->0).0.term == m.term + 1,
{
    let r = if m.msg_type == MessageType::MsgRequestVote || m.msg_type == MessageType::MsgAppend {
        s.become_follower(m.term, NONE)
    } else {
        s.become_follower(m.term, m.from)
    };
    if m.msg_type == MessageType::MsgTimeoutNow {
        lemma_campaign_keeps_term(r);
    }
}

/// The term of the last entry of `log` as the node knows it (0 when it is
/// not at hand).
pub open spec fn last_log_term(log: LogView) -> u64 {
    match log.term_sync(log.last_index()) {
        Some(t) => t,
        None => 0,
    }
}

/// A vote request is answered with one reply to the candidate. A vote is
/// granted only to a candidate of the node's term or a later one whose log
/// is at least as up to date as the node's: a later last term, or the same
/// last term and a last index at least as high. It is granted whenever that
/// holds and the node has not voted for another candidate in that term.
pub proof fn lemma_vote_needs_up_to_date_log(s: RaftView, m: MessageView)
    requires
        s.wf(),
        m.msg_type == MessageType::MsgRequestVote,
        s.step(m) is Some,
    ensures
        ({
            let r = (s.step(m)->0).0;
            let up = m.log_term > last_log_term(s.log) || (m.log_term == last_log_term(s.log)
                && m.index >= s.log.last_index());
            let reply = r.msgs.last();
            &&& r.msgs.len() == s.msgs.len() + 1
            &&& r.msgs.drop_last() == s.msgs
            &&& reply.msg_type == MessageType::MsgRequestVoteResponse
            &&& reply.to == m.from
            &&& reply.from == s.id
            &&& r.term == (if m.term > s.term {
                m.term
            } else {
                s.term
            })
            &&& reply.term == r.term
            &&& r.log == s.log
            &&& !reply.reject ==> up && m.term >= s.term && r.vote == m.from
            &&& (up && m.term >= s.term && (s.vote == NONE || s.vote == m.from || m.term > s.term))
                ==> !reply.reject && r.vote == m.from
            &&& (r.vote == m.from && m.from != NONE && !(s.vote == m.from && m.term <= s.term))
                ==> up
        }),
{
    let r0 = if m.term > s.term {
        s.become_follower(m.term, NONE)
    } else {
        s
    };
    assert(r0.log == s.log);
    let h = r0.handle_request_vote(m);
    assert(s.step(m) == Some((h, Ok::<(), RaftError>(()))));
    assert(h.msgs.drop_last() =~= s.msgs);
}

/// A follower that knows its leader forwards a proposal to it: one message
/// is added, the proposal with its entries, addressed to the leader, and
/// nothing else changes. A follower with no leader drops the proposal.
pub proof fn lemma_follower_forwards_proposals(s: RaftView, m: MessageView)
    requires
        s.wf(),
        s.state == StateType::Follower,
        m.msg_type == MessageType::MsgPropose,
        m.term <= s.term,
    ensures
        s.step(m) is Some,
        (s.step(m)->0).1 is Ok,
        s.lead == NONE ==> (s.step(m)->0).0 == s,
        s.lead != NONE ==> ({
            let r = (s.step(m)->0).0;
            let f = r.msgs.last();
            &&& r.msgs.len() == s.msgs.len() + 1
            &&& r.msgs.drop_last() == s.msgs
            &&& f.to == s.lead
            &&& f.msg_type == MessageType::MsgPropose
            &&& f.entries == m.entries
            &&& f.from == m.from
            &&& f.term == m.term
            &&& (RaftView { msgs: s.msgs, ..r }) == s
        }),
{
    if s.lead != NONE {
        let r = (s.step(m)->0).0;
        assert(r.msgs.drop_last() =~= s.msgs);
    }
}

/// How a candidate counts a vote response of its term: once the votes
/// granted (its own included) reach a majority it leads in the same term;
/// once the refusals reach a majority it follows, still in that term and
/// keeping its own vote; otherwise it stays a candidate. A response of
/// another term changes nothing.
pub proof fn lemma_vote_responses(s: RaftView, m: MessageView)
    requires
        s.wf(),
        s.state == StateType::Candidate,
        m.msg_type == MessageType::MsgRequestVoteResponse,
        m.term <= s.term,
        s.step(m) is Some,
    ensures
        ({
            let r = (s.step(m)->0).0;
            let votes = inserted(s.votes, m.from, !m.reject);
            &&& m.term < s.term ==> r == s
            &&& m.term == s.term && count_votes(votes, true) >= s.quorum() ==> r.state
                == StateType::Leader && r.term == s.term && r.vote == s.vote
            &&& m.term == s.term && count_votes(votes, true) < s.quorum() && count_votes(votes, false)
                >= s.quorum() ==> r.state == StateType::Follower && r.term == s.term && r.vote
                == s.vote && r.log == s.log
            &&& m.term == s.term && count_votes(votes, true) < s.quorum() && count_votes(votes, false)
                < s.quorum() ==> r == (RaftView { votes, ..s })
        }),
{
    if m.term == s.term {
        let v = RaftView { votes: inserted(s.votes, m.from, !m.reject), ..s };
        if count_votes(v.votes, true) >= v.quorum() {
            lemma_become_leader_keeps_term(v);
            lemma_bcast_append_keeps_vote_of_leader(v);
        }
    }
}

proof fn lemma_bcast_append_keeps_vote_of_leader(s: RaftView)
    requires
        s.become_leader() is Some,
    ensures
        s.become_leader()->0.vote == s.vote,
        s.become_leader()->0.state == StateType::Leader,
{
}

/// How a leader takes an append response of its term from a peer it
/// tracks: an acceptance of index `i` records the peer as holding `i` and
/// due for `i + 1` next; a refusal moves the peer's next index back (to just
/// after the refused index when that is lower, else by one) and leaves its
/// match index. The leader stays leader in its term.
pub proof fn lemma_append_response_progress(s: RaftView, m: MessageView)
    requires
        s.wf(),
        s.state == StateType::Leader,
        m.msg_type == MessageType::MsgAppendResponse,
        m.term == s.term,
        has_key(s.prs, m.from),
        s.step(m) is Some,
    ensures
        ({
            let r = (s.step(m)->0).0;
            let p = value_of(s.prs, m.from)->0;
            &&& r.state == StateType::Leader
            &&& r.term == s.term
            &&& !m.reject ==> value_of(r.prs, m.from) == Some(
                Progress { match_index: m.index, next_index: (m.index + 1) as u64 },
            )
            &&& m.reject ==> value_of(r.prs, m.from) == Some(
                Progress {
                    match_index: p.match_index,
                    next_index: if p.next_index > 1 && p.next_index > m.index + 1 {
                        (m.index + 1) as u64
                    } else {
                        (p.next_index - 1) as u64
                    },
                },
            )
        }),
{
    let p = value_of(s.prs, m.from)->0;
    let p2 = if m.reject {
        p.decreased(m.index)
    } else {
        Progress { match_index: m.index, next_index: (m.index + 1) as u64 }
    };
    let j = key_pos(s.prs, m.from);
    let r1 = RaftView { prs: s.prs.update(j, (m.from, p2)), ..s };
    assert forall|a: int, b: int|
        0 <= a < r1.prs.len() && 0 <= b < r1.prs.len() && a != b implies r1.prs[a].0
        != r1.prs[b].0 by {
        assert(r1.prs[a].0 == s.prs[a].0);
        assert(r1.prs[b].0 == s.prs[b].0);
    }
    lemma_key_pos(r1.prs, j);
    assert(value_of(r1.prs, m.from) == Some(p2));
    lemma_maybe_commit_quorum_plain(r1);
    let r2 = r1.maybe_commit();
    lemma_send_append_keeps_prs(r2, m.from);
}

proof fn lemma_send_append_keeps_prs(s: RaftView, to: u64)
    ensures
        s.send_append(to).prs == s.prs,
        s.send_append(to).state == s.state,
        s.send_append(to).term == s.term,
{
}

/// How a follower takes an append of its term from the leader. It answers
/// the sender once. An append whose previous index lies past the log's end,
/// or whose previous term does not match the log's, is refused and leaves
/// the log alone. A matching one is accepted: the follower follows the
/// sender, every entry of the append past the commit index is in the log,
/// and the commit index goes up to at most the leader's and never down.
pub proof fn lemma_follower_append(s: RaftView, m: MessageView)
    requires
        s.wf(),
        s.state == StateType::Follower,
        m.msg_type == MessageType::MsgAppend,
        m.term == s.term,
        s.step(m) is Some,
    ensures
        ({
            let (r, res) = s.step(m)->0;
            let reply = r.msgs.last();
            let matches = m.index == 0 || s.log.term_sync(m.index) == Some(m.log_term);
            &&& m.index > s.log.last_index() ==> res is Ok && reply.reject && reply.to == m.from
                && r.log == s.log
            &&& (m.index <= s.log.last_index() && !matches && s.log.term_sync(m.index) is Some)
                ==> res is Ok && reply.reject && reply.to == m.from && r.log == s.log
            &&& (m.index <= s.log.last_index() && matches) ==> {
                &&& res is Ok
                &&& !reply.reject
                &&& reply.msg_type == MessageType::MsgAppendResponse
                &&& reply.to == m.from
                &&& reply.index == r.log.last_index()
                &&& r.lead == m.from
                &&& r.term == s.term
                &&& forall|i: int|
                    0 <= i < m.entries.len() && m.entries[i].index > s.log.committed
                        ==> r.log.entries.contains(#[trigger] m.entries[i])
                &&& s.log.committed <= r.log.committed
                &&& r.log.committed == s.log.committed || r.log.committed <= m.commit
            }
        }),
{
    let f = RaftView { election_elapsed: 0, ..s };
    if m.index <= s.log.last_index() && (m.index == 0 || s.log.term_sync(m.index) == Some(
        m.log_term,
    )) {
        let ne = new_entries(m.entries, s.log.committed);
        let log2 = s.log.append(ne);
        assert forall|i: int|
            0 <= i < m.entries.len() && m.entries[i].index > s.log.committed implies log2.entries.contains(
            #[trigger] m.entries[i]) by {
            m.entries.lemma_filter_contains(|e: EntryView| e.index > s.log.committed, i);
            let k = choose|k: int| 0 <= k < ne.len() && ne[k] == m.entries[i];
            let first = s.log.first_index();
            let after = ne[0].index;
            let kept = if after <= first {
                Seq::<EntryView>::empty()
            } else if after - first < s.log.entries.len() {
                s.log.entries.subrange(0, after - first)
            } else {
                s.log.entries
            };
            assert(log2.entries == kept + ne);
            assert(log2.entries[kept.len() + k] == ne[k]);
        }
    }
}

/// A leader appends a proposal to its own log: each proposed entry gets
/// the next index after the last one, in order, with the leader's term and
/// the proposed data, and the leader stays leader in its term.
pub proof fn lemma_leader_appends_proposals(s: RaftView, m: MessageView)
    requires
        s.wf(),
        s.state == StateType::Leader,
        m.msg_type == MessageType::MsgPropose,
        m.term <= s.term,
        s.step(m) is Some,
    ensures
        ({
            let r = (s.step(m)->0).0;
            &&& r.state == StateType::Leader
            &&& r.term == s.term
            &&& r.log.last_index() == s.log.last_index() + m.entries.len()
            &&& r.log.committed >= s.log.committed
            &&& forall|i: int|
                0 <= i < m.entries.len() ==> r.log.entries.contains(
                    EntryView {
                        entry_type: (#[trigger] m.entries[i]).entry_type,
                        term: s.term,
                        index: (s.log.last_index() + 1 + i) as u64,
                        data: m.entries[i].data,
                    },
                )
        }),
{
    let last = s.log.last_index();
    let n = m.entries.len() as int;
    let ents = proposal_entries(m.entries, s.term, last);
    let p0 = RaftView { log: s.log.append(ents), ..s };
    lemma_maybe_commit_quorum_plain(p0);
    let p1 = p0.maybe_commit();
    lemma_bcast_append_keeps_vote(p1);
    if n > 0 {
        lemma_append_after_last(s.log, ents);
        let first = s.log.first_index();
        let after = ents[0].index;
        let kept = if after <= first {
            Seq::<EntryView>::empty()
        } else if after - first < s.log.entries.len() {
            s.log.entries.subrange(0, after - first)
        } else {
            s.log.entries
        };
        assert(p0.log.entries == kept + ents);
        assert forall|i: int| 0 <= i < m.entries.len() implies p0.log.entries.contains(
            EntryView {
                entry_type: (#[trigger] m.entries[i]).entry_type,
                term: s.term,
                index: (s.log.last_index() + 1 + i) as u64,
                data: m.entries[i].data,
            },
        ) by {
            assert(p0.log.entries[kept.len() + i] == ents[i]);
            assert(ents[i].entry_type == m.entries[i].entry_type);
        }
        assert(ents.last() == ents[n - 1]);
    } else {
        assert(ents.len() == 0);
    }
}

proof fn lemma_campaign_keeps_term(s: RaftView)
    requires
        s.campaign() is Some,
    ensures
        (s.campaign()->0).0.term == s.term + 1,
{
}

proof fn lemma_become_leader_keeps_term(s: RaftView)
    requires
        s.become_leader() is Some,
    ensures
        s.become_leader()->0.term == s.term,
{
}

proof fn lemma_append_response_keeps_term(s: RaftView, m: MessageView)
    requires
        s.handle_append_response(m) is Some,
    ensures
        s.handle_append_response(m)->0.term == s.term,
{
    if m.term >= s.term {
        lemma_maybe_commit_quorum_plain(s);
        match value_of(s.prs, m.from) {
            None => {},
            Some(p) => {
                if !(m.reject && !p.can_decrease_next(m.index)) && !(!m.reject && m.index >= u64::MAX) {
                    let p2 = if m.reject {
                        p.decreased(m.index)
                    } else {
                        Progress { match_index: m.index, next_index: (m.index + 1) as u64 }
                    };
                    let r1 = RaftView {
                        prs: s.prs.update(key_pos(s.prs, m.from), (m.from, p2)),
                        ..s
                    };
                    lemma_maybe_commit_quorum_plain(r1);
                }
            },
        }
    }
}

/// A vote, once cast, holds for the rest of its term: a step that leaves
/// the term as it was leaves the vote as it was, so a node grants at most
/// one vote per term.
pub proof fn lemma_step_keeps_vote(s: RaftView, m: MessageView)
    requires
        s.wf(),
        s.step(m) is Some,
        (s.step(m)->0).0.term == s.term,
        s.vote != NONE,
    ensures
        (s.step(m)->0).0.vote == s.vote,
{
    if m.term > s.term {
        lemma_step_keeps_term(s, m);
        assert(false) by {
            lemma_step_moves_to_new_term(s, m);
        }
    }
    match s.state {
        StateType::Follower => {
            if m.msg_type == MessageType::MsgHup {
                lemma_campaign_keeps_term(s);
            }
        },
        StateType::Candidate => {
            if m.msg_type == MessageType::MsgHup {
                lemma_campaign_keeps_term(s);
            }
        },
        StateType::Leader => {
            if m.msg_type == MessageType::MsgPropose {
                let last = s.log.last_index();
                let ents = proposal_entries(m.entries, s.term, last);
                lemma_bcast_append_keeps_vote(
                    RaftView { log: s.log.append(ents), ..s }.maybe_commit(),
                );
            } else if m.msg_type == MessageType::MsgAppendResponse {
                lemma_append_response_keeps_vote(s, m);
            } else if m.msg_type == MessageType::MsgHeartbeatResponse {
                lemma_heartbeat_response_keeps_vote(s, m);
            }
        },
    }
}

proof fn lemma_step_moves_to_new_term(s: RaftView, m: MessageView)
    requires
        s.wf(),
        s.step(m) is Some,
        m.term > s.term,
    ensures
        (s.step(m)->0).0.term > s.term,
{
    lemma_step_keeps_term(s, m);
    let r = if m.msg_type == MessageType::MsgRequestVote || m.msg_type == MessageType::MsgAppend {
        s.become_follower(m.term, NONE)
    } else {
        s.become_follower(m.term, m.from)
    };
    if r.state == StateType::Follower && m.msg_type == MessageType::MsgHup {
        lemma_campaign_keeps_term(r);
    }
}

proof fn lemma_send_append_keeps_vote(s: RaftView, to: u64)
    ensures
        s.send_append(to).vote == s.vote,
        s.send_append(to).term == s.term,
{
}

proof fn lemma_bcast_append_keeps_vote(s: RaftView)
    requires
        s.bcast_append() is Some,
    ensures
        s.bcast_append()->0.vote == s.vote,
{
}

proof fn lemma_append_response_keeps_vote(s: RaftView, m: MessageView)
    requires
        s.handle_append_response(m) is Some,
    ensures
        s.handle_append_response(m)->0.vote == s.vote,
{
}

proof fn lemma_heartbeat_response_keeps_vote(s: RaftView, m: MessageView)
    requires
        s.handle_heartbeat_response(m) is Some,
    ensures
        s.handle_heartbeat_response(m)->0.vote == s.vote,
{
}

/// The shape of the log after entries are appended right after its last
/// one.
pub proof fn lemma_append_after_last(log: LogView, ents: Seq<EntryView>)
    requires
        ents.len() > 0,
        ents[0].index == log.last_index() + 1,
    ensures
        log.append(ents).entries.len() == kept_len(log, log.last_index() + 1) + ents.len(),
        log.append(ents).last_index() == ents.last().index,
        log.append(ents).first_index() == if kept_len(log, log.last_index() + 1) == 0 {
            log.last_index() + 1
        } else {
            log.first_index()
        },
{
    let a = log.append(ents);
    let k = kept_len(log, log.last_index() + 1);
    assert(a.entries.len() == k + ents.len());
    assert(a.entries.last() == ents.last());
    if k == 0 {
        assert(a.entries[0] == ents[0]);
    } else {
        assert(a.entries[0] == log.entries[0]);
    }
}

/// `bcast_append` can be built exactly when an append to every peer can.
pub proof fn lemma_bcast_safe_iff(s: RaftView)
    requires
        distinct_keys(s.prs),
    ensures
        s.bcast_safe() <==> forall|i: int|
            0 <= i < s.prs.len() ==> send_ok(
                #[trigger] s.prs[i].1.next_index,
                s.log.first_index(),
                s.log.last_index() as int,
                s.log.entries.len() as int,
            ),
{
    let f = s.log.first_index();
    let l = s.log.last_index() as int;
    let n = s.log.entries.len() as int;
    if s.bcast_safe() {
        assert forall|i: int| 0 <= i < s.prs.len() implies send_ok(
            #[trigger] s.prs[i].1.next_index,
            f,
            l,
            n,
        ) by {
            lemma_key_pos(s.prs, i);
            assert(s.append_safe(s.prs[i].0));
        }
    }
    if forall|i: int| 0 <= i < s.prs.len() ==> send_ok(#[trigger] s.prs[i].1.next_index, f, l, n) {
        assert forall|i: int| 0 <= i < s.prs.len() implies #[trigger] s.append_safe(s.prs[i].0) by {
            lemma_key_pos(s.prs, i);
            assert(send_ok(s.prs[i].1.next_index, f, l, n));
        }
    }
}

/// When `become_leader` can run, in terms of the log and the peers alone.
pub proof fn lemma_become_leader_some(s: RaftView)
    requires
        distinct_keys(s.prs),
    ensures
        s.become_leader() is Some <==> leader_possible(s.log, s.prs),
{
    let last = s.log.last_index();
    if last + 1 < u64::MAX {
        let next = (last + 1) as u64;
        let noop = EntryView {
            entry_type: EntryType::Normal,
            term: s.term,
            index: next,
            data: Seq::empty(),
        };
        let r = RaftView {
            state: StateType::Leader,
            lead: s.id,
            heartbeat_elapsed: 0,
            prs: s.prs.map_values(
                |p: (u64, Progress)| (p.0, Progress { next_index: next, match_index: 0 }),
            ),
            log: s.log.append(seq![noop]),
            ..s
        };
        lemma_append_after_last(s.log, seq![noop]);
        assert forall|a: int, b: int|
            0 <= a < r.prs.len() && 0 <= b < r.prs.len() && a != b implies r.prs[a].0
            != r.prs[b].0 by {
            assert(r.prs[a].0 == s.prs[a].0);
            assert(r.prs[b].0 == s.prs[b].0);
        }
        lemma_bcast_safe_iff(r);
        if s.prs.len() > 0 {
            assert(r.prs[0].1.next_index == next);
        }
    }
}

/// When a campaign can run.
pub proof fn lemma_campaign_some(s: RaftView)
    requires
        distinct_keys(s.prs),
    ensures
        s.campaign() is Some <==> campaign_possible(s),
{
    if s.term < u64::MAX {
        let r = s.become_candidate();
        if s.prs.len() == 0 {
            lemma_become_leader_some(r);
        }
    }
}

/// When a proposal can be handled by a leader.
pub proof fn lemma_propose_some(s: RaftView, m: MessageView)
    requires
        distinct_keys(s.prs),
    ensures
        s.propose(m) is Some <==> (s.log.last_index() + m.entries.len() < u64::MAX
            && peers_reachable_after(s, m.entries.len() as int)),
{
    let last = s.log.last_index();
    let n = m.entries.len() as int;
    if last + n < u64::MAX {
        let ents = proposal_entries(m.entries, s.term, last);
        let p0 = RaftView { log: s.log.append(ents), ..s };
        lemma_maybe_commit_quorum_plain(p0);
        let p = p0.maybe_commit();
        lemma_bcast_safe_iff(p);
        if n > 0 {
            assert(ents[0].index == last + 1);
            lemma_append_after_last(s.log, ents);
            assert(ents.last().index == last + n);
        } else {
            assert(ents.len() == 0);
            assert(p0.log == s.log);
        }
        assert(p.log.first_index() == first_after(s.log, n));
        assert(p.log.last_index() == s.log.last_index() + n);
        assert(p.log.entries.len() == len_after(s.log, n));
        if p.bcast_safe() {
            assert forall|i: int| 0 <= i < s.prs.len() implies send_ok(
                #[trigger] s.prs[i].1.next_index,
                first_after(s.log, n),
                s.log.last_index() + n,
                len_after(s.log, n),
            ) by {
                assert(p.prs[i] == s.prs[i]);
            }
        }
        if peers_reachable_after(s, n) {
            assert forall|i: int| 0 <= i < p.prs.len() implies send_ok(
                #[trigger] p.prs[i].1.next_index,
                p.log.first_index(),
                p.log.last_index() as int,
                p.log.entries.len() as int,
            ) by {
                assert(p.prs[i] == s.prs[i]);
            }
        }
    }
}

/// When an append can be handled: this depends on the log and the term
/// alone.
pub proof fn lemma_append_entries_some(s: RaftView, m: MessageView)
    ensures
        s.handle_append_entries(m) is Some <==> append_possible(s.log, s.term, m),
{
}

/// When an append response can be handled by a leader.
pub proof fn lemma_append_response_some(s: RaftView, m: MessageView)
    requires
        distinct_keys(s.prs),
    ensures
        s.handle_append_response(m) is Some <==> !(m.term >= s.term && has_key(s.prs, m.from) && {
            let p = value_of(s.prs, m.from)->0;
            let p2 = if m.reject {
                p.decreased(m.index)
            } else {
                Progress { match_index: m.index, next_index: (m.index + 1) as u64 }
            };
            ||| (m.reject && !p.can_decrease_next(m.index))
            ||| (!m.reject && m.index >= u64::MAX)
            ||| ((m.reject || p2.next_index <= s.log.last_index()) && !send_ok(
                p2.next_index,
                s.log.first_index(),
                s.log.last_index() as int,
                s.log.entries.len() as int,
            ))
        }),
{
    if m.term >= s.term && has_key(s.prs, m.from) {
        let p = value_of(s.prs, m.from)->0;
        if !(m.reject && !p.can_decrease_next(m.index)) && !(!m.reject && m.index >= u64::MAX) {
            let p2 = if m.reject {
                p.decreased(m.index)
            } else {
                Progress { match_index: m.index, next_index: (m.index + 1) as u64 }
            };
            let j = key_pos(s.prs, m.from);
            let r1 = RaftView { prs: s.prs.update(j, (m.from, p2)), ..s };
            assert forall|a: int, b: int|
                0 <= a < r1.prs.len() && 0 <= b < r1.prs.len() && a != b implies r1.prs[a].0
                != r1.prs[b].0 by {
                assert(r1.prs[a].0 == s.prs[a].0);
                assert(r1.prs[b].0 == s.prs[b].0);
            }
            lemma_key_pos(r1.prs, j);
            assert(value_of(r1.prs, m.from) == Some(p2));
            lemma_maybe_commit_quorum_plain(r1);
        }
    }
}

/// A node that is not leader starts an election on the tick at which its
/// elapsed ticks reach its randomized election timeout: it moves to the
/// next term as candidate (or straight to leader when alone). Before that
/// a tick only counts.
pub proof fn lemma_tick_starts_election(s: RaftView, rto: usize)
    requires
        s.wf(),
        s.state != StateType::Leader,
        s.tick(rto) is Some,
    ensures
        s.election_elapsed + 1 >= rto ==> s.tick(rto)->0.term == s.term + 1 && s.tick(rto)->0.state
            != StateType::Follower,
        s.election_elapsed + 1 < rto ==> s.tick(rto)->0 == (RaftView {
            election_elapsed: (s.election_elapsed + 1) as usize,
            ..s
        }),
{
    if s.election_elapsed + 1 >= rto {
        let r = RaftView { election_elapsed: 0, ..s };
        lemma_campaign_keeps_term(r);
    }
}

/// The node after `n` ticks with randomized election timeout `rto`;
/// `None` when one of them would panic.
pub open spec fn ticks(s: RaftView, rto: usize, n: nat) -> Option<RaftView>
    decreases n,
{
    if n == 0 {
        Some(s)
    } else {
        match ticks(s, rto, (n - 1) as nat) {
            Some(t) => t.tick(rto),
            None => None,
        }
    }
}

/// A leader whose heartbeat count was just reset sends nothing for
/// `heartbeat_timeout - 1` ticks; the tick after that broadcasts one round
/// of heartbeats and resets the count. State, term, vote, log and peers do
/// not change.
pub proof fn lemma_leader_heartbeat_after_timeout_ticks(s: RaftView, rto: usize, k: nat)
    requires
        s.wf(),
        s.state == StateType::Leader,
        s.heartbeat_elapsed == 0,
        1 <= k <= s.heartbeat_timeout,
    ensures
        k < s.heartbeat_timeout ==> ticks(s, rto, k) == Some(
            RaftView { heartbeat_elapsed: k as usize, ..s },
        ),
        k == s.heartbeat_timeout ==> ticks(s, rto, k) == Some(
            RaftView { heartbeat_elapsed: 0, ..s }.bcast_heartbeat(),
        ),
    decreases k,
{
    if k > 1 {
        lemma_leader_heartbeat_after_timeout_ticks(s, rto, (k - 1) as nat);
    }
    let prev = RaftView { heartbeat_elapsed: (k - 1) as usize, ..s };
    assert(ticks(s, rto, (k - 1) as nat) == Some(prev));
    if k == s.heartbeat_timeout {
        let r = RaftView { heartbeat_elapsed: 0, ..prev };
        assert(r == RaftView { heartbeat_elapsed: 0, ..s });
    }
}

/// A round of heartbeats holds exactly one heartbeat per peer, in the
/// peers' order, each carrying the leader's term and commit index.
pub proof fn lemma_heartbeat_round(s: RaftView, n: int)
    requires
        s.wf(),
        0 <= n <= s.prs.len(),
    ensures
        s.heartbeat_msgs(n).len() == n,
        forall|i: int|
            0 <= i < n ==> #[trigger] s.heartbeat_msgs(n)[i] == (MessageView {
                commit: s.log.committed,
                ..blank_message(MessageType::MsgHeartbeat, s.prs[i].0, s.id, s.term)
            }),
    decreases n,
{
    if n > 0 {
        lemma_heartbeat_round(s, n - 1);
        assert(s.prs[n - 1].0 != s.id) by {
            if s.prs[n - 1].0 == s.id {
                assert(has_key(s.prs, s.id));
            }
        }
    }
}

/// The commit index never goes back on a tick.
pub proof fn lemma_tick_keeps_commit(s: RaftView, rto: usize)
    requires
        s.wf(),
        s.tick(rto) is Some,
    ensures
        s.tick(rto)->0.log.committed >= s.log.committed,
{
    if s.state == StateType::Leader {
        if s.heartbeat_elapsed + 1 >= s.heartbeat_timeout {
            let r = RaftView { heartbeat_elapsed: 0, ..s };
            lemma_step_keeps_commit(r, blank_message(MessageType::MsgBeat, NONE, s.id, 0));
        }
    } else {
        if s.election_elapsed + 1 >= rto {
            let r = RaftView { election_elapsed: 0, ..s };
            lemma_step_keeps_commit(r, blank_message(MessageType::MsgHup, NONE, s.id, 0));
        }
    }
}

} // verus!

verus! {

// ---------------------------------------------------------------------------
// Outside calls
// ---------------------------------------------------------------------------

/// Draws a uniformly random value in `lo..=hi` with `rand::Rng::gen_range` on
/// the thread-local generator. Claimed: the value lies in the range (the
/// range is non-empty, so `gen_range` does not panic). Which value comes
/// back depends on the generator and is left unsaid.
#[verifier::external_body]
fn random_in_range(lo: usize, hi: usize) -> (r: usize)
    requires
        lo <= hi,
    ensures
        lo <= r <= hi,
{
    rand::Rng::gen_range(&mut rand::thread_rng(), lo..=hi)
}

// ---------------------------------------------------------------------------
// Executable helpers
// ---------------------------------------------------------------------------

/// The entries of `ents` that lie past `committed`, in order.
fn new_entries_of(ents: &Vec<Entry>, committed: u64) -> (r: Vec<Entry>)
    ensures
        entries_view(r@) == new_entries(entries_view(ents@), committed),
{
    let ghost all = entries_view(ents@);
    let ghost pred = |e: EntryView| e.index > committed;
    let mut r: Vec<Entry> = Vec::new();
    let mut i: usize = 0;
    proof {
        reveal(Seq::filter);
        assert(all.take(0) =~= Seq::<EntryView>::empty());
    }
    while i < ents.len()
        invariant
            0 <= i <= ents@.len(),
            all == entries_view(ents@),
            pred == (|e: EntryView| e.index > committed),
            entries_view(r@) == all.take(i as int).filter(pred),
        decreases ents@.len() - i,
    {
        proof {
            reveal(Seq::filter);
            assert(all.take(i + 1).drop_last() =~= all.take(i as int));
            assert(all[i as int] == ents@[i as int]@);
        }
        let e = &ents[i];
        if e.index > committed {
            let ghost before = r@;
            r.push(e.clone());
            proof {
                assert(entries_view(r@) =~= entries_view(before).push(all[i as int]));
            }
        }
        i += 1;
    }
    proof {
        assert(all.take(i as int) =~= all);
    }
    r
}

fn reply_msg(msg_type: MessageType, to: u64, from: u64, term: u64, reject: bool, index: u64) -> (r:
    Message)
    ensures
        r@ == reply(msg_type, to, from, term, reject, index),
{
    let mut m = Message::new();
    m.msg_type = msg_type;
    m.to = to;
    m.from = from;
    m.term = term;
    m.reject = reject;
    m.index = index;
    m
}

proof fn lemma_push_view(v: Seq<Message>, m: Message)
    ensures
        messages_view(v.push(m)) == messages_view(v).push(m@),
{
    assert(messages_view(v.push(m)) =~= messages_view(v).push(m@));
}

proof fn lemma_count_ge_step(s: Seq<u64>, j: int, v: u64)
    requires
        0 <= j < s.len(),
    ensures
        count_ge(s.take(j + 1), v) == count_ge(s.take(j), v) + if s[j] >= v { 1nat } else { 0nat },
{
    assert(s.take(j + 1).drop_last() =~= s.take(j));
}

proof fn lemma_min_exists(s: Seq<u64>) -> (m: int)
    requires
        s.len() > 0,
    ensures
        0 <= m < s.len(),
        forall|j: int| 0 <= j < s.len() ==> s[j] >= s[m],
    decreases s.len(),
{
    if s.len() == 1 {
        0
    } else {
        let t = s.drop_last();
        let m0 = lemma_min_exists(t);
        assert forall|j: int| 0 <= j < s.len() - 1 implies s[j] == #[trigger] t[j] by {}
        if s.last() < s[m0] {
            let m = (s.len() - 1) as int;
            assert forall|j: int| 0 <= j < s.len() implies s[j] >= s[m] by {
                if j < s.len() - 1 {
                    assert(t[j] >= t[m0]);
                }
            }
            m
        } else {
            assert forall|j: int| 0 <= j < s.len() implies s[j] >= s[m0] by {
                if j < s.len() - 1 {
                    assert(t[j] >= t[m0]);
                }
            }
            m0
        }
    }
}

/// The `k`-th largest element of `s`.
fn kth_largest_of(s: &Vec<u64>, k: usize) -> (r: u64)
    requires
        1 <= k <= s@.len(),
    ensures
        is_kth_largest(s@, k as int, r),
        r == kth_largest(s@, k as int),
{
    let n: usize = s.len();
    let mut best: u64 = 0;
    let mut found = false;
    let mut i: usize = 0;
    while i < n
        invariant
            n == s@.len(),
            1 <= k <= n,
            0 <= i <= n,
            found ==> s@.contains(best) && count_ge(s@, best) >= k,
            forall|j: int| 0 <= j < i && count_ge(s@, #[trigger] s@[j]) >= k ==> found && s@[j] <= best,
        decreases n - i,
    {
        let v = s[i];
        let mut c: usize = 0;
        let mut j: usize = 0;
        while j < n
            invariant
                n == s@.len(),
                0 <= j <= n,
                c == count_ge(s@.take(j as int), v),
                c <= j,
            decreases n - j,
        {
            proof {
                lemma_count_ge_step(s@, j as int, v);
            }
            if s[j] >= v {
                c += 1;
            }
            j += 1;
        }
        proof {
            assert(s@.take(n as int) =~= s@);
        }
        if c >= k && (!found || v > best) {
            best = v;
            found = true;
        }
        i += 1;
    }
    proof {
        let m = lemma_min_exists(s@);
        lemma_count_ge_all(s@, s@[m]);
        assert(count_ge(s@, s@[m]) >= k);
        assert(found);
        assert forall|i: int| 0 <= i < s@.len() && s@[i] > best implies count_ge(s@, #[trigger] s@[i])
            < k by {}
        assert(is_kth_largest(s@, k as int, best));
        let w = kth_largest(s@, k as int);
        lemma_kth_largest_unique(s@, k as int, best, w);
    }
    best
}

} // verus!

verus! {

/// A Raft node: the consensus state machine of one peer.
pub struct Raft {
    pub id: u64,
    pub term: u64,
    pub vote: u64,
    pub raft_log: RaftLog,
    /// Replication progress of each peer (used by the leader).
    pub prs: IdMap<Progress>,
    pub state: StateType,
    /// Votes received in the current election (used by a candidate).
    pub votes: IdMap<bool>,
    /// Messages waiting to be sent.
    pub msgs: Vec<Message>,
    pub lead: u64,
    /// Ticks between two heartbeats.
    pub heartbeat_timeout: usize,
    /// Base election timeout, in ticks.
    pub election_timeout: usize,
    /// Ticks since the last heartbeat timeout.
    pub heartbeat_elapsed: usize,
    /// Ticks since the last election timeout.
    pub election_elapsed: usize,
    /// Election timeout drawn at random in `election_timeout..=2 * election_timeout`.
    pub random_election_timeout: usize,
}

impl View for Raft {
    type V = RaftView;

    open spec fn view(&self) -> RaftView {
        RaftView {
            id: self.id,
            term: self.term,
            vote: self.vote,
            log: self.raft_log@,
            prs: self.prs@,
            state: self.state,
            votes: self.votes@,
            msgs: messages_view(self.msgs@),
            lead: self.lead,
            heartbeat_timeout: self.heartbeat_timeout,
            election_timeout: self.election_timeout,
            heartbeat_elapsed: self.heartbeat_elapsed,
            election_elapsed: self.election_elapsed,
        }
    }
}

impl Raft {
    /// The randomized election timeout is the old one, or a value drawn in
    /// `election_timeout..=2 * election_timeout`.
    pub open spec fn timer_ok(&self, old_timeout: usize) -> bool {
        self.random_election_timeout == old_timeout || (self.election_timeout
            <= self.random_election_timeout <= 2 * self.election_timeout)
    }

    fn push_msg(&mut self, m: Message)
        ensures
            final(self)@ == old(self)@.push(m@),
            final(self).random_election_timeout == old(self).random_election_timeout,
    {
        proof {
            lemma_push_view(self.msgs@, m);
        }
        self.msgs.push(m);
    }

    pub fn become_follower(&mut self, term: u64, lead: u64)
        requires
            old(self)@.wf(),
        ensures
            final(self)@ == old(self)@.become_follower(term, lead),
            final(self)@.wf(),
            final(self).election_timeout <= final(self).random_election_timeout <= 2
                * final(self).election_timeout,
    {
        self.lead = lead;
        self.state = StateType::Follower;
        if term != self.term {
            self.vote = NONE;
        }
        self.term = term;
        self.votes.clear();
        self.election_elapsed = 0;
        self.random_election_timeout = random_in_range(
            self.election_timeout,
            self.election_timeout * 2,
        );
    }

    pub fn become_candidate(&mut self)
        requires
            old(self)@.wf(),
            old(self).term < u64::MAX,
        ensures
            final(self)@ == old(self)@.become_candidate(),
            final(self)@.wf(),
            final(self).election_timeout <= final(self).random_election_timeout <= 2
                * final(self).election_timeout,
    {
        self.term = self.term + 1;
        self.state = StateType::Candidate;
        self.vote = self.id;
        self.votes.clear();
        self.votes.insert(self.id, true);
        self.lead = NONE;
        self.election_elapsed = 0;
        self.random_election_timeout = random_in_range(
            self.election_timeout,
            self.election_timeout * 2,
        );
        proof {
            assert(self.votes@ =~= seq![(self.id, true)]);
        }
    }

    fn quorum(&self) -> (r: usize)
        requires
            self@.wf(),
        ensures
            r == self@.quorum(),
    {
        (self.prs.len() + 1) / 2 + 1
    }

    fn send_append(&mut self, to: u64)
        requires
            old(self)@.wf(),
            old(self)@.append_safe(to),
        ensures
            final(self)@ == old(self)@.send_append(to),
            final(self).random_election_timeout == old(self).random_election_timeout,
    {
        let progress = match self.prs.get(to) {
            Some(p) => p,
            None => return ,
        };
        let next_index = progress.next_index;
        let last_index = self.raft_log.last_index();
        if next_index > last_index + 1 {
            return ;
        }
        let mut entries: Vec<Entry> = Vec::new();
        proof {
            assert(entries_view(entries@) =~= Seq::<EntryView>::empty());
        }
        if next_index <= last_index {
            let first = self.raft_log.first_index();
            let len = self.raft_log.entries.len();
            let end64 = last_index - first + 1;
            let end = if end64 <= len as u64 {
                end64 as usize
            } else {
                len
            };
            let start = (next_index - first) as usize;
            entries = clone_entries(self.raft_log.entries.as_slice(), start, end);
            proof {
                assert(entries_view(self.raft_log.entries@.subrange(start as int, end as int))
                    =~= self@.log.entries.subrange(start as int, end as int));
            }
        }
        let prev_log_term = if next_index > 0 {
            match self.raft_log.term_sync(next_index - 1) {
                Some(t) => t,
                None => 0,
            }
        } else {
            0
        };
        let mut m = Message::new();
        m.msg_type = MessageType::MsgAppend;
        m.to = to;
        m.from = self.id;
        m.term = self.term;
        m.log_term = prev_log_term;
        m.index = next_index - 1;
        m.entries = entries;
        m.commit = self.raft_log.committed;
        self.push_msg(m);
    }

    fn bcast_append(&mut self)
        requires
            old(self)@.wf(),
            old(self)@.bcast_append() is Some,
        ensures
            final(self)@ == old(self)@.bcast_append()->0,
            final(self).random_election_timeout == old(self).random_election_timeout,
    {
        let ghost old_view = self@;
        let n = self.prs.len();
        let mut i: usize = 0;
        while i < n
            invariant
                old_view.wf(),
                old_view.bcast_safe(),
                n == old_view.prs.len(),
                0 <= i <= n,
                self@ == (RaftView { msgs: old_view.msgs + old_view.append_msgs(i as int), ..old_view }),
                self.random_election_timeout == old(self).random_election_timeout,
            decreases n - i,
        {
            let (k, _) = self.prs.get_at(i);
            if k != self.id {
                proof {
                    assert(old_view.append_safe(old_view.prs[i as int].0));
                }
                self.send_append(k);
            }
            proof {
                assert(old_view.append_msgs(i + 1) == old_view.append_msgs(i as int) + if k
                    != old_view.id {
                    match old_view.append_msg(k) {
                        Some(m) => seq![m],
                        None => Seq::empty(),
                    }
                } else {
                    Seq::<MessageView>::empty()
                });
                assert(self@.msgs =~= old_view.msgs + old_view.append_msgs(i + 1));
            }
            i += 1;
        }
    }

    fn send_heartbeat(&mut self, to: u64)
        ensures
            final(self)@ == old(self)@.push(
                MessageView {
                    commit: old(self)@.log.committed,
                    ..blank_message(MessageType::MsgHeartbeat, to, old(self).id, old(self).term)
                },
            ),
            final(self).random_election_timeout == old(self).random_election_timeout,
    {
        let commit = self.raft_log.committed;
        let mut m = Message::new();
        m.msg_type = MessageType::MsgHeartbeat;
        m.to = to;
        m.from = self.id;
        m.term = self.term;
        m.commit = commit;
        self.push_msg(m);
    }

    fn bcast_heartbeat(&mut self)
        requires
            old(self)@.wf(),
        ensures
            final(self)@ == old(self)@.bcast_heartbeat(),
            final(self).random_election_timeout == old(self).random_election_timeout,
    {
        let ghost old_view = self@;
        let n = self.prs.len();
        let mut i: usize = 0;
        while i < n
            invariant
                n == old_view.prs.len(),
                0 <= i <= n,
                self@ == (RaftView {
                    msgs: old_view.msgs + old_view.heartbeat_msgs(i as int),
                    ..old_view
                }),
                self.random_election_timeout == old(self).random_election_timeout,
            decreases n - i,
        {
            let (k, _) = self.prs.get_at(i);
            if k != self.id {
                self.send_heartbeat(k);
            }
            proof {
                assert(self@.msgs =~= old_view.msgs + old_view.heartbeat_msgs(i + 1));
            }
            i += 1;
        }
    }

    fn maybe_commit(&mut self)
        requires
            old(self)@.wf(),
        ensures
            final(self)@ == old(self)@.maybe_commit(),
            final(self)@.wf(),
            final(self).random_election_timeout == old(self).random_election_timeout,
    {
        if self.state != StateType::Leader {
            return ;
        }
        let quorum = self.quorum();
        let n = self.prs.len();
        let mut matches: Vec<u64> = Vec::new();
        let mut i: usize = 0;
        while i < n
            invariant
                n == self.prs@.len(),
                0 <= i <= n,
                matches@ =~= self@.match_indices().take(i as int),
            decreases n - i,
        {
            let (_, p) = self.prs.get_at(i);
            matches.push(p.match_index);
            i += 1;
        }
        matches.push(self.raft_log.last_index());
        proof {
            assert(matches@ =~= self@.replicated());
        }
        let commit_index = kth_largest_of(&matches, quorum);
        if commit_index > self.raft_log.committed {
            if let Some(t) = self.raft_log.term_sync(commit_index) {
                if t == self.term {
                    self.raft_log.committed = commit_index;
                }
            }
        }
    }

    pub fn become_leader(&mut self)
        requires
            old(self)@.wf(),
            old(self)@.become_leader() is Some,
        ensures
            final(self)@ == old(self)@.become_leader()->0,
            final(self)@.wf(),
            final(self).random_election_timeout == old(self).random_election_timeout,
    {
        let ghost old_view = self@;
        self.state = StateType::Leader;
        self.lead = self.id;
        self.heartbeat_elapsed = 0;
        let last_index = self.raft_log.last_index();
        let n = self.prs.len();
        let mut i: usize = 0;
        while i < n
            invariant
                n == old_view.prs.len(),
                0 <= i <= n,
                last_index == old_view.log.last_index(),
                last_index + 1 < u64::MAX,
                old_view.wf(),
                self.random_election_timeout == old(self).random_election_timeout,
                self@ == (RaftView {
                    prs: self.prs@,
                    state: StateType::Leader,
                    lead: old_view.id,
                    heartbeat_elapsed: 0,
                    ..old_view
                }),
                self.prs@.len() == n,
                forall|j: int|
                    0 <= j < n ==> #[trigger] self.prs@[j] == if j < i {
                        (
                            old_view.prs[j].0,
                            Progress { next_index: (last_index + 1) as u64, match_index: 0 },
                        )
                    } else {
                        old_view.prs[j]
                    },
            decreases n - i,
        {
            self.prs.set_at(i, Progress { next_index: last_index + 1, match_index: 0 });
            i += 1;
        }
        proof {
            assert(self.prs@ =~= old_view.prs.map_values(
                |p: (u64, Progress)|
                    (p.0, Progress { next_index: (last_index + 1) as u64, match_index: 0 }),
            ));
            assert forall|a: int, b: int|
                0 <= a < self.prs@.len() && 0 <= b < self.prs@.len() && a != b implies self.prs@[a].0
                != self.prs@[b].0 by {
                assert(self.prs@[a].0 == old_view.prs[a].0);
                assert(self.prs@[b].0 == old_view.prs[b].0);
            }
            if has_key(self.prs@, self.id) {
                let j = choose|j: int| 0 <= j < self.prs@.len() && self.prs@[j].0 == self.id;
                assert(old_view.prs[j].0 == self.id);
            }
        }
        let noop = Entry::new_normal(self.term, last_index + 1, Vec::new());
        let ents = vec![noop];
        proof {
            assert(entries_view(ents@) =~= seq![noop@]);
        }
        self.raft_log.append(ents.as_slice());
        self.bcast_append();
    }
}

} // verus!

verus! {

impl Raft {
    fn campaign(&mut self) -> (r: Result<(), RaftError>)
        requires
            old(self)@.wf(),
            old(self)@.campaign() is Some,
        ensures
            (final(self)@, r) == old(self)@.campaign()->0,
            final(self)@.wf(),
            final(self).timer_ok(old(self).random_election_timeout),
    {
        let ghost old_view = self@;
        self.become_candidate();
        if self.quorum() == 1 {
            self.become_leader();
            return Ok(());
        }
        let last_index = self.raft_log.last_index();
        let last_term = match self.raft_log.term_sync(last_index) {
            Some(t) => t,
            None => {
                return Err(RaftError::TermUnavailable(last_index));
            },
        };
        let ghost cand = self@;
        let n = self.prs.len();
        let mut i: usize = 0;
        while i < n
            invariant
                n == cand.prs.len(),
                0 <= i <= n,
                cand.wf(),
                self@ == (RaftView {
                    msgs: cand.msgs + cand.vote_requests(i as int, last_term, last_index),
                    ..cand
                }),
                self.election_timeout <= self.random_election_timeout <= 2 * self.election_timeout,
            decreases n - i,
        {
            let (k, _) = self.prs.get_at(i);
            if k != self.id {
                let mut m = Message::new();
                m.msg_type = MessageType::MsgRequestVote;
                m.to = k;
                m.from = self.id;
                m.term = self.term;
                m.log_term = last_term;
                m.index = last_index;
                self.push_msg(m);
            }
            proof {
                assert(self@.msgs =~= cand.msgs + cand.vote_requests(i + 1, last_term, last_index));
            }
            i += 1;
        }
        Ok(())
    }

    fn handle_append_entries(&mut self, m: Message) -> (r: Result<(), RaftError>)
        requires
            old(self)@.wf(),
            old(self)@.handle_append_entries(m@) is Some,
        ensures
            (final(self)@, r) == old(self)@.handle_append_entries(m@)->0,
            final(self)@.wf(),
            final(self).random_election_timeout == old(self).random_election_timeout,
    {
        if m.term < self.term {
            let resp = reply_msg(MessageType::MsgAppendResponse, m.from, self.id, self.term, true, 0);
            self.push_msg(resp);
            return Ok(());
        }
        if m.term > self.term {
            self.term = m.term;
        }
        self.lead = m.from;
        let last = self.raft_log.last_index();
        if m.index > last {
            let resp = reply_msg(MessageType::MsgAppendResponse, m.from, self.id, self.term, true, last);
            self.push_msg(resp);
            return Ok(());
        }
        if m.index > 0 {
            let term = match self.raft_log.term_sync(m.index) {
                Some(t) => t,
                None => {
                    return Err(RaftError::TermUnavailable(m.index));
                },
            };
            if term != m.log_term {
                let resp = reply_msg(
                    MessageType::MsgAppendResponse,
                    m.from,
                    self.id,
                    self.term,
                    true,
                    m.index - 1,
                );
                self.push_msg(resp);
                return Ok(());
            }
        }
        let ents = new_entries_of(&m.entries, self.raft_log.committed);
        self.raft_log.append(ents.as_slice());
        let last = self.raft_log.last_index();
        let n = m.entries.len();
        let last_new = if n > 0 {
            m.entries[n - 1].index
        } else {
            m.index
        };
        let bound = if last_new <= last {
            last_new
        } else {
            last
        };
        let target = if m.commit <= bound {
            m.commit
        } else {
            bound
        };
        if target > self.raft_log.committed {
            self.raft_log.committed = target;
        }
        let resp = reply_msg(MessageType::MsgAppendResponse, m.from, self.id, self.term, false, last);
        self.push_msg(resp);
        Ok(())
    }

    fn handle_heartbeat(&mut self, m: Message)
        requires
            old(self)@.wf(),
        ensures
            final(self)@ == old(self)@.handle_heartbeat(m@),
            final(self)@.wf(),
            final(self).random_election_timeout == old(self).random_election_timeout,
    {
        if m.term < self.term {
            return ;
        }
        if m.term > self.term {
            self.term = m.term;
        }
        self.lead = m.from;
        if m.commit > self.raft_log.committed {
            let last = self.raft_log.last_index();
            self.raft_log.committed = if m.commit <= last {
                m.commit
            } else {
                last
            };
        }
        let mut resp = Message::new();
        resp.msg_type = MessageType::MsgHeartbeatResponse;
        resp.to = m.from;
        resp.from = self.id;
        resp.term = self.term;
        self.push_msg(resp);
    }

    fn handle_snapshot(&mut self, m: Message) -> (r: Result<(), RaftError>)
        requires
            old(self)@.wf(),
            old(self)@.handle_snapshot(m@) is Some,
        ensures
            (final(self)@, r) == old(self)@.handle_snapshot(m@)->0,
            final(self)@.wf(),
            final(self).random_election_timeout == old(self).random_election_timeout,
    {
        if let Some(snapshot) = m.snapshot {
            if snapshot.metadata.index <= self.raft_log.committed {
                return Ok(());
            }
            let res = self.raft_log.apply_snapshot(snapshot);
            if res.is_err() {
                return res;
            }
            let last = self.raft_log.last_index();
            let resp = reply_msg(MessageType::MsgAppendResponse, m.from, self.id, self.term, false, last);
            self.push_msg(resp);
        }
        Ok(())
    }

    fn handle_request_vote(&mut self, m: Message)
        requires
            old(self)@.wf(),
        ensures
            final(self)@ == old(self)@.handle_request_vote(m@),
            final(self)@.wf(),
            final(self).timer_ok(old(self).random_election_timeout),
    {
        if m.term < self.term {
            let resp = reply_msg(MessageType::MsgRequestVoteResponse, m.from, self.id, self.term, true, 0);
            self.push_msg(resp);
            return ;
        }
        if m.term > self.term {
            self.become_follower(m.term, NONE);
        }
        let can_vote = self.vote == NONE || self.vote == m.from;
        let last_index = self.raft_log.last_index();
        let last_term = match self.raft_log.term_sync(last_index) {
            Some(t) => t,
            None => 0,
        };
        let log_ok = m.log_term > last_term || (m.log_term == last_term && m.index >= last_index);
        if can_vote && log_ok {
            self.vote = m.from;
            self.election_elapsed = 0;
            let resp = reply_msg(MessageType::MsgRequestVoteResponse, m.from, self.id, self.term, false, 0);
            self.push_msg(resp);
        } else {
            let resp = reply_msg(MessageType::MsgRequestVoteResponse, m.from, self.id, self.term, true, 0);
            self.push_msg(resp);
        }
    }

    fn count_votes_of(&self, b: bool) -> (r: usize)
        ensures
            r == count_votes(self.votes@, b),
    {
        count_votes_in(&self.votes, b)
    }

    fn handle_request_vote_response(&mut self, m: Message)
        requires
            old(self)@.wf(),
            old(self)@.handle_request_vote_response(m@) is Some,
        ensures
            final(self)@ == old(self)@.handle_request_vote_response(m@)->0,
            final(self)@.wf(),
            final(self).timer_ok(old(self).random_election_timeout),
    {
        if m.term != self.term || self.state != StateType::Candidate {
            return ;
        }
        self.votes.insert(m.from, !m.reject);
        let granted = self.count_votes_of(true);
        let rejected = self.count_votes_of(false);
        let quorum = self.quorum();
        if granted >= quorum {
            self.become_leader();
        } else if rejected >= quorum {
            let term = self.term;
            self.become_follower(term, NONE);
        }
    }
}

} // verus!

verus! {

/// The progress map after inserting a fresh progress (`next_index` = `next`)
/// for each id of `ids` but `skip`, in order.
pub open spec fn insert_peers(s: Seq<(u64, Progress)>, ids: Seq<u64>, skip: u64, next: u64) -> Seq<
    (u64, Progress),
>
    decreases ids.len(),
{
    if ids.len() == 0 {
        s
    } else {
        let t = insert_peers(s, ids.drop_last(), skip, next);
        if ids.last() != skip {
            inserted(t, ids.last(), Progress { match_index: 0, next_index: next })
        } else {
            t
        }
    }
}

/// The progress map of a new node: from the configured peers, or from the
/// stored membership when the configuration names no other peer.
pub open spec fn initial_prs(peers: Seq<u64>, nodes: Seq<u64>, id: u64, next: u64) -> Seq<
    (u64, Progress),
> {
    let a = insert_peers(Seq::empty(), peers, id, next);
    if a.len() == 0 && nodes.len() > 0 {
        insert_peers(Seq::empty(), nodes, id, next)
    } else {
        a
    }
}

impl Raft {
    fn handle_append_response(&mut self, m: Message)
        requires
            old(self)@.wf(),
            old(self)@.handle_append_response(m@) is Some,
        ensures
            final(self)@ == old(self)@.handle_append_response(m@)->0,
            final(self)@.wf(),
            final(self).random_election_timeout == old(self).random_election_timeout,
    {
        if m.term < self.term {
            return ;
        }
        match self.prs.get(m.from) {
            Some(p) => {
                let mut progress = p;
                if m.reject {
                    progress.decrease_next(m.index);
                } else {
                    progress.update_match(m.index);
                }
                self.prs.insert(m.from, progress);
            },
            None => {},
        }
        if !m.reject {
            self.maybe_commit();
        }
        match self.prs.get(m.from) {
            Some(progress) => {
                if m.reject {
                    self.send_append(m.from);
                } else if progress.next_index <= self.raft_log.last_index() {
                    self.send_append(m.from);
                }
            },
            None => {},
        }
    }

    fn handle_heartbeat_response(&mut self, m: Message)
        requires
            old(self)@.wf(),
            old(self)@.handle_heartbeat_response(m@) is Some,
        ensures
            final(self)@ == old(self)@.handle_heartbeat_response(m@)->0,
            final(self)@.wf(),
            final(self).random_election_timeout == old(self).random_election_timeout,
    {
        if m.term < self.term {
            return ;
        }
        match self.prs.get(m.from) {
            Some(progress) => {
                if progress.next_index <= self.raft_log.last_index() {
                    self.send_append(m.from);
                }
            },
            None => {},
        }
    }

    fn step_follower(&mut self, m: Message) -> (r: Result<(), RaftError>)
        requires
            old(self)@.wf(),
            old(self)@.step_follower(m@) is Some,
        ensures
            (final(self)@, r) == old(self)@.step_follower(m@)->0,
            final(self)@.wf(),
            final(self).timer_ok(old(self).random_election_timeout),
    {
        match m.msg_type {
            MessageType::MsgHup | MessageType::MsgTimeoutNow => self.campaign(),
            MessageType::MsgBeat | MessageType::MsgPropose => {
                if self.lead != NONE {
                    let mut msg = m;
                    msg.to = self.lead;
                    self.push_msg(msg);
                }
                Ok(())
            },
            MessageType::MsgAppend => {
                self.election_elapsed = 0;
                self.handle_append_entries(m)
            },
            MessageType::MsgHeartbeat => {
                self.election_elapsed = 0;
                self.handle_heartbeat(m);
                Ok(())
            },
            MessageType::MsgSnapshot => {
                self.election_elapsed = 0;
                self.handle_snapshot(m)
            },
            MessageType::MsgRequestVote => {
                self.handle_request_vote(m);
                Ok(())
            },
            _ => Ok(()),
        }
    }

    /// Follows the sender of `m` when `m` is of the current term or a
    /// later one.
    fn follow_current(&mut self, m: &Message)
        requires
            old(self)@.wf(),
        ensures
            final(self)@ == old(self)@.follow_current(m@),
            final(self)@.wf(),
            final(self).timer_ok(old(self).random_election_timeout),
    {
        if m.term >= self.term {
            let term = self.term;
            self.become_follower(term, m.from);
        }
    }

    fn step_candidate(&mut self, m: Message) -> (r: Result<(), RaftError>)
        requires
            old(self)@.wf(),
            old(self)@.step_candidate(m@) is Some,
        ensures
            (final(self)@, r) == old(self)@.step_candidate(m@)->0,
            final(self)@.wf(),
            final(self).timer_ok(old(self).random_election_timeout),
    {
        match m.msg_type {
            MessageType::MsgHup => self.campaign(),
            MessageType::MsgPropose => Ok(()),
            MessageType::MsgAppend => {
                self.follow_current(&m);
                self.handle_append_entries(m)
            },
            MessageType::MsgHeartbeat => {
                self.follow_current(&m);
                self.handle_heartbeat(m);
                Ok(())
            },
            MessageType::MsgSnapshot => {
                self.follow_current(&m);
                self.handle_snapshot(m)
            },
            MessageType::MsgRequestVote => {
                self.handle_request_vote(m);
                Ok(())
            },
            MessageType::MsgRequestVoteResponse => {
                self.handle_request_vote_response(m);
                Ok(())
            },
            _ => Ok(()),
        }
    }

    fn propose_entries(&mut self, m: Message)
        requires
            old(self)@.wf(),
            old(self).state == StateType::Leader,
            old(self)@.propose(m@) is Some,
        ensures
            final(self)@ == old(self)@.propose(m@)->0,
            final(self)@.wf(),
            final(self).random_election_timeout == old(self).random_election_timeout,
    {
        let last_index = self.raft_log.last_index();
        let ghost want = proposal_entries(m@.entries, self.term, last_index);
        let mut entries: Vec<Entry> = Vec::new();
        let n = m.entries.len();
        let mut i: usize = 0;
        while i < n
            invariant
                n == m.entries@.len(),
                0 <= i <= n,
                last_index + n < u64::MAX,
                want == proposal_entries(m@.entries, self.term, last_index),
                entries_view(entries@) =~= want.take(i as int),
            decreases n - i,
        {
            let e = &m.entries[i];
            let data = e.data.clone();
            let new_entry = if e.entry_type == EntryType::ConfChange {
                Entry::new_conf_change(self.term, last_index + 1 + i as u64, data)
            } else {
                Entry::new_normal(self.term, last_index + 1 + i as u64, data)
            };
            let ghost before = entries@;
            entries.push(new_entry);
            proof {
                assert(entries@ =~= before.push(new_entry));
                assert(entries_view(before.push(new_entry)) =~= entries_view(before).push(new_entry@));
                assert(want.take(i + 1) =~= want.take(i as int).push(want[i as int]));
            }
            i += 1;
        }
        proof {
            assert(want.take(n as int) =~= want);
        }
        self.raft_log.append(entries.as_slice());
        self.maybe_commit();
        self.bcast_append();
    }

    fn step_leader(&mut self, m: Message) -> (r: Result<(), RaftError>)
        requires
            old(self)@.wf(),
            old(self).state == StateType::Leader,
            old(self)@.step_leader(m@) is Some,
        ensures
            (final(self)@, r) == old(self)@.step_leader(m@)->0,
            final(self)@.wf(),
            final(self).timer_ok(old(self).random_election_timeout),
    {
        match m.msg_type {
            MessageType::MsgBeat => {
                self.bcast_heartbeat();
                Ok(())
            },
            MessageType::MsgPropose => {
                self.propose_entries(m);
                Ok(())
            },
            MessageType::MsgAppendResponse => {
                self.handle_append_response(m);
                Ok(())
            },
            MessageType::MsgHeartbeatResponse => {
                self.handle_heartbeat_response(m);
                Ok(())
            },
            MessageType::MsgRequestVote => {
                self.handle_request_vote(m);
                Ok(())
            },
            MessageType::MsgSnapshot => {
                self.follow_current(&m);
                self.handle_snapshot(m)
            },
            MessageType::MsgTransferLeader => {
                self.transfer_to(m.to);
                Ok(())
            },
            _ => Ok(()),
        }
    }

    /// Whether an append to `to` can be built from what the log holds.
    fn can_send_append(&self, to: u64) -> (r: bool)
        requires
            self@.wf(),
        ensures
            r == self@.append_safe(to),
    {
        let p = match self.prs.get(to) {
            Some(p) => p,
            None => return true,
        };
        let last = self.raft_log.last_index();
        proof {
            if self@.log.entries.len() > 0 {
                assert(self@.log.entries[self@.log.entries.len() - 1].index < u64::MAX);
            }
        }
        let first = self.raft_log.first_index();
        let len = self.raft_log.entries.len() as u64;
        send_ok_exec(p.next_index, first, last, len)
    }

    /// Starts handing leadership to `to`; see `RaftView::transfer_to`.
    fn transfer_to(&mut self, to: u64)
        requires
            old(self)@.wf(),
        ensures
            final(self)@ == old(self)@.transfer_to(to),
            final(self)@.wf(),
            final(self).random_election_timeout == old(self).random_election_timeout,
    {
        let p = match self.prs.get(to) {
            Some(p) => p,
            None => return ,
        };
        if p.match_index == self.raft_log.last_index() {
            let mut m = Message::new();
            m.msg_type = MessageType::MsgTimeoutNow;
            m.to = to;
            m.from = self.id;
            m.term = self.term;
            self.push_msg(m);
        } else if self.can_send_append(to) {
            self.send_append(to);
        }
    }

    /// Handles one message: the entry point of the state machine.
    pub fn step(&mut self, m: Message) -> (r: Result<(), RaftError>)
        requires
            old(self)@.wf(),
            old(self)@.step(m@) is Some,
        ensures
            (final(self)@, r) == old(self)@.step(m@)->0,
            final(self)@.wf(),
            final(self).timer_ok(old(self).random_election_timeout),
    {
        if m.term > self.term {
            if m.msg_type == MessageType::MsgRequestVote || m.msg_type == MessageType::MsgAppend {
                self.become_follower(m.term, NONE);
            } else {
                self.become_follower(m.term, m.from);
            }
        }
        match self.state {
            StateType::Follower => self.step_follower(m),
            StateType::Candidate => self.step_candidate(m),
            StateType::Leader => self.step_leader(m),
        }
    }

    /// Advances the logical clock by one tick.
    pub fn tick(&mut self)
        requires
            old(self)@.wf(),
            old(self)@.tick(old(self).random_election_timeout) is Some,
        ensures
            final(self)@ == old(self)@.tick(old(self).random_election_timeout)->0,
            final(self)@.wf(),
            final(self).timer_ok(old(self).random_election_timeout),
    {
        match self.state {
            StateType::Leader => {
                self.heartbeat_elapsed = self.heartbeat_elapsed + 1;
                if self.heartbeat_elapsed >= self.heartbeat_timeout {
                    self.heartbeat_elapsed = 0;
                    let mut m = Message::new();
                    m.msg_type = MessageType::MsgBeat;
                    m.from = self.id;
                    let _ = self.step(m);
                }
            },
            _ => {
                self.election_elapsed = self.election_elapsed + 1;
                if self.election_elapsed >= self.random_election_timeout {
                    self.election_elapsed = 0;
                    let mut m = Message::new();
                    m.msg_type = MessageType::MsgHup;
                    m.from = self.id;
                    let _ = self.step(m);
                }
            },
        }
    }

    /// Adds a peer with a fresh progress, unless it is this node or known.
    pub fn add_node(&mut self, id: u64)
        requires
            old(self)@.wf(),
            old(self)@.prs.len() + 1 < usize::MAX,
        ensures
            final(self)@ == old(self)@.add_node(id),
            final(self)@.wf(),
            final(self).random_election_timeout == old(self).random_election_timeout,
    {
        if id == self.id {
            return ;
        }
        if !self.prs.contains_key(id) {
            let next_index = self.raft_log.last_index() + 1;
            self.prs.insert(id, Progress::new(next_index));
        }
    }

    /// Removes a peer; a leader then looks whether more entries commit.
    pub fn remove_node(&mut self, id: u64)
        requires
            old(self)@.wf(),
        ensures
            final(self)@ == old(self)@.remove_node(id),
            final(self)@.wf(),
            final(self).random_election_timeout == old(self).random_election_timeout,
    {
        if id == self.id {
            return ;
        }
        self.prs.remove(id);
        if self.state == StateType::Leader {
            self.maybe_commit();
        }
    }
}

} // verus!

verus! {

impl Raft {
    /// Inserts a fresh progress for each id of `ids` but this node's.
    fn insert_peers_of(&mut self, ids: &Vec<u64>, next: u64)
        requires
            distinct_keys(old(self).prs@),
            !has_key(old(self).prs@, old(self).id),
            old(self).prs@.len() + ids@.len() < usize::MAX,
        ensures
            final(self).prs@ == insert_peers(old(self).prs@, ids@, old(self).id, next),
            final(self).prs@.len() <= old(self).prs@.len() + ids@.len(),
            distinct_keys(final(self).prs@),
            !has_key(final(self).prs@, old(self).id),
            final(self)@ == (RaftView { prs: final(self).prs@, ..old(self)@ }),
            final(self).random_election_timeout == old(self).random_election_timeout,
    {
        let ghost start = self.prs@;
        let n: usize = ids.len();
        let mut i: usize = 0;
        while i < n
            invariant
                n == ids@.len(),
                0 <= i <= n,
                self.prs@ == insert_peers(start, ids@.take(i as int), self.id, next),
                self.prs@.len() <= start.len() + i,
                start.len() + n < usize::MAX,
                distinct_keys(self.prs@),
                !has_key(self.prs@, self.id),
                self@ == (RaftView { prs: self.prs@, ..old(self)@ }),
                self.random_election_timeout == old(self).random_election_timeout,
            decreases n - i,
        {
            let peer_id = ids[i];
            proof {
                assert(ids@.take(i + 1).drop_last() =~= ids@.take(i as int));
            }
            if peer_id != self.id {
                self.prs.insert(peer_id, Progress::new(next));
                proof {
                    if has_key(self.prs@, self.id) {
                        let j = choose|j: int| 0 <= j < self.prs@.len() && self.prs@[j].0 == self.id;
                        let prev = insert_peers(start, ids@.take(i as int), self.id, next);
                        if has_key(prev, peer_id) {
                            assert(self.prs@[j] == prev[j] || j == key_pos(prev, peer_id));
                            assert(self.prs@[j].0 == prev[j].0);
                        }
                    }
                }
            }
            i += 1;
        }
        proof {
            assert(ids@.take(n as int) =~= ids@);
        }
    }

    /// Builds a node from its configuration and what storage holds: the
    /// hard state, the membership and the log read from it.
    pub fn new(config: RaftConfig, hard_state: HardState, conf_state: ConfState, raft_log: RaftLog)
        -> (r: Result<Raft, RaftError>)
        requires
            raft_log@.wf(),
            config.spec_validate() is Ok ==> config.election_tick * 2 <= usize::MAX,
            config.peers@.len() < usize::MAX,
            conf_state.nodes@.len() < usize::MAX,
        ensures
            config.spec_validate() is Err ==> r == Err::<Raft, RaftError>(
                config.spec_validate()->Err_0,
            ),
            config.spec_validate() is Ok ==> r is Ok,
            r matches Ok(raft) ==> {
                &&& raft@ == (RaftView {
                    id: config.id,
                    term: hard_state.term,
                    vote: hard_state.vote,
                    log: LogView { applied: config.applied, ..raft_log@ },
                    prs: initial_prs(
                        config.peers@,
                        conf_state.nodes@,
                        config.id,
                        (raft_log@.last_index() + 1) as u64,
                    ),
                    state: StateType::Follower,
                    votes: Seq::empty(),
                    msgs: Seq::empty(),
                    lead: NONE,
                    heartbeat_timeout: config.heartbeat_tick,
                    election_timeout: config.election_tick,
                    heartbeat_elapsed: 0,
                    election_elapsed: 0,
                })
                &&& raft@.wf()
                &&& raft.election_timeout <= raft.random_election_timeout <= 2 * raft.election_timeout
            },
    {
        match config.validate() {
            Ok(()) => {},
            Err(e) => {
                return Err(e);
            },
        }
        let mut raft_log = raft_log;
        raft_log.applied = config.applied;
        let last_index = raft_log.last_index();
        let random_election_timeout = random_in_range(
            config.election_tick,
            config.election_tick * 2,
        );
        let msgs: Vec<Message> = Vec::new();
        proof {
            assert(messages_view(msgs@) =~= Seq::<MessageView>::empty());
        }
        let mut raft = Raft {
            id: config.id,
            term: hard_state.term,
            vote: hard_state.vote,
            raft_log,
            prs: IdMap::new(),
            state: StateType::Follower,
            votes: IdMap::new(),
            msgs,
            lead: NONE,
            heartbeat_timeout: config.heartbeat_tick,
            election_timeout: config.election_tick,
            heartbeat_elapsed: 0,
            election_elapsed: 0,
            random_election_timeout,
        };
        raft.insert_peers_of(&config.peers, last_index + 1);
        if raft.prs.is_empty() && conf_state.nodes.len() > 0 {
            proof {
                assert(raft.prs@ =~= Seq::<(u64, Progress)>::empty());
            }
            raft.insert_peers_of(&conf_state.nodes, last_index + 1);
        }
        Ok(raft)
    }
}

} // verus!

verus! {

/// `send_ok` on machine integers.
fn send_ok_exec(next: u64, first: u64, last: u64, len: u64) -> (r: bool)
    requires
        last < u64::MAX,
    ensures
        r == send_ok(next, first as int, last as int, len as int),
{
    if next > last + 1 {
        return true;
    }
    if next < 1 {
        return false;
    }
    if next > last {
        return true;
    }
    if next < first {
        return false;
    }
    let span = last - first + 1;
    let end = if span <= len {
        span
    } else {
        len
    };
    next - first <= end
}

/// The first index of `log` once entries are appended right after its
/// last one, and how many of its entries stay.
fn kept_after(log: &RaftLog) -> (r: (u64, u64))
    requires
        log@.wf(),
    ensures
        r.0 == first_after(log@, 1),
        r.1 == kept_len(log@, log@.last_index() + 1),
        r.1 <= log@.last_index(),
{
    let last = log.last_index();
    proof {
        if log@.entries.len() > 0 {
            assert(log@.entries[log@.entries.len() - 1].index < u64::MAX);
            assert(log@.entries[0].index >= 1);
        }
    }
    let after = last + 1;
    let first = log.first_index();
    let len = log.entries.len() as u64;
    let k = if after <= first {
        0
    } else if after - first < len {
        after - first
    } else {
        len
    };
    let f = if k == 0 {
        after
    } else {
        first
    };
    (f, k)
}

/// How many of the recorded votes are `b`.
fn count_votes_in(votes: &IdMap<bool>, b: bool) -> (r: usize)
    ensures
        r == count_votes(votes@, b),
{
    let n = votes.len();
    let mut c: usize = 0;
    let mut i: usize = 0;
    while i < n
        invariant
            n == votes@.len(),
            0 <= i <= n,
            c == count_votes(votes@.take(i as int), b),
            c <= i,
        decreases n - i,
    {
        proof {
            assert(votes@.take(i + 1).drop_last() =~= votes@.take(i as int));
        }
        let (_, v) = votes.get_at(i);
        if v == b {
            c += 1;
        }
        i += 1;
    }
    proof {
        assert(votes@.take(n as int) =~= votes@);
    }
    c
}

impl Raft {
    /// Whether every peer can be sent an append from a log with first
    /// index `first`, last index `last` and `len` entries.
    fn all_peers_send_ok(&self, first: u64, last: u64, len: u64) -> (r: bool)
        requires
            last < u64::MAX,
        ensures
            r == forall|i: int|
                0 <= i < self@.prs.len() ==> send_ok(
                    #[trigger] self@.prs[i].1.next_index,
                    first as int,
                    last as int,
                    len as int,
                ),
    {
        let n = self.prs.len();
        let mut i: usize = 0;
        while i < n
            invariant
                n == self@.prs.len(),
                0 <= i <= n,
                last < u64::MAX,
                forall|j: int|
                    0 <= j < i ==> send_ok(
                        #[trigger] self@.prs[j].1.next_index,
                        first as int,
                        last as int,
                        len as int,
                    ),
            decreases n - i,
        {
            let (_, p) = self.prs.get_at(i);
            if !send_ok_exec(p.next_index, first, last, len) {
                return false;
            }
            i += 1;
        }
        true
    }

    fn leader_possible_exec(&self) -> (r: bool)
        requires
            self@.wf(),
        ensures
            r == leader_possible(self@.log, self@.prs),
    {
        let last = self.raft_log.last_index();
        if last >= u64::MAX - 1 {
            return false;
        }
        if self.prs.len() == 0 {
            return true;
        }
        let (f, k) = kept_after(&self.raft_log);
        send_ok_exec(last + 1, f, last + 1, k + 1)
    }

    fn campaign_possible_exec(&self, term: u64) -> (r: bool)
        requires
            self@.wf(),
        ensures
            r == (term < u64::MAX && (self@.prs.len() != 0 || self@.log.last_index() + 1
                < u64::MAX)),
    {
        let last = self.raft_log.last_index();
        term < u64::MAX && (self.prs.len() != 0 || last < u64::MAX - 1)
    }

    fn append_possible_exec(&self, term: u64, m: &Message) -> (r: bool)
        requires
            self@.wf(),
        ensures
            r == append_possible(self@.log, term, m@),
    {
        if m.term < term {
            return true;
        }
        let last = self.raft_log.last_index();
        if m.index > last {
            return true;
        }
        if m.index > 0 {
            match self.raft_log.term_sync(m.index) {
                None => return true,
                Some(t) => {
                    if t != m.log_term {
                        return true;
                    }
                },
            }
        }
        let committed = self.raft_log.committed;
        let ents = new_entries_of(&m.entries, committed);
        let ghost ev = entries_view(ents@);
        let n = ents.len();
        let mut i: usize = 0;
        while i < n
            invariant
                n == ents@.len(),
                ev == entries_view(ents@),
                committed == self@.log.committed,
                append_possible(self@.log, term, m@) == self@.log.can_append(ev),
                0 <= i <= n,
                forall|j: int| 0 <= j < i ==> committed < #[trigger] ev[j].index < u64::MAX,
            decreases n - i,
        {
            let idx = ents[i].index;
            proof {
                assert(ev[i as int].index == idx);
            }
            if !(committed < idx && idx < u64::MAX) {
                proof {
                    assert(!self@.log.can_append(ev));
                }
                return false;
            }
            i += 1;
        }
        true
    }

    fn snapshot_possible_exec(&self, m: &Message) -> (r: bool)
        ensures
            r == snapshot_possible(self@.log, m@),
    {
        match &m.snapshot {
            None => true,
            Some(sn) => sn.metadata.index <= self.raft_log.committed || sn.metadata.index
                < u64::MAX,
        }
    }

    fn vote_response_possible(&self, m: &Message) -> (r: bool)
        requires
            self@.wf(),
        ensures
            r == (self@.handle_request_vote_response(m@) is Some),
    {
        if m.term != self.term || self.state != StateType::Candidate {
            return true;
        }
        let mut votes = self.votes.copy();
        votes.insert(m.from, !m.reject);
        let c = count_votes_in(&votes, true);
        if c >= self.quorum() {
            proof {
                lemma_become_leader_some(
                    RaftView { votes: inserted(self@.votes, m.from, !m.reject), ..self@ },
                );
            }
            self.leader_possible_exec()
        } else {
            true
        }
    }

    fn append_response_possible(&self, m: &Message) -> (r: bool)
        requires
            self@.wf(),
        ensures
            r == (self@.handle_append_response(m@) is Some),
    {
        proof {
            lemma_append_response_some(self@, m@);
        }
        if m.term < self.term {
            return true;
        }
        let p = match self.prs.get(m.from) {
            None => return true,
            Some(p) => p,
        };
        let next: u64;
        if m.reject {
            if p.next_index > 1 && m.index == u64::MAX {
                return false;
            }
            let shrink = p.next_index > 1 && p.next_index > m.index + 1;
            if !shrink && p.next_index < 1 {
                return false;
            }
            next = if shrink {
                m.index + 1
            } else {
                p.next_index - 1
            };
        } else {
            if m.index == u64::MAX {
                return false;
            }
            next = m.index + 1;
        }
        let last = self.raft_log.last_index();
        if m.reject || next <= last {
            proof {
                if last == u64::MAX && self@.log.entries.len() > 0 {
                    assert(self@.log.entries[self@.log.entries.len() - 1].index < u64::MAX);
                }
            }
            let first = self.raft_log.first_index();
            let len = self.raft_log.entries.len() as u64;
            send_ok_exec(next, first, last, len)
        } else {
            true
        }
    }

    fn heartbeat_response_possible(&self, m: &Message) -> (r: bool)
        requires
            self@.wf(),
        ensures
            r == (self@.handle_heartbeat_response(m@) is Some),
    {
        if m.term < self.term {
            return true;
        }
        match self.prs.get(m.from) {
            None => true,
            Some(p) => if p.next_index <= self.raft_log.last_index() {
                self.can_send_append(m.from)
            } else {
                true
            },
        }
    }

    fn propose_possible(&self, m: &Message) -> (r: bool)
        requires
            self@.wf(),
        ensures
            r == (self@.propose(m@) is Some),
    {
        proof {
            lemma_propose_some(self@, m@);
            if self@.log.entries.len() > 0 {
                assert(self@.log.entries[self@.log.entries.len() - 1].index < u64::MAX);
            }
        }
        let last = self.raft_log.last_index();
        let n = m.entries.len() as u64;
        if n >= u64::MAX - last {
            return false;
        }
        if n == 0 {
            let first = self.raft_log.first_index();
            let len = self.raft_log.entries.len() as u64;
            self.all_peers_send_ok(first, last, len)
        } else {
            let (f, k) = kept_after(&self.raft_log);
            self.all_peers_send_ok(f, last + n, k + n)
        }
    }

    /// Whether `step(m)` can run: it does unless the message would take an
    /// index or a term past `u64::MAX`, or would have the leader build an
    /// append from entries it no longer holds.
    pub fn can_step(&self, m: &Message) -> (r: bool)
        requires
            self@.wf(),
        ensures
            r == (self@.step(m@) is Some),
    {
        let ghost s = self@;
        let ghost rv = if m@.term > s.term {
            if m@.msg_type == MessageType::MsgRequestVote || m@.msg_type == MessageType::MsgAppend {
                s.become_follower(m@.term, NONE)
            } else {
                s.become_follower(m@.term, m@.from)
            }
        } else {
            s
        };
        proof {
            lemma_campaign_some(rv);
            lemma_append_entries_some(RaftView { election_elapsed: 0, ..rv }, m@);
            lemma_append_entries_some(rv.follow_current(m@), m@);
        }
        let (term, state) = if m.term > self.term {
            (m.term, StateType::Follower)
        } else {
            (self.term, self.state)
        };
        match state {
            StateType::Follower => match m.msg_type {
                MessageType::MsgHup | MessageType::MsgTimeoutNow => self.campaign_possible_exec(term),
                MessageType::MsgAppend => self.append_possible_exec(term, m),
                MessageType::MsgSnapshot => self.snapshot_possible_exec(m),
                _ => true,
            },
            StateType::Candidate => match m.msg_type {
                MessageType::MsgHup => self.campaign_possible_exec(term),
                MessageType::MsgAppend => self.append_possible_exec(term, m),
                MessageType::MsgSnapshot => self.snapshot_possible_exec(m),
                MessageType::MsgRequestVoteResponse => self.vote_response_possible(m),
                _ => true,
            },
            StateType::Leader => match m.msg_type {
                MessageType::MsgPropose => self.propose_possible(m),
                MessageType::MsgAppendResponse => self.append_response_possible(m),
                MessageType::MsgHeartbeatResponse => self.heartbeat_response_possible(m),
                MessageType::MsgSnapshot => self.snapshot_possible_exec(m),
                _ => true,
            },
        }
    }

    /// Whether `tick()` can run with the current randomized timeout.
    pub fn can_tick(&self) -> (r: bool)
        requires
            self@.wf(),
        ensures
            r == (self@.tick(self.random_election_timeout) is Some),
    {
        if self.state == StateType::Leader {
            return self.heartbeat_elapsed < usize::MAX;
        }
        if self.election_elapsed == usize::MAX {
            return false;
        }
        if self.election_elapsed + 1 >= self.random_election_timeout {
            proof {
                lemma_campaign_some(RaftView { election_elapsed: 0, ..self@ });
            }
            self.campaign_possible_exec(self.term)
        } else {
            true
        }
    }
}

} // verus!
