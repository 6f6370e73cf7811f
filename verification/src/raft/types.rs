use vstd::prelude::*;

verus! {

/// The node id that stands for "no node" (no leader, no vote).
pub const NONE: u64 = 0;

/// Role of a Raft node.
#[derive(Debug, Clone, Copy, PartialEq, Eq, Structural)]
pub enum StateType {
    Follower,
    Candidate,
    Leader,
}

impl StateType {
    pub fn as_str(&self) -> (r: &'static str)
        ensures
            *self == StateType::Follower ==> r@ == "StateFollower"@,
            *self == StateType::Candidate ==> r@ == "StateCandidate"@,
            *self == StateType::Leader ==> r@ == "StateLeader"@,
    {
        match self {
            StateType::Follower => "StateFollower",
            StateType::Candidate => "StateCandidate",
            StateType::Leader => "StateLeader",
        }
    }
}

/// Kind of a log entry.
#[derive(Debug, Clone, Copy, PartialEq, Eq, Structural)]
pub enum EntryType {
    Normal,
    ConfChange,
}

/// Mathematical value of a log entry.
pub struct EntryView {
    pub entry_type: EntryType,
    pub term: u64,
    pub index: u64,
    pub data: Seq<u8>,
}

/// A Raft log entry.
#[derive(Debug)]
pub struct Entry {
    pub entry_type: EntryType,
    pub term: u64,
    pub index: u64,
    pub data: Vec<u8>,
}

impl View for Entry {
    type V = EntryView;

    open spec fn view(&self) -> EntryView {
        EntryView { entry_type: self.entry_type, term: self.term, index: self.index, data: self.data@ }
    }
}

impl Clone for Entry {
    fn clone(&self) -> (r: Self)
        ensures
            r@ == self@,
    {
        Entry { entry_type: self.entry_type, term: self.term, index: self.index, data: self.data.clone() }
    }
}

/// The views of a sequence of entries.
pub open spec fn entries_view(s: Seq<Entry>) -> Seq<EntryView> {
    s.map_values(|e: Entry| e@)
}

/// Copies `src[lo..hi]`.
pub(crate) fn clone_entries(src: &[Entry], lo: usize, hi: usize) -> (r: Vec<Entry>)
    requires
        lo <= hi <= src@.len(),
    ensures
        entries_view(r@) == entries_view(src@.subrange(lo as int, hi as int)),
{
    let mut r: Vec<Entry> = Vec::new();
    let mut i: usize = lo;
    while i < hi
        invariant
            lo <= i <= hi <= src@.len(),
            entries_view(r@) =~= entries_view(src@.subrange(lo as int, i as int)),
        decreases hi - i,
    {
        let ghost before = r@;
        let e = src[i].clone();
        r.push(e);
        proof {
            assert(src@.subrange(lo as int, i + 1) =~= src@.subrange(lo as int, i as int).push(
                src@[i as int],
            ));
            assert(r@ =~= before.push(e));
            assert(entries_view(before.push(e)) =~= entries_view(before).push(e@));
            assert(entries_view(src@.subrange(lo as int, i as int).push(src@[i as int]))
                =~= entries_view(src@.subrange(lo as int, i as int)).push(src@[i as int]@));
        }
        i += 1;
    }
    r
}

impl Entry {
    pub fn new_normal(term: u64, index: u64, data: Vec<u8>) -> (r: Self)
        ensures
            r@ == (EntryView { entry_type: EntryType::Normal, term, index, data: data@ }),
    {
        Entry { entry_type: EntryType::Normal, term, index, data }
    }

    pub fn new_conf_change(term: u64, index: u64, data: Vec<u8>) -> (r: Self)
        ensures
            r@ == (EntryView { entry_type: EntryType::ConfChange, term, index, data: data@ }),
    {
        Entry { entry_type: EntryType::ConfChange, term, index, data }
    }
}

/// Kind of a Raft message.
#[derive(Debug, Clone, Copy, PartialEq, Eq, Structural)]
pub enum MessageType {
    MsgHup,
    MsgBeat,
    MsgPropose,
    MsgAppend,
    MsgAppendResponse,
    MsgRequestVote,
    MsgRequestVoteResponse,
    MsgSnapshot,
    MsgHeartbeat,
    MsgHeartbeatResponse,
    MsgTransferLeader,
    MsgTimeoutNow,
}

impl MessageType {
    pub open spec fn spec_is_local(self) -> bool {
        self == MessageType::MsgHup || self == MessageType::MsgBeat || self
            == MessageType::MsgPropose
    }

    pub open spec fn spec_is_response(self) -> bool {
        self == MessageType::MsgAppendResponse || self == MessageType::MsgRequestVoteResponse
            || self == MessageType::MsgHeartbeatResponse
    }

    /// Whether the message is generated locally (never received from the network).
    pub fn is_local(&self) -> (r: bool)
        ensures
            r == self.spec_is_local(),
    {
        match self {
            MessageType::MsgHup | MessageType::MsgBeat | MessageType::MsgPropose => true,
            _ => false,
        }
    }

    /// Whether the message answers another message.
    pub fn is_response(&self) -> (r: bool)
        ensures
            r == self.spec_is_response(),
    {
        match self {
            MessageType::MsgAppendResponse
            | MessageType::MsgRequestVoteResponse
            | MessageType::MsgHeartbeatResponse => true,
            _ => false,
        }
    }
}

/// Membership of the cluster.
#[derive(Debug)]
pub struct ConfState {
    pub nodes: Vec<u64>,
}

impl Clone for ConfState {
    fn clone(&self) -> (r: Self)
        ensures
            r.nodes@ == self.nodes@,
    {
        ConfState { nodes: self.nodes.clone() }
    }
}

/// Metadata of a snapshot.
#[derive(Debug)]
pub struct SnapshotMetadata {
    pub conf_state: ConfState,
    pub index: u64,
    pub term: u64,
}

/// Mathematical value of a snapshot.
pub struct SnapshotView {
    pub data: Seq<u8>,
    pub nodes: Seq<u64>,
    pub index: u64,
    pub term: u64,
}

/// A snapshot of the state machine.
#[derive(Debug)]
pub struct Snapshot {
    pub data: Vec<u8>,
    pub metadata: SnapshotMetadata,
}

impl View for Snapshot {
    type V = SnapshotView;

    open spec fn view(&self) -> SnapshotView {
        SnapshotView {
            data: self.data@,
            nodes: self.metadata.conf_state.nodes@,
            index: self.metadata.index,
            term: self.metadata.term,
        }
    }
}

impl Clone for Snapshot {
    fn clone(&self) -> (r: Self)
        ensures
            r@ == self@,
    {
        Snapshot {
            data: self.data.clone(),
            metadata: SnapshotMetadata {
                conf_state: self.metadata.conf_state.clone(),
                index: self.metadata.index,
                term: self.metadata.term,
            },
        }
    }
}

impl Snapshot {
    pub open spec fn spec_is_empty(&self) -> bool {
        self.metadata.index == 0
    }

    pub fn is_empty(&self) -> (r: bool)
        ensures
            r == self.spec_is_empty(),
    {
        self.metadata.index == 0
    }
}

/// The view of an optional snapshot.
pub open spec fn opt_snapshot_view(s: Option<Snapshot>) -> Option<SnapshotView> {
    match s {
        Some(x) => Some(x@),
        None => None,
    }
}

/// State that must be persisted before messages are sent.
#[derive(Debug, Clone, Copy, PartialEq, Eq, Structural)]
pub struct HardState {
    pub term: u64,
    pub vote: u64,
    pub commit: u64,
}

impl HardState {
    pub open spec fn spec_is_empty(&self) -> bool {
        self.term == 0 && self.vote == 0 && self.commit == 0
    }

    pub fn is_empty(&self) -> (r: bool)
        ensures
            r == self.spec_is_empty(),
    {
        self.term == 0 && self.vote == 0 && self.commit == 0
    }
}

/// Kind of a membership change.
#[derive(Debug, Clone, Copy, PartialEq, Eq, Structural)]
pub enum ConfChangeType {
    AddNode,
    RemoveNode,
}

/// A membership change.
#[derive(Debug)]
pub struct ConfChange {
    pub change_type: ConfChangeType,
    pub node_id: u64,
    pub context: Vec<u8>,
}

/// Mathematical value of a message.
pub struct MessageView {
    pub msg_type: MessageType,
    pub to: u64,
    pub from: u64,
    pub term: u64,
    pub log_term: u64,
    pub index: u64,
    pub entries: Seq<EntryView>,
    pub commit: u64,
    pub snapshot: Option<SnapshotView>,
    pub reject: bool,
}

/// A Raft message.
#[derive(Debug)]
pub struct Message {
    pub msg_type: MessageType,
    pub to: u64,
    pub from: u64,
    pub term: u64,
    /// Term of the entry at `index`.
    pub log_term: u64,
    pub index: u64,
    pub entries: Vec<Entry>,
    pub commit: u64,
    pub snapshot: Option<Snapshot>,
    /// Whether a response rejects the request.
    pub reject: bool,
}

impl View for Message {
    type V = MessageView;

    open spec fn view(&self) -> MessageView {
        MessageView {
            msg_type: self.msg_type,
            to: self.to,
            from: self.from,
            term: self.term,
            log_term: self.log_term,
            index: self.index,
            entries: entries_view(self.entries@),
            commit: self.commit,
            snapshot: opt_snapshot_view(self.snapshot),
            reject: self.reject,
        }
    }
}

/// The views of a sequence of messages.
pub open spec fn messages_view(s: Seq<Message>) -> Seq<MessageView> {
    s.map_values(|m: Message| m@)
}

/// A message with every field at its neutral value and the given kind and ends.
pub open spec fn blank_message(msg_type: MessageType, to: u64, from: u64, term: u64) -> MessageView {
    MessageView {
        msg_type,
        to,
        from,
        term,
        log_term: 0,
        index: 0,
        entries: Seq::empty(),
        commit: 0,
        snapshot: None,
        reject: false,
    }
}

impl Message {
    pub fn new() -> (r: Self)
        ensures
            r@ == blank_message(MessageType::MsgHup, NONE, NONE, 0),
    {
        let entries: Vec<Entry> = Vec::new();
        proof {
            assert(entries_view(entries@) =~= Seq::<EntryView>::empty());
        }
        Message {
            msg_type: MessageType::MsgHup,
            to: NONE,
            from: NONE,
            term: 0,
            log_term: 0,
            index: 0,
            entries,
            commit: 0,
            snapshot: None,
            reject: false,
        }
    }
}

impl Clone for Message {
    fn clone(&self) -> (r: Self)
        ensures
            r@ == self@,
    {
        let snapshot = match &self.snapshot {
            Some(s) => Some(s.clone()),
            None => None,
        };
        let entries = self.entries.clone();
        proof {
            assert(entries_view(entries@) =~= entries_view(self.entries@));
        }
        Message {
            msg_type: self.msg_type,
            to: self.to,
            from: self.from,
            term: self.term,
            log_term: self.log_term,
            index: self.index,
            entries,
            commit: self.commit,
            snapshot,
            reject: self.reject,
        }
    }
}

/// Errors of the Raft state machine.
#[derive(Debug, Clone, Copy, PartialEq, Eq, Structural)]
pub enum RaftError {
    /// The configured node id is `NONE`.
    InvalidId,
    /// The heartbeat tick is zero.
    InvalidHeartbeatTick,
    /// The election tick does not exceed the heartbeat tick.
    InvalidElectionTick,
    /// The term of the entry at this index is not held in memory.
    TermUnavailable(u64),
    /// A snapshot at this index is not newer than the commit index.
    SnapshotOutOfDate(u64),
    /// A compaction index is beyond the last index.
    CompactBeyondLast(u64),
    /// A local message was stepped from outside.
    LocalMessage,
    /// A response came from an unknown peer.
    PeerNotFound(u64),
    /// The node is not the leader.
    NotLeader,
}

/// Configuration of a Raft node.
#[derive(Debug)]
pub struct RaftConfig {
    /// Id of this node; never `NONE`.
    pub id: u64,
    /// Ids of all nodes of a new cluster, this one included.
    pub peers: Vec<u64>,
    /// Ticks without news from a leader before an election starts.
    pub election_tick: usize,
    /// Ticks between two heartbeats of a leader.
    pub heartbeat_tick: usize,
    /// Last applied index (set on restart).
    pub applied: u64,
}

impl Clone for RaftConfig {
    fn clone(&self) -> (r: Self)
        ensures
            r.id == self.id,
            r.peers@ == self.peers@,
            r.election_tick == self.election_tick,
            r.heartbeat_tick == self.heartbeat_tick,
            r.applied == self.applied,
    {
        RaftConfig {
            id: self.id,
            peers: self.peers.clone(),
            election_tick: self.election_tick,
            heartbeat_tick: self.heartbeat_tick,
            applied: self.applied,
        }
    }
}

impl RaftConfig {
    pub open spec fn spec_validate(&self) -> Result<(), RaftError> {
        if self.id == NONE {
            Err(RaftError::InvalidId)
        } else if self.heartbeat_tick == 0 {
            Err(RaftError::InvalidHeartbeatTick)
        } else if self.election_tick <= self.heartbeat_tick {
            Err(RaftError::InvalidElectionTick)
        } else {
            Ok(())
        }
    }

    pub fn validate(&self) -> (r: Result<(), RaftError>)
        ensures
            r == self.spec_validate(),
    {
        if self.id == NONE {
            return Err(RaftError::InvalidId);
        }
        if self.heartbeat_tick == 0 {
            return Err(RaftError::InvalidHeartbeatTick);
        }
        if self.election_tick <= self.heartbeat_tick {
            return Err(RaftError::InvalidElectionTick);
        }
        Ok(())
    }
}

} // verus!
