use aegisdb::raft::log::{RaftLog, TermLookup};
use aegisdb::raft::progress::{IdMap, Progress};
use aegisdb::raft::raft::Raft;
use aegisdb::raft::rawnode::RawNode;
use aegisdb::raft::types::{
    ConfChange, ConfChangeType, ConfState, Entry, EntryType, HardState, Message, MessageType,
    RaftConfig, RaftError, Snapshot, SnapshotMetadata, StateType,
};

fn config(id: u64, peers: Vec<u64>) -> RaftConfig {
    RaftConfig { id, peers, election_tick: 10, heartbeat_tick: 1, applied: 0 }
}

fn empty_hard_state() -> HardState {
    HardState { term: 0, vote: 0, commit: 0 }
}

fn new_node(id: u64, peers: Vec<u64>) -> Raft {
    let log = RaftLog::new(empty_hard_state(), 0, vec![]);
    Raft::new(config(id, peers.clone()), empty_hard_state(), ConfState { nodes: peers }, log).unwrap()
}

fn msg(msg_type: MessageType, from: u64, to: u64, term: u64) -> Message {
    let mut m = Message::new();
    m.msg_type = msg_type;
    m.from = from;
    m.to = to;
    m.term = term;
    m
}

fn entry(term: u64, index: u64) -> Entry {
    Entry::new_normal(term, index, vec![index as u8])
}

// ---------------------------------------------------------------- log

#[test]
fn log_indices_and_terms() {
    let log = RaftLog::new(empty_hard_state(), 3, vec![entry(1, 1), entry(1, 2), entry(2, 3)]);
    assert_eq!(log.first_index(), 1);
    assert_eq!(log.last_index(), 3);
    assert_eq!(log.term_sync(0), Some(0));
    assert_eq!(log.term_sync(3), Some(2));
    assert_eq!(log.term_sync(4), None);
    assert_eq!(log.term(2), TermLookup::Found(1));
    assert_eq!(log.term(9), TermLookup::InStorage);
    assert!(log.unstable_entries().is_empty());
}

#[test]
fn log_append_truncates_conflicts() {
    let mut log = RaftLog::new(empty_hard_state(), 0, vec![entry(1, 1), entry(1, 2), entry(1, 3)]);
    log.append(&[entry(2, 2), entry(2, 3), entry(2, 4)]);
    let terms: Vec<u64> = log.all_entries().iter().map(|e| e.term).collect();
    assert_eq!(terms, vec![1, 2, 2, 2]);
    assert_eq!(log.last_index(), 4);
    assert_eq!(log.unstable_entries().len(), 4);
}

#[test]
fn log_append_at_first_index_replaces_everything() {
    let mut log = RaftLog::new(empty_hard_state(), 0, vec![entry(1, 1), entry(1, 2)]);
    log.append(&[entry(2, 1)]);
    let got: Vec<(u64, u64)> = log.all_entries().iter().map(|e| (e.index, e.term)).collect();
    assert_eq!(got, vec![(1, 2)]);
    assert_eq!(log.last_index(), 1);
    assert_eq!(log.first_index(), 1);
}

#[test]
fn log_entries_after_a_snapshot_count() {
    let mut log = RaftLog::new(empty_hard_state(), 0, vec![]);
    let snap = Snapshot {
        data: vec![],
        metadata: SnapshotMetadata { conf_state: ConfState { nodes: vec![1] }, index: 5, term: 2 },
    };
    assert_eq!(log.apply_snapshot(snap), Ok(()));
    log.append(&[entry(3, 6)]);
    assert_eq!(log.first_index(), 6);
    assert_eq!(log.last_index(), 6);
    assert_eq!(log.term_sync(5), Some(2));
    assert_eq!(log.term_sync(6), Some(3));
}

#[test]
fn log_next_entries_and_compaction() {
    let hs = HardState { term: 1, vote: 0, commit: 2 };
    let mut log = RaftLog::new(hs, 3, vec![entry(1, 1), entry(1, 2), entry(1, 3)]);
    // exactly the committed entries that are not applied yet
    let next: Vec<u64> = log.next_entries().iter().map(|e| e.index).collect();
    assert_eq!(next, vec![1, 2]);
    log.applied = 1;
    let next: Vec<u64> = log.next_entries().iter().map(|e| e.index).collect();
    assert_eq!(next, vec![2]);
    log.committed = 3;
    let next: Vec<u64> = log.next_entries().iter().map(|e| e.index).collect();
    assert_eq!(next, vec![2, 3]);
    assert_eq!(log.maybe_compact(2), Ok(()));
    assert_eq!(log.first_index(), 3);
    assert_eq!(log.term(1), TermLookup::Compacted);
    assert_eq!(log.maybe_compact(9), Err(RaftError::CompactBeyondLast(9)));
}

#[test]
fn log_snapshot() {
    let mut log = RaftLog::new(HardState { term: 1, vote: 0, commit: 2 }, 2, vec![entry(1, 1), entry(1, 2)]);
    let old = Snapshot {
        data: vec![],
        metadata: SnapshotMetadata { conf_state: ConfState { nodes: vec![1] }, index: 1, term: 1 },
    };
    assert_eq!(log.apply_snapshot(old), Err(RaftError::SnapshotOutOfDate(1)));
    let snap = Snapshot {
        data: vec![7],
        metadata: SnapshotMetadata { conf_state: ConfState { nodes: vec![1] }, index: 10, term: 3 },
    };
    assert_eq!(log.apply_snapshot(snap), Ok(()));
    assert_eq!(log.last_index(), 10);
    assert_eq!(log.first_index(), 11);
    assert_eq!(log.committed, 10);
    // the pending snapshot answers for the term at its own index
    assert_eq!(log.term_sync(10), Some(3));
    assert_eq!(log.term(10), TermLookup::Found(3));
    assert_eq!(log.term_sync(9), None);
    assert!(log.pending_snapshot().is_some());
    assert!(log.take_pending_snapshot().is_some());
    assert!(log.pending_snapshot().is_none());
}

// ---------------------------------------------------------------- types

#[test]
fn small_types() {
    assert_eq!(StateType::Leader.as_str(), "StateLeader");
    assert_eq!(StateType::Follower.as_str(), "StateFollower");
    assert!(MessageType::MsgHup.is_local());
    assert!(!MessageType::MsgAppend.is_local());
    assert!(MessageType::MsgAppendResponse.is_response());
    assert!(!MessageType::MsgHeartbeat.is_response());
    assert!(empty_hard_state().is_empty());
    assert!(!HardState { term: 1, vote: 0, commit: 0 }.is_empty());
    let e = Entry::new_conf_change(2, 5, vec![1]);
    assert_eq!((e.entry_type, e.term, e.index), (EntryType::ConfChange, 2, 5));
    let snap = Snapshot { data: vec![], metadata: SnapshotMetadata { conf_state: ConfState { nodes: vec![] }, index: 0, term: 0 } };
    assert!(snap.is_empty());
}

#[test]
fn config_validation() {
    assert_eq!(config(0, vec![]).validate(), Err(RaftError::InvalidId));
    let mut c = config(1, vec![1]);
    c.heartbeat_tick = 0;
    assert_eq!(c.validate(), Err(RaftError::InvalidHeartbeatTick));
    c.heartbeat_tick = 10;
    assert_eq!(c.validate(), Err(RaftError::InvalidElectionTick));
    assert_eq!(config(1, vec![1]).validate(), Ok(()));
    let log = RaftLog::new(empty_hard_state(), 0, vec![]);
    assert!(Raft::new(config(0, vec![]), empty_hard_state(), ConfState { nodes: vec![] }, log).is_err());
}

#[test]
fn progress_and_id_map() {
    let mut p = Progress::new(5);
    p.update_match(7);
    assert_eq!((p.match_index, p.next_index), (7, 8));
    let mut q = Progress::new(5);
    q.decrease_next(3);
    assert_eq!(q.next_index, 4);
    let mut m: IdMap<u64> = IdMap::new();
    m.insert(3, 30);
    m.insert(1, 10);
    m.insert(3, 31);
    assert_eq!(m.keys(), vec![3, 1]);
    assert_eq!(m.get(3), Some(31));
    m.remove(3);
    assert_eq!(m.get(3), None);
    assert_eq!(m.len(), 1);
}

// ---------------------------------------------------------------- elections

#[test]
fn single_node_elects_itself() {
    let mut r = new_node(1, vec![1]);
    r.step(msg(MessageType::MsgHup, 1, 1, 0)).unwrap();
    assert_eq!(r.state, StateType::Leader);
    assert_eq!(r.term, 1);
    assert_eq!(r.raft_log.last_index(), 1);
    let mut p = msg(MessageType::MsgPropose, 1, 1, 0);
    p.entries = vec![Entry::new_normal(0, 0, b"x".to_vec())];
    r.step(p).unwrap();
    assert_eq!(r.raft_log.last_index(), 2);
    assert_eq!(r.raft_log.all_entries()[1].term, 1);
    // a lone leader is a majority of its own: its log commits at once
    assert_eq!(r.raft_log.committed, 2);
}

#[test]
fn three_nodes_elect_by_majority() {
    let mut r = new_node(1, vec![1, 2, 3]);
    r.step(msg(MessageType::MsgHup, 1, 1, 0)).unwrap();
    assert_eq!(r.state, StateType::Candidate);
    assert_eq!(r.term, 1);
    let requests: Vec<(MessageType, u64)> = r.msgs.iter().map(|m| (m.msg_type, m.to)).collect();
    assert_eq!(requests, vec![(MessageType::MsgRequestVote, 2), (MessageType::MsgRequestVote, 3)]);
    r.msgs.clear();
    r.step(msg(MessageType::MsgRequestVoteResponse, 2, 1, 1)).unwrap();
    assert_eq!(r.state, StateType::Leader);
    // the leader sends its no-op entry to both peers
    let appends: Vec<u64> = r.msgs.iter().filter(|m| m.msg_type == MessageType::MsgAppend).map(|m| m.to).collect();
    assert_eq!(appends, vec![2, 3]);
    assert_eq!(r.raft_log.committed, 0);
    // the leader's own log counts: one follower makes a majority of 3
    let mut ack = msg(MessageType::MsgAppendResponse, 2, 1, 1);
    ack.index = 1;
    r.step(ack).unwrap();
    assert_eq!(r.raft_log.committed, 1);
    let mut ack3 = msg(MessageType::MsgAppendResponse, 3, 1, 1);
    ack3.index = 1;
    r.step(ack3).unwrap();
    assert_eq!(r.raft_log.committed, 1);
}

#[test]
fn rejected_votes_make_candidate_follow() {
    let mut r = new_node(1, vec![1, 2, 3]);
    r.step(msg(MessageType::MsgHup, 1, 1, 0)).unwrap();
    let mut no = msg(MessageType::MsgRequestVoteResponse, 2, 1, 1);
    no.reject = true;
    r.step(no).unwrap();
    assert_eq!(r.state, StateType::Candidate);
    let mut no3 = msg(MessageType::MsgRequestVoteResponse, 3, 1, 1);
    no3.reject = true;
    r.step(no3).unwrap();
    assert_eq!(r.state, StateType::Follower);
}

#[test]
fn follower_votes_once_per_term() {
    let mut r = new_node(1, vec![1, 2, 3]);
    r.step(msg(MessageType::MsgRequestVote, 2, 1, 1)).unwrap();
    assert_eq!(r.vote, 2);
    assert!(!r.msgs.last().unwrap().reject);
    r.step(msg(MessageType::MsgRequestVote, 3, 1, 1)).unwrap();
    assert_eq!(r.vote, 2);
    assert!(r.msgs.last().unwrap().reject);
}

#[test]
fn follower_accepts_appends_and_commits() {
    let mut r = new_node(2, vec![1, 2, 3]);
    let mut app = msg(MessageType::MsgAppend, 1, 2, 1);
    app.entries = vec![entry(1, 1), entry(1, 2)];
    app.commit = 1;
    r.step(app).unwrap();
    assert_eq!(r.lead, 1);
    assert_eq!(r.raft_log.last_index(), 2);
    assert_eq!(r.raft_log.committed, 1);
    let reply = r.msgs.last().unwrap();
    assert_eq!((reply.msg_type, reply.reject, reply.index), (MessageType::MsgAppendResponse, false, 2));
    // an append from an older term is rejected
    let stale = msg(MessageType::MsgAppend, 3, 2, 0);
    r.step(stale).unwrap();
    assert!(r.msgs.last().unwrap().reject);
    assert_eq!(r.raft_log.committed, 1);
}

#[test]
fn follower_heartbeat_advances_commit() {
    let mut r = new_node(2, vec![1, 2]);
    let mut app = msg(MessageType::MsgAppend, 1, 2, 1);
    app.entries = vec![entry(1, 1), entry(1, 2)];
    r.step(app).unwrap();
    let mut hb = msg(MessageType::MsgHeartbeat, 1, 2, 1);
    hb.commit = 5;
    r.step(hb).unwrap();
    assert_eq!(r.raft_log.committed, 2);
    assert_eq!(r.msgs.last().unwrap().msg_type, MessageType::MsgHeartbeatResponse);
}

#[test]
fn ticks_start_an_election() {
    let mut r = new_node(1, vec![1, 2, 3]);
    for _ in 0..20 {
        r.tick();
    }
    assert!(r.term >= 1);
    assert_eq!(r.state, StateType::Candidate);
}

#[test]
fn membership_changes() {
    let mut r = new_node(1, vec![1, 2]);
    r.add_node(3);
    assert_eq!(r.prs.keys(), vec![2, 3]);
    r.remove_node(2);
    assert_eq!(r.prs.keys(), vec![3]);
}

// ---------------------------------------------------------------- raw node

#[test]
fn raw_node_ready_cycle() {
    let log = RaftLog::new(empty_hard_state(), 0, vec![]);
    let mut node = RawNode::new(config(1, vec![1]), empty_hard_state(), ConfState { nodes: vec![1] }, log).unwrap();
    assert!(!node.has_ready());
    node.campaign().unwrap();
    assert!(node.has_ready());
    let rd = node.ready();
    assert_eq!(rd.hard_state.term, 1);
    assert_eq!(rd.entries.len(), 1);
    assert!(rd.committed_entries.is_empty());
    node.advance(rd);
    assert!(!node.has_ready());
    node.propose(b"hello".to_vec()).unwrap();
    let rd = node.ready();
    assert_eq!(rd.entries.len(), 1);
    assert_eq!(rd.entries[0].data, b"hello".to_vec());
    node.advance(rd);
    assert!(!node.has_ready());
    let cs = node.apply_conf_change(&ConfChange { change_type: ConfChangeType::AddNode, node_id: 5, context: vec![] });
    assert_eq!(cs.nodes, vec![1, 5]);
    assert!(node.get_progress().is_some());
    assert_eq!(node.get_raft().id, 1);
}

#[test]
fn follower_commit_stops_at_the_last_new_entry() {
    let mut r = new_node(2, vec![1, 2, 3]);
    let mut app = msg(MessageType::MsgAppend, 1, 2, 1);
    app.entries = vec![entry(1, 1), entry(1, 2), entry(1, 3)];
    r.step(app).unwrap();
    assert_eq!(r.raft_log.committed, 0);
    // the leader vouches for index 1 only, though it has committed 3
    let mut short = msg(MessageType::MsgAppend, 1, 2, 1);
    short.index = 0;
    short.log_term = 0;
    short.entries = vec![entry(1, 1)];
    short.commit = 3;
    r.step(short).unwrap();
    assert_eq!(r.raft_log.committed, 1);
    assert_eq!(r.raft_log.last_index(), 1);
    // a retransmitted append at or below the commit index changes nothing
    let mut again = msg(MessageType::MsgAppend, 1, 2, 1);
    again.entries = vec![entry(1, 1)];
    again.commit = 1;
    r.step(again).unwrap();
    assert_eq!(r.raft_log.last_index(), 1);
    assert_eq!(r.raft_log.committed, 1);
    assert!(!r.msgs.last().unwrap().reject);
}

#[test]
fn candidate_keeps_its_term_and_vote() {
    let mut r = new_node(1, vec![1, 2, 3]);
    r.step(msg(MessageType::MsgHup, 1, 1, 0)).unwrap();
    r.step(msg(MessageType::MsgHup, 1, 1, 0)).unwrap();
    assert_eq!((r.state, r.term, r.vote), (StateType::Candidate, 2, 1));
    // an append of an older term is refused and the candidate stays in term 2
    let stale = msg(MessageType::MsgAppend, 2, 1, 1);
    r.step(stale).unwrap();
    assert_eq!(r.term, 2);
    assert!(r.msgs.last().unwrap().reject);
    // a heartbeat of its own term makes it follow, still with its vote
    r.step(msg(MessageType::MsgHeartbeat, 2, 1, 2)).unwrap();
    assert_eq!((r.state, r.term, r.vote, r.lead), (StateType::Follower, 2, 1, 2));
    // so it cannot vote for someone else in term 2
    r.step(msg(MessageType::MsgRequestVote, 3, 1, 2)).unwrap();
    assert_eq!(r.vote, 1);
    assert!(r.msgs.last().unwrap().reject);
}

#[test]
fn rejected_candidate_keeps_its_vote() {
    let mut r = new_node(1, vec![1, 2, 3]);
    r.step(msg(MessageType::MsgHup, 1, 1, 0)).unwrap();
    for from in [2, 3] {
        let mut no = msg(MessageType::MsgRequestVoteResponse, from, 1, 1);
        no.reject = true;
        r.step(no).unwrap();
    }
    assert_eq!((r.state, r.term, r.vote), (StateType::Follower, 1, 1));
}

#[test]
fn transfer_leader_sends_to_the_transferee() {
    let log = RaftLog::new(empty_hard_state(), 0, vec![]);
    let mut node = RawNode::new(config(1, vec![1, 2, 3]), empty_hard_state(), ConfState { nodes: vec![1, 2, 3] }, log).unwrap();
    assert_eq!(node.transfer_leader(2), Err(RaftError::NotLeader));
    node.campaign().unwrap();
    node.step(msg(MessageType::MsgRequestVoteResponse, 2, 1, 1)).unwrap();
    assert_eq!(node.get_raft().state, StateType::Leader);
    assert_eq!(node.transfer_leader(9), Err(RaftError::PeerNotFound(9)));
    assert_eq!(node.transfer_leader(1), Ok(()));
    // peer 2 has not acknowledged the leader's entry: it is sent the entries
    let before = node.get_raft().msgs.len();
    assert_eq!(node.transfer_leader(2), Ok(()));
    let sent = &node.get_raft().msgs[before..];
    assert_eq!(sent.len(), 1);
    assert_eq!((sent[0].msg_type, sent[0].to), (MessageType::MsgAppend, 2));
    // once peer 2 has caught up it is told to campaign at once
    let mut ack = msg(MessageType::MsgAppendResponse, 2, 1, 1);
    ack.index = 1;
    node.step(ack).unwrap();
    let before = node.get_raft().msgs.len();
    assert_eq!(node.transfer_leader(2), Ok(()));
    let sent = &node.get_raft().msgs[before..];
    assert_eq!(sent.len(), 1);
    assert_eq!((sent[0].msg_type, sent[0].to, sent[0].term), (MessageType::MsgTimeoutNow, 2, 1));
}

#[test]
fn timeout_now_starts_an_election() {
    let mut r = new_node(2, vec![1, 2, 3]);
    r.step(msg(MessageType::MsgTimeoutNow, 1, 2, 0)).unwrap();
    assert_eq!((r.state, r.term), (StateType::Candidate, 1));
}

#[test]
fn can_step_predicts_what_step_can_handle() {
    let mut r = new_node(1, vec![1, 2, 3]);
    assert!(r.can_tick());
    assert!(r.can_step(&msg(MessageType::MsgHup, 1, 1, 0)));
    r.step(msg(MessageType::MsgHup, 1, 1, 0)).unwrap();
    r.step(msg(MessageType::MsgRequestVoteResponse, 2, 1, 1)).unwrap();
    assert_eq!(r.state, StateType::Leader);
    let hb = msg(MessageType::MsgHeartbeatResponse, 2, 1, 1);
    assert!(r.can_step(&hb));
    // a peer whose next index is 0 cannot be sent an append
    r.prs.insert(2, Progress { match_index: 0, next_index: 0 });
    assert!(!r.can_step(&hb));
    let mut p = msg(MessageType::MsgPropose, 1, 1, 0);
    p.entries = vec![Entry::new_normal(0, 0, b"x".to_vec())];
    assert!(!r.can_step(&p));
    // a term at the top of the range cannot grow in an election
    let mut f = new_node(2, vec![1, 2, 3]);
    f.term = u64::MAX;
    assert!(!f.can_step(&msg(MessageType::MsgHup, 2, 2, 0)));
    assert!(f.can_step(&msg(MessageType::MsgHeartbeat, 1, 2, u64::MAX)));
}

#[test]
fn raw_node_can_propose() {
    let log = RaftLog::new(empty_hard_state(), 0, vec![]);
    let mut node = RawNode::new(config(1, vec![1]), empty_hard_state(), ConfState { nodes: vec![1] }, log).unwrap();
    assert!(node.can_campaign());
    node.campaign().unwrap();
    assert!(node.can_tick());
    assert!(node.can_propose(EntryType::ConfChange, &vec![1, 2]));
    assert!(node.can_step(&msg(MessageType::MsgHeartbeatResponse, 2, 1, 1)));
}

#[test]
fn log_checks_its_layout() {
    let ok = RaftLog::new(HardState { term: 1, vote: 0, commit: 2 }, 2, vec![entry(1, 1), entry(1, 2)]);
    assert!(ok.is_wf());
    assert!(ok.is_laid_out());
    // a commit index past the last entry is not well-formed
    let bad = RaftLog::new(HardState { term: 1, vote: 0, commit: 5 }, 2, vec![entry(1, 1), entry(1, 2)]);
    assert!(!bad.is_wf());
    // a gap in the indices is well-formed but not laid out
    let gap = RaftLog::new(HardState { term: 1, vote: 0, commit: 1 }, 3, vec![entry(1, 1), entry(1, 3)]);
    assert!(gap.is_wf());
    assert!(!gap.is_laid_out());
}

#[test]
fn leader_heartbeats_after_heartbeat_ticks() {
    let log = RaftLog::new(empty_hard_state(), 0, vec![]);
    let cfg = RaftConfig { id: 1, peers: vec![1, 2, 3], election_tick: 10, heartbeat_tick: 3, applied: 0 };
    let mut r = Raft::new(cfg, empty_hard_state(), ConfState { nodes: vec![1, 2, 3] }, log).unwrap();
    r.step(msg(MessageType::MsgHup, 1, 1, 0)).unwrap();
    r.step(msg(MessageType::MsgRequestVoteResponse, 2, 1, 1)).unwrap();
    assert_eq!(r.state, StateType::Leader);
    r.msgs.clear();
    r.tick();
    r.tick();
    assert!(r.msgs.is_empty());
    r.tick();
    let beats: Vec<(MessageType, u64, u64)> = r.msgs.iter().map(|m| (m.msg_type, m.to, m.term)).collect();
    assert_eq!(beats, vec![(MessageType::MsgHeartbeat, 2, 1), (MessageType::MsgHeartbeat, 3, 1)]);
    assert_eq!(r.heartbeat_elapsed, 0);
}

#[test]
fn has_ready_agrees_with_ready() {
    let log = RaftLog::new(empty_hard_state(), 0, vec![]);
    let mut node = RawNode::new(config(1, vec![1]), empty_hard_state(), ConfState { nodes: vec![1] }, log).unwrap();
    assert!(!node.has_ready());
    node.campaign().unwrap();
    let before = node.has_ready();
    let rd = node.ready();
    assert_eq!(before, rd.has_ready());
    node.advance(rd);
    assert!(!node.has_ready());
    assert!(!node.ready().has_ready());
}
