use vstd::prelude::*;
use crate::proto::metapb::Region;
use crate::raft::types::{ConfState, HardState, Snapshot, SnapshotMetadata};
use crate::raftstore::meta::values::{RaftApplyState, RaftLocalState};
use crate::raftstore::peer::{peer_ids, region_peer_ids};

verus! {

/// Why the term of an entry cannot be given.
#[derive(Debug, Clone, Copy, PartialEq, Eq, Structural)]
pub enum PeerStorageError {
    /// The entry was truncated from the log.
    BeforeTruncated { index: u64, truncated_index: u64 },
    /// No entry is stored at the index.
    EntryNotFound(u64),
}

/// The term of entry `index`, from what storage holds: the apply state, the
/// term of the entry stored at `index`, and the Raft state.
pub open spec fn spec_term_from_state(
    index: u64,
    apply_state: Option<RaftApplyState>,
    entry_term: Option<u64>,
    raft_state: Option<RaftLocalState>,
) -> Result<u64, PeerStorageError> {
    if index == 0 {
        Ok(0)
    } else if apply_state is Some && index < apply_state->0.truncated_state.index {
        Err(
            PeerStorageError::BeforeTruncated {
                index,
                truncated_index: apply_state->0.truncated_state.index,
            },
        )
    } else if apply_state is Some && index == apply_state->0.truncated_state.index {
        Ok(apply_state->0.truncated_state.term)
    } else {
        match entry_term {
            Some(t) => Ok(t),
            None => match raft_state {
                Some(rs) => if index == rs.last_index {
                    Ok(rs.last_term)
                } else {
                    Err(PeerStorageError::EntryNotFound(index))
                },
                None => Err(PeerStorageError::EntryNotFound(index)),
            },
        }
    }
}

/// The term of entry `index`: 0 for index 0; the truncated term at the
/// truncated index; an error before it; else the stored entry's term, or
/// the last term when `index` is the last index.
pub fn term_from_state(
    index: u64,
    apply_state: Option<RaftApplyState>,
    entry_term: Option<u64>,
    raft_state: Option<RaftLocalState>,
) -> (r: Result<u64, PeerStorageError>)
    ensures
        r == spec_term_from_state(index, apply_state, entry_term, raft_state),
{
    if index == 0 {
        return Ok(0);
    }
    if let Some(apply) = apply_state {
        if index < apply.truncated_state.index {
            return Err(
                PeerStorageError::BeforeTruncated {
                    index,
                    truncated_index: apply.truncated_state.index,
                },
            );
        }
        if index == apply.truncated_state.index {
            return Ok(apply.truncated_state.term);
        }
    }
    match entry_term {
        Some(t) => Ok(t),
        None => match raft_state {
            Some(rs) => {
                if index == rs.last_index {
                    Ok(rs.last_term)
                } else {
                    Err(PeerStorageError::EntryNotFound(index))
                }
            },
            None => Err(PeerStorageError::EntryNotFound(index)),
        },
    }
}

/// The membership of `region`: the ids of its peers.
pub fn conf_state_of(region: &Region) -> (r: ConfState)
    ensures
        r.nodes@ == peer_ids(*region),
{
    ConfState { nodes: region_peer_ids(region) }
}

/// The applied index recorded in `apply_state`; 0 when none is stored.
pub fn applied_index_of(apply_state: Option<RaftApplyState>) -> (r: u64)
    ensures
        r == applied_index_of_spec(apply_state),
{
    match apply_state {
        Some(a) => a.applied_index,
        None => 0,
    }
}

/// The index of the last truncated entry; 0 when no apply state is stored.
pub fn truncated_index_of(apply_state: Option<RaftApplyState>) -> (r: u64)
    ensures
        r == truncated_index_of_spec(apply_state),
{
    match apply_state {
        Some(a) => a.truncated_state.index,
        None => 0,
    }
}

/// The term of the last truncated entry; 0 when no apply state is stored.
pub fn truncated_term_of(apply_state: Option<RaftApplyState>) -> (r: u64)
    ensures
        r == match apply_state {
            Some(a) => a.truncated_state.term,
            None => 0,
        },
{
    match apply_state {
        Some(a) => a.truncated_state.term,
        None => 0,
    }
}

/// The state a region's Raft peer starts from: the stored hard state (all
/// zero when none is stored) and the region's membership.
pub fn initial_state_of(raft_state: Option<RaftLocalState>, region: &Region) -> (r: (HardState, ConfState))
    ensures
        r.0 == match raft_state {
            Some(rs) => HardState {
                term: rs.hard_state.term,
                vote: rs.hard_state.vote,
                commit: rs.hard_state.commit,
            },
            None => HardState { term: 0, vote: 0, commit: 0 },
        },
        r.1.nodes@ == peer_ids(*region),
{
    let hard_state = match raft_state {
        Some(rs) => HardState {
            term: rs.hard_state.term,
            vote: rs.hard_state.vote,
            commit: rs.hard_state.commit,
        },
        None => HardState { term: 0, vote: 0, commit: 0 },
    };
    (hard_state, conf_state_of(region))
}

/// The index of the last log entry: the one the Raft state records, else
/// the applied index.
pub fn last_index_of(raft_state: Option<RaftLocalState>, apply_state: Option<RaftApplyState>) -> (r: u64)
    ensures
        r == match raft_state {
            Some(rs) => rs.last_index,
            None => applied_index_of_spec(apply_state),
        },
{
    match raft_state {
        Some(rs) => rs.last_index,
        None => applied_index_of(apply_state),
    }
}

/// The index of the first entry still in the log: the one after the last
/// truncated entry.
pub fn first_index_of(apply_state: Option<RaftApplyState>) -> (r: u64)
    requires
        match apply_state {
            Some(a) => a.truncated_state.index < u64::MAX,
            None => true,
        },
    ensures
        r == truncated_index_of_spec(apply_state) + 1,
{
    truncated_index_of(apply_state) + 1
}

/// The index of the last truncated entry; 0 when no apply state is stored.
pub open spec fn truncated_index_of_spec(apply_state: Option<RaftApplyState>) -> u64 {
    match apply_state {
        Some(a) => a.truncated_state.index,
        None => 0,
    }
}

/// The snapshot a region's peer offers: no data (a separate task produces
/// it), the region's membership, the applied index and the truncated term.
pub fn snapshot_of(region: &Region, apply_state: Option<RaftApplyState>) -> (r: Snapshot)
    ensures
        r.data@.len() == 0,
        r.metadata.conf_state.nodes@ == peer_ids(*region),
        r.metadata.index == applied_index_of_spec(apply_state),
        r.metadata.term == match apply_state {
            Some(a) => a.truncated_state.term,
            None => 0,
        },
{
    Snapshot {
        data: Vec::new(),
        metadata: SnapshotMetadata {
            conf_state: conf_state_of(region),
            index: applied_index_of(apply_state),
            term: truncated_term_of(apply_state),
        },
    }
}

/// The applied index recorded in `apply_state`; 0 when none is stored.
pub open spec fn applied_index_of_spec(apply_state: Option<RaftApplyState>) -> u64 {
    match apply_state {
        Some(a) => a.applied_index,
        None => 0,
    }
}

} // verus!
