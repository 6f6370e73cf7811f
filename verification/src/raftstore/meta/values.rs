use vstd::prelude::*;
use vstd::string::StringSliceAdditionalSpecFns;
use crate::engine_util::write_batch::WriteBatch;
use crate::raftstore::meta::keys::{
    apply_state_key, be_bytes, raft_log_key, region_state_key, APPLY_STATE_PREFIX, RAFT_LOG_PREFIX,
    REGION_META_PREFIX, REGION_STATE_SUFFIX,
};

verus! {

broadcast use vstd::string::group_string_axioms;

/// Whether a peer is live or has been removed.
#[derive(Debug, Clone, Copy, PartialEq, Eq, Structural)]
pub enum PeerState {
    Normal,
    Tombstone,
}

/// The persisted state of a region on a store: the encoded region and
/// whether the local peer is live.
#[derive(Debug)]
pub struct RegionLocalState {
    pub state: PeerState,
    pub region_bytes: Vec<u8>,
}

/// The persisted Raft state of a region's peer.
#[derive(Debug, Clone, Copy, PartialEq, Eq, Structural)]
pub struct RaftLocalState {
    pub hard_state: HardState,
    pub last_index: u64,
    pub last_term: u64,
}

/// The Raft state that must survive restarts.
#[derive(Debug, Clone, Copy, PartialEq, Eq, Structural)]
pub struct HardState {
    pub term: u64,
    pub vote: u64,
    pub commit: u64,
}

/// How far a region's log has been applied and truncated.
#[derive(Debug, Clone, Copy, PartialEq, Eq, Structural)]
pub struct RaftApplyState {
    pub applied_index: u64,
    pub truncated_state: RaftTruncatedState,
}

/// The last entry removed from the log by compaction.
#[derive(Debug, Clone, Copy, PartialEq, Eq, Structural)]
pub struct RaftTruncatedState {
    pub index: u64,
    pub term: u64,
}

proof fn lemma_no_cf_bytes()
    ensures
        "".spec_bytes() == Seq::<u8>::empty(),
{
    reveal_strlit("");
    assert(""@.len() == 0);
    assert(vstd::string::is_ascii(""));
    assert("".spec_bytes() =~= Seq::<u8>::empty());
}

/// Adds to `kv_wb` the write of a region's encoded local state
/// (`RegionLocalState`) under the region's state key, outside any column
/// family.
pub fn write_region_state(kv_wb: &mut WriteBatch, region_id: u64, state: &[u8])
    requires
        old(kv_wb)@.size + 10 + state@.len() <= usize::MAX,
    ensures
        final(kv_wb)@ == old(kv_wb)@.put(
            Seq::empty(),
            seq![REGION_META_PREFIX] + be_bytes(region_id) + seq![REGION_STATE_SUFFIX],
            state@,
        ),
{
    let key = region_state_key(region_id);
    proof {
        lemma_no_cf_bytes();
    }
    kv_wb.set_cf("", key.as_slice(), state);
}

/// Adds to `kv_wb` the write of a region's encoded apply state
/// (`RaftApplyState`) under the region's apply state key, outside any
/// column family.
pub fn write_apply_state(kv_wb: &mut WriteBatch, region_id: u64, state: &[u8])
    requires
        old(kv_wb)@.size + 9 + state@.len() <= usize::MAX,
    ensures
        final(kv_wb)@ == old(kv_wb)@.put(
            Seq::empty(),
            seq![APPLY_STATE_PREFIX] + be_bytes(region_id),
            state@,
        ),
{
    let key = apply_state_key(region_id);
    proof {
        lemma_no_cf_bytes();
    }
    kv_wb.set_cf("", key.as_slice(), state);
}

/// The Raft log key of entry `index` of region `region_id`.
pub open spec fn log_key(region_id: u64, index: u64) -> Seq<u8> {
    seq![RAFT_LOG_PREFIX] + be_bytes(region_id) + be_bytes(index)
}

/// The keys of the log entries `lo..hi` of a region, in index order: the
/// keys that reading or deleting that part of the log touches. None when
/// `lo >= hi`.
pub fn raft_log_keys(region_id: u64, lo: u64, hi: u64) -> (r: Vec<Vec<u8>>)
    ensures
        lo >= hi ==> r@.len() == 0,
        lo < hi ==> r@.len() == hi - lo,
        forall|i: int| 0 <= i < r@.len() ==> #[trigger] r@[i]@ == log_key(region_id, (lo + i) as u64),
{
    let mut keys: Vec<Vec<u8>> = Vec::new();
    if lo >= hi {
        return keys;
    }
    let mut index: u64 = lo;
    while index < hi
        invariant
            lo <= index <= hi,
            keys@.len() == index - lo,
            forall|i: int| 0 <= i < keys@.len() ==> #[trigger] keys@[i]@ == log_key(region_id, (lo + i) as u64),
        decreases hi - index,
    {
        keys.push(raft_log_key(region_id, index));
        index += 1;
    }
    keys
}

} // verus!
