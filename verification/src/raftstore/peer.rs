use vstd::prelude::*;
use crate::config::Config;
use crate::proto::metapb::{Peer, Region};
use crate::raft::types::RaftConfig;

verus! {

/// The ids of the peers of `region`, in order.
pub open spec fn peer_ids(region: Region) -> Seq<u64> {
    region.peers@.map_values(|p: Peer| p.id)
}

/// The ids of the peers of `region`, in order.
pub fn region_peer_ids(region: &Region) -> (r: Vec<u64>)
    ensures
        r@ == peer_ids(*region),
{
    let mut ids: Vec<u64> = Vec::new();
    let mut i: usize = 0;
    while i < region.peers.len()
        invariant
            0 <= i <= region.peers@.len(),
            ids@ == peer_ids(*region).take(i as int),
        decreases region.peers@.len() - i,
    {
        ids.push(region.peers[i].id);
        proof {
            assert(ids@ =~= peer_ids(*region).take(i + 1));
        }
        i += 1;
    }
    proof {
        assert(peer_ids(*region).take(i as int) =~= peer_ids(*region));
    }
    ids
}

/// The Raft configuration of the peer `meta_peer` of `region`: the region's
/// peers form the group, and the ticks come from the store's settings.
pub fn raft_config_for(meta_peer: &Peer, region: &Region, cfg: &Config, applied: u64) -> (r:
    RaftConfig)
    ensures
        r.id == meta_peer.id,
        r.peers@ == peer_ids(*region),
        r.election_tick == cfg.raft_election_timeout_ticks as usize,
        r.heartbeat_tick == cfg.raft_heartbeat_ticks as usize,
        r.applied == applied,
{
    RaftConfig {
        id: meta_peer.id,
        peers: region_peer_ids(region),
        election_tick: cfg.raft_election_timeout_ticks as usize,
        heartbeat_tick: cfg.raft_heartbeat_ticks as usize,
        applied,
    }
}

/// A new peer starts an election at once when it is the only peer of its
/// region and lives on this store.
pub fn campaigns_at_creation(region: &Region, store_id: u64) -> (r: bool)
    ensures
        r == (region.peers@.len() == 1 && region.peers@[0].store_id == store_id),
{
    region.peers.len() == 1 && region.peers[0].store_id == store_id
}

} // verus!
