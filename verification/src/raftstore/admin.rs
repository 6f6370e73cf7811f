use vstd::prelude::*;
use crate::engine_util::util::{bytes_to_vec, lemma_lex_lt_total, lemma_lex_lt_transitive, lex_lt};
use crate::proto::metapb::{Peer, Region, RegionEpoch, RegionView};
use crate::proto::raft_cmdpb::{
    AdminCmdType, AdminRequest, AdminResponse, SplitRequest, SplitResponse,
};
use crate::raftstore::region_allocator::{
    allocated_peers, peers_result_view, selected_ids, RegionAllocError, RegionAllocator,
};
use crate::raftstore::store_balancer::{StoreBalancerView, StoreLoad};
use crate::raftstore::store_meta::{StoreMeta, StoreMetaView};
use crate::raftstore::util::{in_key_range, key_in_region};

verus! {

/// Why an administrative command failed.
#[derive(Debug, Clone, Copy, PartialEq, Eq, Structural)]
pub enum AdminError {
    /// A split command without a split request.
    MissingSplitRequest,
    ChangePeerNotImplemented,
    TransferLeaderNotImplemented,
    CompactLogNotImplemented,
    InvalidAdminCommand,
    /// The split key is empty.
    EmptySplitKey,
    /// The split key lies outside the region.
    SplitKeyOutOfRange,
    /// No stores could be found for the replicas of the new region.
    Alloc(RegionAllocError),
}

/// The lower half of `region` after a split at `split_key`: it ends at the
/// split key and its version goes up by one.
pub open spec fn split_left(region: RegionView, split_key: Seq<u8>) -> RegionView {
    RegionView {
        end_key: split_key,
        region_epoch: RegionEpoch {
            version: (region.region_epoch.version + 1) as u64,
            ..region.region_epoch
        },
        ..region
    }
}

/// The upper half of `region` after a split at `split_key`: region `new_id`
/// from the split key to the old end, with both epoch counters one higher.
pub open spec fn split_right(
    region: RegionView,
    split_key: Seq<u8>,
    new_id: u64,
    peers: Seq<Peer>,
) -> RegionView {
    RegionView {
        id: new_id,
        start_key: split_key,
        end_key: region.end_key,
        region_epoch: RegionEpoch {
            conf_ver: (region.region_epoch.conf_ver + 1) as u64,
            version: (region.region_epoch.version + 1) as u64,
        },
        peers,
    }
}

/// The peers named by a split request, all placed on store `store_id`.
pub open spec fn requested_peers(ids: Seq<u64>, store_id: u64) -> Seq<Peer> {
    Seq::new(ids.len(), |i: int| Peer { id: ids[i], store_id })
}

/// Splitting a region at a key inside it divides its key range: every key of
/// the region lies in exactly one half, and the halves hold no other key.
pub proof fn lemma_split_partitions_range(
    region: RegionView,
    split_key: Seq<u8>,
    new_id: u64,
    peers: Seq<Peer>,
    key: Seq<u8>,
)
    requires
        split_key.len() > 0,
        in_key_range(split_key, region.start_key, region.end_key),
    ensures
        ({
            let l = split_left(region, split_key);
            let r = split_right(region, split_key, new_id, peers);
            &&& in_key_range(key, region.start_key, region.end_key) <==> (in_key_range(
                key,
                l.start_key,
                l.end_key,
            ) || in_key_range(key, r.start_key, r.end_key))
            &&& !(in_key_range(key, l.start_key, l.end_key) && in_key_range(
                key,
                r.start_key,
                r.end_key,
            ))
        }),
{
    let start = region.start_key;
    let end = region.end_key;
    lemma_lex_lt_total(key, split_key);
    lemma_lex_lt_total(split_key, start);
    if lex_lt(key, split_key) && end.len() > 0 {
        lemma_lex_lt_transitive(key, split_key, end);
    }
    if !lex_lt(key, split_key) && start.len() > 0 && lex_lt(key, start) {
        if split_key != start {
            lemma_lex_lt_transitive(key, start, split_key);
        }
    }
}

/// Mathematical value of an admin handler.
pub struct AdminHandlerView {
    pub store_meta: StoreMetaView,
    pub balancer: StoreBalancerView,
    pub replication_factor: usize,
    pub store_id: u64,
}

impl AdminHandlerView {
    /// `peers` are peers the handler may give a new region split off by a
    /// request naming `peer_ids`: the named peers, or when none are named,
    /// peers allocated on the lightest live stores.
    pub open spec fn split_peers(self, peer_ids: Seq<u64>, peers: Seq<Peer>) -> bool {
        if peer_ids.len() > 0 {
            peers == requested_peers(peer_ids, self.store_id)
        } else {
            exists|now: u128, list: Seq<StoreLoad>|
                #[trigger] self.balancer.is_available_list(now, list) && allocated_peers(
                    selected_ids(list, self.replication_factor),
                    self.replication_factor,
                ) == Ok::<Seq<Peer>, RegionAllocError>(peers)
        }
    }

    /// Allocating the peers of a new region may fail with `e`.
    pub open spec fn alloc_fails(self, peer_ids: Seq<u64>, e: RegionAllocError) -> bool {
        &&& peer_ids.len() == 0
        &&& exists|now: u128, list: Seq<StoreLoad>|
            #[trigger] self.balancer.is_available_list(now, list) && allocated_peers(
                selected_ids(list, self.replication_factor),
                self.replication_factor,
            ) == Err::<Seq<Peer>, RegionAllocError>(e)
    }

    /// `r` and `new` are an outcome of splitting `region` at `split_key`
    /// into a new region `new_id` with peers named `peer_ids`.
    pub open spec fn split_outcome(
        self,
        new: AdminHandlerView,
        region: RegionView,
        split_key: Seq<u8>,
        new_id: u64,
        peer_ids: Seq<u64>,
        r: Result<AdminResponse, AdminError>,
    ) -> bool {
        let key_ok = split_key.len() > 0 && in_key_range(split_key, region.start_key, region.end_key);
        &&& (r == Err::<AdminResponse, AdminError>(AdminError::EmptySplitKey) <==> split_key.len()
            == 0)
        &&& (r == Err::<AdminResponse, AdminError>(AdminError::SplitKeyOutOfRange) <==> (
        split_key.len() > 0 && !in_key_range(split_key, region.start_key, region.end_key)))
        &&& (key_ok && peer_ids.len() > 0 ==> r is Ok)
        &&& match r {
            Ok(resp) => {
                let left = split_left(region, split_key);
                &&& key_ok
                &&& resp.cmd_type == 10
                &&& resp.change_peer is None
                &&& resp.compact_log is None
                &&& resp.transfer_leader is None
                &&& resp.split is Some
                &&& resp.split->0.regions@.len() == 2
                &&& resp.split->0.regions@[0]@ == left
                &&& self.split_peers(peer_ids, resp.split->0.regions@[1]@.peers)
                &&& resp.split->0.regions@[1]@ == split_right(
                    region,
                    split_key,
                    new_id,
                    resp.split->0.regions@[1]@.peers,
                )
                &&& new == AdminHandlerView {
                    store_meta: self.store_meta.set(left).set(resp.split->0.regions@[1]@),
                    ..self
                }
            },
            Err(e) => {
                &&& new == self
                &&& (e is Alloc ==> key_ok && self.alloc_fails(peer_ids, e->0))
                &&& (e == AdminError::EmptySplitKey || e == AdminError::SplitKeyOutOfRange
                    || e is Alloc)
            },
        }
    }
}

/// Applies administrative commands to the regions of one store.
pub struct AdminHandler {
    pub store_meta: StoreMeta,
    pub region_allocator: RegionAllocator,
    pub store_id: u64,
}

impl View for AdminHandler {
    type V = AdminHandlerView;

    open spec fn view(&self) -> AdminHandlerView {
        AdminHandlerView {
            store_meta: self.store_meta@,
            balancer: self.region_allocator.balancer@,
            replication_factor: self.region_allocator.replication_factor,
            store_id: self.store_id,
        }
    }
}

impl AdminHandler {
    pub open spec fn wf(&self) -> bool {
        &&& self.store_meta.wf()
        &&& self.region_allocator.balancer.wf()
    }

    /// A split of `region` by a request naming `peer_ids` does not overflow:
    /// both epoch counters can grow, and allocated peer ids fit.
    pub open spec fn split_fits(&self, region: &Region, peer_ids: Seq<u64>) -> bool {
        &&& region.region_epoch.version < u64::MAX
        &&& region.region_epoch.conf_ver < u64::MAX
        &&& peer_ids.len() == 0 ==> self.region_allocator.peer_ids_fit()
    }

    pub fn new(store_meta: StoreMeta, region_allocator: RegionAllocator, store_id: u64) -> (r: Self)
        ensures
            r.store_meta@ == store_meta@,
            r.region_allocator.balancer@ == region_allocator.balancer@,
            r.region_allocator.replication_factor == region_allocator.replication_factor,
            r.store_id == store_id,
    {
        AdminHandler { store_meta, region_allocator, store_id }
    }

    /// Runs the administrative command `request` on `region`. Only splits
    /// are carried out; the other commands report that they are not
    /// implemented.
    pub fn execute(&mut self, region: &Region, request: AdminRequest) -> (r: Result<
        AdminResponse,
        AdminError,
    >)
        requires
            old(self).wf(),
            AdminCmdType::spec_from(request.cmd_type) == AdminCmdType::Split && request.split is Some
                ==> old(self).split_fits(region, request.split->0.new_peer_ids@),
        ensures
            final(self).wf(),
            match AdminCmdType::spec_from(request.cmd_type) {
                AdminCmdType::Split => match request.split {
                    None => r == Err::<AdminResponse, AdminError>(AdminError::MissingSplitRequest)
                        && final(self)@ == old(self)@,
                    Some(sr) => old(self)@.split_outcome(
                        final(self)@,
                        region@,
                        sr.split_key@,
                        sr.new_region_id,
                        sr.new_peer_ids@,
                        r,
                    ),
                },
                AdminCmdType::ChangePeer => r == Err::<AdminResponse, AdminError>(
                    AdminError::ChangePeerNotImplemented,
                ) && final(self)@ == old(self)@,
                AdminCmdType::TransferLeader => r == Err::<AdminResponse, AdminError>(
                    AdminError::TransferLeaderNotImplemented,
                ) && final(self)@ == old(self)@,
                AdminCmdType::CompactLog => r == Err::<AdminResponse, AdminError>(
                    AdminError::CompactLogNotImplemented,
                ) && final(self)@ == old(self)@,
                AdminCmdType::InvalidAdmin => r == Err::<AdminResponse, AdminError>(
                    AdminError::InvalidAdminCommand,
                ) && final(self)@ == old(self)@,
            },
    {
        let cmd_type = AdminCmdType::from(request.cmd_type);
        match cmd_type {
            AdminCmdType::Split => match request.split {
                Some(split_req) => self.execute_split(region, split_req),
                None => Err(AdminError::MissingSplitRequest),
            },
            AdminCmdType::ChangePeer => Err(AdminError::ChangePeerNotImplemented),
            AdminCmdType::TransferLeader => Err(AdminError::TransferLeaderNotImplemented),
            AdminCmdType::CompactLog => Err(AdminError::CompactLogNotImplemented),
            AdminCmdType::InvalidAdmin => Err(AdminError::InvalidAdminCommand),
        }
    }

    /// Splits `region` at the request's split key and records both halves.
    fn execute_split(&mut self, region: &Region, request: SplitRequest) -> (r: Result<
        AdminResponse,
        AdminError,
    >)
        requires
            old(self).wf(),
            old(self).split_fits(region, request.new_peer_ids@),
        ensures
            final(self).wf(),
            old(self)@.split_outcome(
                final(self)@,
                region@,
                request.split_key@,
                request.new_region_id,
                request.new_peer_ids@,
                r,
            ),
    {
        if request.split_key.len() == 0 {
            return Err(AdminError::EmptySplitKey);
        }
        if !self.is_key_in_range(request.split_key.as_slice(), region) {
            return Err(AdminError::SplitKeyOutOfRange);
        }
        let new_region = match self.create_new_region(region, &request) {
            Ok(r) => r,
            Err(e) => {
                return Err(e);
            },
        };
        let updated_region = match self.update_region_range(region, request.split_key.as_slice()) {
            Ok(r) => r,
            Err(e) => {
                return Err(e);
            },
        };
        self.store_meta.set_region(updated_region.clone());
        self.store_meta.set_region(new_region.clone());
        let regions = vec![updated_region, new_region];
        Ok(
            AdminResponse {
                cmd_type: AdminCmdType::Split.code(),
                change_peer: None,
                compact_log: None,
                transfer_leader: None,
                split: Some(SplitResponse { regions }),
            },
        )
    }

    /// The region split off the upper half of `old_region`.
    fn create_new_region(&self, old_region: &Region, request: &SplitRequest) -> (r: Result<
        Region,
        AdminError,
    >)
        requires
            self.split_fits(old_region, request.new_peer_ids@),
        ensures
            match r {
                Ok(reg) => self@.split_peers(request.new_peer_ids@, reg@.peers) && reg@
                    == split_right(old_region@, request.split_key@, request.new_region_id, reg@.peers),
                Err(e) => e is Alloc && self@.alloc_fails(request.new_peer_ids@, e->0),
            },
    {
        let peers = if request.new_peer_ids.len() > 0 {
            let mut peers: Vec<Peer> = Vec::new();
            let mut i: usize = 0;
            while i < request.new_peer_ids.len()
                invariant
                    0 <= i <= request.new_peer_ids@.len(),
                    peers@ == requested_peers(request.new_peer_ids@, self.store_id).take(i as int),
                decreases request.new_peer_ids@.len() - i,
            {
                peers.push(Peer { id: request.new_peer_ids[i], store_id: self.store_id });
                proof {
                    assert(peers@ =~= requested_peers(request.new_peer_ids@, self.store_id).take(
                        i + 1,
                    ));
                }
                i += 1;
            }
            proof {
                assert(peers@ =~= requested_peers(request.new_peer_ids@, self.store_id));
            }
            peers
        } else {
            let allocated = self.region_allocator.allocate_peers(old_region, request.new_region_id);
            let ghost w = choose|now: u128, list: Seq<StoreLoad>|
                #[trigger] self.region_allocator.balancer@.is_available_list(now, list)
                    && peers_result_view(allocated) == allocated_peers(
                    selected_ids(list, self.region_allocator.replication_factor),
                    self.region_allocator.replication_factor,
                );
            proof {
                assert(self@.balancer.is_available_list(w.0, w.1));
            }
            match allocated {
                Ok(p) => {
                    assert(self@.split_peers(request.new_peer_ids@, p@));
                    p
                },
                Err(e) => {
                    assert(self@.alloc_fails(request.new_peer_ids@, e));
                    return Err(AdminError::Alloc(e));
                },
            }
        };
        let new_epoch = RegionEpoch {
            conf_ver: old_region.region_epoch.conf_ver + 1,
            version: old_region.region_epoch.version + 1,
        };
        Ok(
            Region {
                id: request.new_region_id,
                start_key: bytes_to_vec(request.split_key.as_slice()),
                end_key: bytes_to_vec(old_region.end_key.as_slice()),
                region_epoch: new_epoch,
                peers,
            },
        )
    }

    /// `region` cut down to end at `split_key`.
    fn update_region_range(&self, region: &Region, split_key: &[u8]) -> (r: Result<
        Region,
        AdminError,
    >)
        requires
            region.region_epoch.version < u64::MAX,
        ensures
            r matches Ok(reg) && reg@ == split_left(region@, split_key@),
    {
        let new_epoch = RegionEpoch {
            version: region.region_epoch.version + 1,
            ..region.region_epoch
        };
        let mut updated_region = region.clone();
        updated_region.end_key = bytes_to_vec(split_key);
        updated_region.region_epoch = new_epoch;
        Ok(updated_region)
    }

    /// Whether `key` lies within the key range of `region`.
    fn is_key_in_range(&self, key: &[u8], region: &Region) -> (r: bool)
        ensures
            r == in_key_range(key@, region.start_key@, region.end_key@),
    {
        key_in_region(key, region)
    }
}

} // verus!
