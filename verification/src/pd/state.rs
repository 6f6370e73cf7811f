use vstd::prelude::*;
use crate::cli::strings_view;
use crate::engine_util::util::{bytes_less, lex_lt};
use crate::pd::config::PdConfig;
use crate::pd::id_allocator::IdAllocator;
use crate::proto::metapb::{Peer, Region, RegionView, Store};
use crate::proto::schedulerpb::{
    AskSplitResponse, GetMembersResponse, Member, ResponseHeader, StoreHeartbeatResponse, StoreStats,
};
use crate::raft::progress::{distinct_keys, has_key, inserted, key_pos, value_of, IdMap};
use crate::raftstore::store_balancer::StoreLoad;

verus! {

/// The store described by a wire message.
pub fn from_proto_store(store: Store) -> (r: Store)
    ensures
        r.id == store.id,
        r.address@ == store.address@,
        r.state == store.state,
{
    Store { id: store.id, address: store.address, state: store.state }
}

/// The wire message describing a store.
fn to_proto_store(store: &Store) -> (r: Store)
    ensures
        r.id == store.id,
        r.address@ == store.address@,
        r.state == store.state,
{
    Store { id: store.id, address: store.address.clone(), state: store.state }
}

/// The peers of a wire message, copied one for one.
fn copy_peers(peers: &Vec<Peer>) -> (r: Vec<Peer>)
    ensures
        r@ == peers@,
{
    let mut out: Vec<Peer> = Vec::new();
    let mut i: usize = 0;
    while i < peers.len()
        invariant
            0 <= i <= peers@.len(),
            out@ == peers@.take(i as int),
        decreases peers@.len() - i,
    {
        out.push(peers[i]);
        proof {
            assert(out@ =~= peers@.take(i + 1));
        }
        i += 1;
    }
    proof {
        assert(peers@.take(peers@.len() as int) =~= peers@);
    }
    out
}

/// The wire message describing a region.
fn to_proto_region(region: Region) -> (r: Region)
    ensures
        r@ == region@,
{
    let peers = copy_peers(&region.peers);
    Region {
        id: region.id,
        start_key: region.start_key,
        end_key: region.end_key,
        region_epoch: region.region_epoch,
        peers,
    }
}

/// The region described by a wire message.
fn from_proto_region(region: Region) -> (r: Region)
    ensures
        r@ == region@,
{
    let peers = copy_peers(&region.peers);
    Region {
        id: region.id,
        start_key: region.start_key,
        end_key: region.end_key,
        region_epoch: region.region_epoch,
        peers,
    }
}

/// Why the placement driver refuses a request.
#[derive(Debug, Clone, Copy, PartialEq, Eq, Structural)]
pub enum PdError {
    /// A store heartbeat came without its statistics.
    MissingStats,
    /// A split was asked for without the region.
    MissingRegion,
}

/// The first id the placement driver hands out is one more than this.
pub const FIRST_ID_BASE: u64 = 1000;

/// The placement driver's own bookkeeping: its settings, the ids it hands
/// out, whether the cluster was bootstrapped, and the load each store last
/// reported. (The registry of stores and regions, and the schedulers that
/// act on it, are kept by the scheduler.)
pub struct PdState {
    pub config: PdConfig,
    pub id_allocator: IdAllocator,
    pub is_bootstrapped: bool,
    pub store_loads: IdMap<StoreLoad>,
}

/// The load of a store after it reported `stats` (its load before was
/// `prev`): the reported counts, its used size as region size and, for
/// want of a leader size, its leader count as leader size.
pub open spec fn heartbeat_load(prev: Option<StoreLoad>, stats: StoreStats, load: StoreLoad) -> bool {
    &&& load.store_id == stats.store_id
    &&& load.region_count == stats.region_count as usize
    &&& load.leader_count == stats.leader_count as usize
    &&& load.region_size == stats.used_size
    &&& load.leader_size == stats.leader_count
    &&& load.is_up == match prev {
        Some(l) => l.is_up,
        None => true,
    }
}

impl PdState {
    /// Each store's load is filed once, under the store's id.
    pub open spec fn wf(&self) -> bool {
        &&& distinct_keys(self.store_loads@)
        &&& forall|i: int|
            0 <= i < self.store_loads@.len() ==> (#[trigger] self.store_loads@[i]).1.store_id
                == self.store_loads@[i].0
    }

    /// A placement driver with settings `config`, not bootstrapped, with no
    /// loads, whose first id is 1001.
    pub fn new(config: PdConfig) -> (r: Self)
        ensures
            r.wf(),
            r.config == config,
            r.id_allocator@ == FIRST_ID_BASE,
            !r.is_bootstrapped,
            r.store_loads@.len() == 0,
    {
        PdState {
            config,
            id_allocator: IdAllocator::new(FIRST_ID_BASE),
            is_bootstrapped: false,
            store_loads: IdMap::new(),
        }
    }

    pub fn cluster_id(&self) -> (r: u64)
        ensures
            r == self.config.cluster_id,
    {
        self.config.cluster_id
    }

    /// The header of a successful answer: this cluster's id, no error.
    pub fn response_ok(&self) -> (r: ResponseHeader)
        ensures
            r.cluster_id == self.config.cluster_id,
            r.error is None,
    {
        ResponseHeader { cluster_id: self.config.cluster_id, error: None }
    }

    /// Marks the cluster bootstrapped; tells whether this call did it (the
    /// first store is then registered).
    pub fn bootstrap(&mut self) -> (first: bool)
        ensures
            first == !old(self).is_bootstrapped,
            final(self).is_bootstrapped,
            final(self).config == old(self).config,
            final(self).id_allocator == old(self).id_allocator,
            final(self).store_loads == old(self).store_loads,
    {
        let first = !self.is_bootstrapped;
        self.is_bootstrapped = true;
        first
    }

    /// Records the load a store reports in a heartbeat; a heartbeat without
    /// statistics is refused.
    pub fn handle_store_heartbeat(&mut self, stats: Option<StoreStats>) -> (r: Result<
        StoreHeartbeatResponse,
        PdError,
    >)
        requires
            old(self).wf(),
        ensures
            final(self).wf(),
            final(self).config == old(self).config,
            final(self).id_allocator == old(self).id_allocator,
            final(self).is_bootstrapped == old(self).is_bootstrapped,
            stats is None ==> r == Err::<StoreHeartbeatResponse, PdError>(PdError::MissingStats)
                && final(self).store_loads@ == old(self).store_loads@,
            stats matches Some(st) ==> r matches Ok(resp) && resp.header matches Some(h)
                && h.cluster_id == old(self).config.cluster_id && h.error is None && exists|
                load: StoreLoad|
                heartbeat_load(value_of(old(self).store_loads@, st.store_id), st, load)
                    && #[trigger] final(self).store_loads@ == inserted(
                    old(self).store_loads@,
                    st.store_id,
                    load,
                ),
    {
        let st = match stats {
            Some(st) => st,
            None => return Err(PdError::MissingStats),
        };
        let prev = self.store_loads.get(st.store_id);
        let mut load = match prev {
            Some(l) => l,
            None => StoreLoad::new(st.store_id),
        };
        proof {
            if prev is Some {
                let k = key_pos(self.store_loads@, st.store_id);
                assert(self.store_loads@[k].1.store_id == st.store_id);
            }
        }
        load.update(st.region_count as usize, st.leader_count as usize, st.used_size, st.leader_count);
        let ghost before = self.store_loads@;
        self.store_loads.insert(st.store_id, load);
        proof {
            assert(heartbeat_load(value_of(before, st.store_id), st, load));
            assert forall|i: int| 0 <= i < self.store_loads@.len() implies (
            #[trigger] self.store_loads@[i]).1.store_id == self.store_loads@[i].0 by {
                if has_key(before, st.store_id) && i == key_pos(before, st.store_id) {
                } else if i < before.len() {
                    assert(self.store_loads@[i] == before[i]);
                }
            }
        }
        Ok(StoreHeartbeatResponse { header: Some(self.response_ok()) })
    }

    /// Answers a request to split a region: two fresh ids, the first for
    /// the new region and the second for its one peer. A request without
    /// the region is refused and takes no id.
    pub fn ask_split(&mut self, region: Option<Region>) -> (r: Result<AskSplitResponse, PdError>)
        requires
            old(self).id_allocator@ + 2 <= u64::MAX,
        ensures
            final(self).config == old(self).config,
            final(self).is_bootstrapped == old(self).is_bootstrapped,
            final(self).store_loads == old(self).store_loads,
            region is None ==> r == Err::<AskSplitResponse, PdError>(PdError::MissingRegion)
                && final(self).id_allocator@ == old(self).id_allocator@,
            region is Some ==> final(self).id_allocator@ == old(self).id_allocator@ + 2,
            region is Some ==> (r matches Ok(resp) && resp.new_region_id == old(self).id_allocator@ + 1
                && resp.new_peer_ids@ == seq![(old(self).id_allocator@ + 2) as u64] && (
            resp.header matches Some(h) && h.cluster_id == old(self).config.cluster_id && h.error is None)),
    {
        if region.is_none() {
            return Err(PdError::MissingRegion);
        }
        let new_region_id = self.id_allocator.alloc_id();
        let new_peer_id = self.id_allocator.alloc_id();
        Ok(
            AskSplitResponse {
                header: Some(self.response_ok()),
                new_region_id,
                new_peer_ids: vec![new_peer_id],
            },
        )
    }

    /// The members of the placement driver: itself alone, as leader, with
    /// the cluster id as member id and its advertised urls.
    pub fn get_members(&self) -> (r: GetMembersResponse)
        ensures
            r.header matches Some(h) && h.cluster_id == self.config.cluster_id && h.error is None,
            r.members@.len() == 1,
            r.leader matches Some(l) && self.is_own_member(l),
            self.is_own_member(r.members@[0]),
    {
        let leader = self.own_member();
        let copy = self.own_member();
        GetMembersResponse { header: Some(self.response_ok()), members: vec![copy], leader: Some(leader) }
    }

    /// `m` describes this placement driver.
    pub open spec fn is_own_member(&self, m: Member) -> bool {
        &&& m.member_id == self.config.cluster_id
        &&& strings_view(m.client_urls@) == strings_view(self.config.advertise_client_urls@)
        &&& strings_view(m.peer_urls@) == strings_view(self.config.advertise_peer_urls@)
    }

    fn own_member(&self) -> (r: Member)
        ensures
            self.is_own_member(r),
    {
        Member {
            member_id: self.config.cluster_id,
            client_urls: copy_strings(&self.config.advertise_client_urls),
            peer_urls: copy_strings(&self.config.advertise_peer_urls),
        }
    }

    /// The loads the stores last reported, one per store.
    pub fn store_loads_snapshot(&self) -> (r: Vec<StoreLoad>)
        ensures
            r@ == self.store_loads@.map_values(|p: (u64, StoreLoad)| p.1),
    {
        let mut out: Vec<StoreLoad> = Vec::new();
        let mut i: usize = 0;
        while i < self.store_loads.len()
            invariant
                0 <= i <= self.store_loads@.len(),
                out@ == self.store_loads@.take(i as int).map_values(|p: (u64, StoreLoad)| p.1),
            decreases self.store_loads@.len() - i,
        {
            let (_, load) = self.store_loads.get_at(i);
            out.push(load);
            proof {
                assert(out@ =~= self.store_loads@.take(i + 1).map_values(|p: (u64, StoreLoad)| p.1));
            }
            i += 1;
        }
        proof {
            assert(self.store_loads@.take(i as int) =~= self.store_loads@);
        }
        out
    }
}

fn copy_strings(v: &Vec<String>) -> (r: Vec<String>)
    ensures
        strings_view(r@) == strings_view(v@),
{
    let mut out: Vec<String> = Vec::new();
    let mut i: usize = 0;
    while i < v.len()
        invariant
            0 <= i <= v@.len(),
            out@.len() == i,
            forall|k: int| 0 <= k < i ==> #[trigger] out@[k]@ == v@[k]@,
        decreases v@.len() - i,
    {
        let c = v[i].clone();
        out.push(c);
        i += 1;
    }
    proof {
        assert(strings_view(out@) =~= strings_view(v@));
    }
    out
}

/// `key` lies in the range of `region`: from its start key (empty: from
/// the first key) up to, not including, its end key (empty: no end).
pub open spec fn range_holds(region: RegionView, key: Seq<u8>) -> bool {
    &&& (region.start_key.len() == 0 || !lex_lt(key, region.start_key))
    &&& (region.end_key.len() == 0 || lex_lt(key, region.end_key))
}

/// The position among `regions` of the first region whose range holds
/// `key`, if any.
pub fn region_for_key(regions: &Vec<Region>, key: &[u8]) -> (r: Option<usize>)
    ensures
        match r {
            Some(i) => i < regions@.len() && range_holds(regions@[i as int]@, key@) && forall|j: int|
                0 <= j < i ==> !range_holds(#[trigger] regions@[j]@, key@),
            None => forall|j: int| 0 <= j < regions@.len() ==> !range_holds(#[trigger] regions@[j]@, key@),
        },
{
    let mut i: usize = 0;
    while i < regions.len()
        invariant
            0 <= i <= regions@.len(),
            forall|j: int| 0 <= j < i ==> !range_holds(#[trigger] regions@[j]@, key@),
        decreases regions@.len() - i,
    {
        let region = &regions[i];
        let after_start = region.start_key.len() == 0 || !bytes_less(key, region.start_key.as_slice());
        let before_end = region.end_key.len() == 0 || bytes_less(key, region.end_key.as_slice());
        if after_start && before_end {
            return Some(i);
        }
        i += 1;
    }
    None
}

} // verus!
