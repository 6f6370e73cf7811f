use vstd::prelude::*;
use crate::proto::metapb::{Peer, Region};
use crate::raftstore::store_balancer::{
    lemma_available_in, store_ids, available_in, StoreBalancer, StoreBalancerView, StoreLoad,
};

verus! {

/// Why stores could not be allocated.
#[derive(Debug, Clone, Copy, PartialEq, Eq, Structural)]
pub enum RegionAllocError {
    /// Fewer live, fresh stores than the replication factor.
    NotEnoughStores { need: usize, got: usize },
}

/// The first `count` ids of a lightest-first list of loads (all of them if
/// there are fewer).
pub open spec fn selected_ids(list: Seq<StoreLoad>, count: usize) -> Seq<u64> {
    store_ids(list).take(
        if count < list.len() {
            count as int
        } else {
            list.len() as int
        },
    )
}

/// The outcome of allocating `count` stores from the selected ids.
pub open spec fn allocated_stores(ids: Seq<u64>, count: usize) -> Result<Seq<u64>, RegionAllocError> {
    if ids.len() < count {
        Err(RegionAllocError::NotEnoughStores { need: count, got: ids.len() as usize })
    } else {
        Ok(ids)
    }
}

/// The peers placed on stores `ids`: the `i`-th gets id `ids[i] * 10000 + i`.
pub open spec fn peers_on(ids: Seq<u64>) -> Seq<Peer> {
    Seq::new(ids.len(), |i: int| Peer { id: (ids[i] * 10000 + i) as u64, store_id: ids[i] })
}

/// The outcome of allocating peers from the selected ids.
pub open spec fn allocated_peers(ids: Seq<u64>, count: usize) -> Result<Seq<Peer>, RegionAllocError> {
    match allocated_stores(ids, count) {
        Ok(ids) => Ok(peers_on(ids)),
        Err(e) => Err(e),
    }
}

/// The first store of a lightest-first list that is not excluded.
pub open spec fn first_not_excluded(list: Seq<StoreLoad>, exclude: Seq<u64>) -> Option<u64>
    decreases list.len(),
{
    if list.len() == 0 {
        None
    } else if !exclude.contains(list[0].store_id) {
        Some(list[0].store_id)
    } else {
        first_not_excluded(list.drop_first(), exclude)
    }
}

/// Mathematical value of an optional list of peers.
pub open spec fn peers_result_view(r: Result<Vec<Peer>, RegionAllocError>) -> Result<
    Seq<Peer>,
    RegionAllocError,
> {
    match r {
        Ok(v) => Ok(v@),
        Err(e) => Err(e),
    }
}

/// Picks the stores of the replicas of new regions.
pub struct RegionAllocator {
    pub balancer: StoreBalancer,
    /// Number of replicas of each region.
    pub replication_factor: usize,
}

impl RegionAllocator {
    /// Peer ids `store_id * 10000 + i` stay below `u64::MAX` for every known
    /// store and every replica position.
    pub open spec fn peer_ids_fit(&self) -> bool {
        forall|i: int|
            0 <= i < self.balancer@.loads.len() ==> (#[trigger] self.balancer@.loads[i]).1.store_id
                * 10000 + self.replication_factor <= u64::MAX
    }

    pub fn new(balancer: StoreBalancer, replication_factor: usize) -> (r: Self)
        ensures
            r.balancer@ == balancer@,
            r.replication_factor == replication_factor,
    {
        RegionAllocator { balancer, replication_factor }
    }

    /// The stores of the replicas of a new region: the lightest live, fresh
    /// stores, one per replica.
    pub fn allocate_stores(&self, _region: &Region) -> (r: Result<Vec<u64>, RegionAllocError>)
        ensures
            exists|now: u128, list: Seq<StoreLoad>|
                #[trigger] self.balancer@.is_available_list(now, list) && match r {
                    Ok(v) => allocated_stores(
                        selected_ids(list, self.replication_factor),
                        self.replication_factor,
                    ) == Ok::<Seq<u64>, RegionAllocError>(v@),
                    Err(e) => allocated_stores(
                        selected_ids(list, self.replication_factor),
                        self.replication_factor,
                    ) == Err::<Seq<u64>, RegionAllocError>(e),
                },
    {
        let stores = self.balancer.select_stores(self.replication_factor);
        if stores.len() < self.replication_factor {
            return Err(
                RegionAllocError::NotEnoughStores {
                    need: self.replication_factor,
                    got: stores.len(),
                },
            );
        }
        Ok(stores)
    }

    /// The replicas of a new region, one on each allocated store.
    pub fn allocate_peers(&self, region: &Region, _new_region_id: u64) -> (r: Result<
        Vec<Peer>,
        RegionAllocError,
    >)
        requires
            self.peer_ids_fit(),
        ensures
            exists|now: u128, list: Seq<StoreLoad>|
                #[trigger] self.balancer@.is_available_list(now, list) && peers_result_view(r)
                    == allocated_peers(
                    selected_ids(list, self.replication_factor),
                    self.replication_factor,
                ),
    {
        let store_ids = match self.allocate_stores(region) {
            Ok(ids) => ids,
            Err(e) => {
                return Err(e);
            },
        };
        let ghost list = choose|now: u128, list: Seq<StoreLoad>|
            #[trigger] self.balancer@.is_available_list(now, list) && allocated_stores(
                selected_ids(list, self.replication_factor),
                self.replication_factor,
            ) == Ok::<Seq<u64>, RegionAllocError>(store_ids@);
        let ghost now = list.0;
        let ghost list = list.1;
        proof {
            self.lemma_selected_ids_fit(now, list);
        }
        let mut peers: Vec<Peer> = Vec::new();
        let mut idx: usize = 0;
        while idx < store_ids.len()
            invariant
                0 <= idx <= store_ids@.len(),
                store_ids@.len() <= self.replication_factor,
                forall|i: int|
                    0 <= i < store_ids@.len() ==> #[trigger] store_ids@[i] * 10000
                        + self.replication_factor <= u64::MAX,
                peers@ == peers_on(store_ids@).take(idx as int),
            decreases store_ids@.len() - idx,
        {
            let store_id = store_ids[idx];
            let peer_id = store_id * 10000 + idx as u64;
            peers.push(Peer { id: peer_id, store_id });
            proof {
                assert(peers@ =~= peers_on(store_ids@).take(idx + 1));
            }
            idx += 1;
        }
        proof {
            assert(peers_on(store_ids@).take(store_ids@.len() as int) =~= peers_on(store_ids@));
        }
        Ok(peers)
    }

    /// Each selected store is a known store, so its peer ids fit.
    proof fn lemma_selected_ids_fit(&self, now: u128, list: Seq<StoreLoad>)
        requires
            self.peer_ids_fit(),
            self.balancer@.is_available_list(now, list),
        ensures
            selected_ids(list, self.replication_factor).len() <= self.replication_factor,
            forall|i: int|
                0 <= i < selected_ids(list, self.replication_factor).len() ==> #[trigger] selected_ids(
                    list,
                    self.replication_factor,
                )[i] * 10000 + self.replication_factor <= u64::MAX,
    {
        broadcast use vstd::seq_lib::group_to_multiset_ensures;

        let b = self.balancer@;
        let ids = selected_ids(list, self.replication_factor);
        lemma_available_in(b.loads, now, b.max_load_age);
        assert forall|i: int| 0 <= i < ids.len() implies #[trigger] ids[i] * 10000
            + self.replication_factor <= u64::MAX by {
            let l = list[i];
            assert(ids[i] == l.store_id);
            assert(list.contains(l));
            assert(list.to_multiset().count(l) > 0);
            assert(available_in(b.loads, now, b.max_load_age).contains(l));
            let k = choose|k: int| 0 <= k < b.loads.len() && b.loads[k].1 == l;
            assert(b.loads[k].1.store_id * 10000 + self.replication_factor <= u64::MAX);
        }
    }

    /// The lightest live, fresh store not in `exclude_stores`, if any.
    pub fn select_single_store(&self, exclude_stores: &[u64]) -> (r: Option<u64>)
        ensures
            exists|now: u128, list: Seq<StoreLoad>|
                #[trigger] self.balancer@.is_available_list(now, list) && r == first_not_excluded(
                    list,
                    exclude_stores@,
                ),
    {
        let stores = self.balancer.get_available_stores();
        let ghost s = stores@;
        let ghost now = choose|now: u128| #[trigger] self.balancer@.is_available_list(now, s);
        let mut i: usize = 0;
        proof {
            assert(s.skip(0) =~= s);
        }
        while i < stores.len()
            invariant
                s == stores@,
                0 <= i <= s.len(),
                self.balancer@.is_available_list(now, s),
                first_not_excluded(s, exclude_stores@) == first_not_excluded(
                    s.skip(i as int),
                    exclude_stores@,
                ),
            decreases s.len() - i,
        {
            proof {
                assert(s.skip(i as int)[0] == s[i as int]);
                assert(s.skip(i as int).drop_first() =~= s.skip(i + 1));
            }
            let id = stores[i].store_id;
            if !slice_contains(exclude_stores, id) {
                assert(first_not_excluded(s.skip(i as int), exclude_stores@) == Some(id));
                assert(self.balancer@.is_available_list(now, s));
                return Some(id);
            }
            i += 1;
        }
        proof {
            assert(s.skip(i as int).len() == 0);
            assert(self.balancer@.is_available_list(now, s));
        }
        None
    }
}

/// Whether `v` occurs in `s`.
fn slice_contains(s: &[u64], v: u64) -> (r: bool)
    ensures
        r == s@.contains(v),
{
    let mut i: usize = 0;
    while i < s.len()
        invariant
            0 <= i <= s@.len(),
            forall|j: int| 0 <= j < i ==> s@[j] != v,
        decreases s@.len() - i,
    {
        if s[i] == v {
            assert(s@[i as int] == v);
            return true;
        }
        i += 1;
    }
    false
}

} // verus!
