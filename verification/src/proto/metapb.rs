use vstd::prelude::*;

verus! {

/// Version of a region: `conf_ver` counts membership changes, `version`
/// counts splits and merges.
#[derive(Debug, Clone, Copy, PartialEq, Eq, Structural)]
pub struct RegionEpoch {
    pub conf_ver: u64,
    pub version: u64,
}

impl RegionEpoch {
    pub fn new(conf_ver: u64, version: u64) -> (r: Self)
        ensures
            r == (RegionEpoch { conf_ver, version }),
    {
        RegionEpoch { conf_ver, version }
    }
}

/// A replica of a region on a store.
#[derive(Debug, Clone, Copy, PartialEq, Eq, Structural)]
pub struct Peer {
    pub id: u64,
    pub store_id: u64,
}

/// A key range `[start_key, end_key)` and its replicas; an empty end key
/// means "up to the end".
#[derive(Debug, PartialEq, Eq)]
pub struct Region {
    pub id: u64,
    pub start_key: Vec<u8>,
    pub end_key: Vec<u8>,
    pub region_epoch: RegionEpoch,
    pub peers: Vec<Peer>,
}

/// Mathematical value of a region.
pub struct RegionView {
    pub id: u64,
    pub start_key: Seq<u8>,
    pub end_key: Seq<u8>,
    pub region_epoch: RegionEpoch,
    pub peers: Seq<Peer>,
}

impl View for Region {
    type V = RegionView;

    open spec fn view(&self) -> RegionView {
        RegionView {
            id: self.id,
            start_key: self.start_key@,
            end_key: self.end_key@,
            region_epoch: self.region_epoch,
            peers: self.peers@,
        }
    }
}

impl Clone for Region {
    fn clone(&self) -> (r: Self)
        ensures
            r@ == self@,
    {
        Region {
            id: self.id,
            start_key: self.start_key.clone(),
            end_key: self.end_key.clone(),
            region_epoch: self.region_epoch,
            peers: self.peers.clone(),
        }
    }
}

/// State of a store.
#[derive(Debug, Clone, Copy, PartialEq, Eq, Structural)]
pub enum StoreState {
    Up,
    Offline,
    Tombstone,
}

/// A storage node.
#[derive(Debug, Clone, PartialEq, Eq)]
pub struct Store {
    pub id: u64,
    pub address: String,
    pub state: StoreState,
}

} // verus!
