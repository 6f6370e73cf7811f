use aegisdb::proto::metapb::{Peer, Region, RegionEpoch, Store, StoreState};
use aegisdb::proto::raft_cmdpb::{AdminCmdType, AdminRequest, SplitRequest};
use aegisdb::raftstore::admin::{AdminError, AdminHandler};
use aegisdb::raftstore::failure_detector::{FailureDetector, LeaderSwitchManager, NodeHealth, NodeStatus};
use aegisdb::raftstore::meta::keys::{
    apply_state_key, decode_region_meta_key, raft_log_key, raft_state_key, region_state_key,
    KeyDecodeError,
};
use aegisdb::engine_util::write_batch::{BatchEntry, WriteBatch};
use aegisdb::raftstore::meta::values::{write_region_state, PeerState};
use aegisdb::raftstore::recovery::recover_from_listing;
use aegisdb::raftstore::region_allocator::{RegionAllocError, RegionAllocator};
use std::collections::BTreeMap;
use aegisdb::raftstore::store_balancer::{StoreBalancer, StoreLoad, DURATION_MAX_NANOS};
use aegisdb::raftstore::store_meta::StoreMeta;
use aegisdb::raftstore::util::{find_peer, is_epoch_stale, key_in_region, safe_copy};

fn region(id: u64, start: &[u8], end: &[u8], stores: &[u64]) -> Region {
    Region {
        id,
        start_key: start.to_vec(),
        end_key: end.to_vec(),
        region_epoch: RegionEpoch::new(1, 1),
        peers: stores
            .iter()
            .enumerate()
            .map(|(i, s)| Peer { id: id * 100 + i as u64, store_id: *s })
            .collect(),
    }
}

// ---------------------------------------------------------------- keys

#[test]
fn region_state_key_layout_and_decoding() {
    let key = region_state_key(0x0102030405060708);
    assert_eq!(key, vec![1, 1, 2, 3, 4, 5, 6, 7, 8, 1]);
    assert_eq!(decode_region_meta_key(&key), Ok((0x0102030405060708, 1)));
}

#[test]
fn decode_rejects_bad_keys() {
    assert_eq!(decode_region_meta_key(&[1, 0, 0]), Err(KeyDecodeError::InvalidRegionMetaKey));
    assert_eq!(
        decode_region_meta_key(&[2, 0, 0, 0, 0, 0, 0, 0, 7, 1]),
        Err(KeyDecodeError::InvalidRegionMetaKey)
    );
}

#[test]
fn other_meta_keys() {
    assert_eq!(raft_state_key(7), vec![2, 0, 0, 0, 0, 0, 0, 0, 7]);
    assert_eq!(apply_state_key(7), vec![4, 0, 0, 0, 0, 0, 0, 0, 7]);
    assert_eq!(
        raft_log_key(1, 256),
        vec![3, 0, 0, 0, 0, 0, 0, 0, 1, 0, 0, 0, 0, 0, 0, 1, 0]
    );
}

// ---------------------------------------------------------------- util

#[test]
fn util_helpers() {
    let r = region(1, b"b", b"d", &[10, 20, 20]);
    assert!(key_in_region(b"b", &r));
    assert!(key_in_region(b"c", &r));
    assert!(!key_in_region(b"d", &r));
    assert!(!key_in_region(b"a", &r));
    let open = region(2, b"", b"", &[1]);
    assert!(key_in_region(b"", &open));
    assert!(key_in_region(b"zzz", &open));
    assert_eq!(find_peer(&r, 20), Some(&Peer { id: 101, store_id: 20 }));
    assert_eq!(find_peer(&r, 30), None);
    assert!(is_epoch_stale(&RegionEpoch::new(5, 1), &RegionEpoch::new(0, 2)));
    assert!(is_epoch_stale(&RegionEpoch::new(1, 2), &RegionEpoch::new(2, 2)));
    assert!(!is_epoch_stale(&RegionEpoch::new(2, 2), &RegionEpoch::new(2, 2)));
    assert_eq!(safe_copy(b"abc"), b"abc".to_vec());
}

// ---------------------------------------------------------------- store meta

#[test]
fn store_meta_set_get_find() {
    let mut meta = StoreMeta::new();
    meta.set_region(region(1, b"", b"m", &[1]));
    meta.set_region(region(2, b"m", b"", &[1]));
    assert_eq!(meta.get_region(1).map(|r| r.end_key), Some(b"m".to_vec()));
    assert_eq!(meta.get_region(3), None);
    assert_eq!(meta.find_region_by_key(b"a").map(|r| r.id), Some(1));
    assert_eq!(meta.find_region_by_key(b"m").map(|r| r.id), Some(2));
    assert_eq!(meta.find_region_by_key(b"zz").map(|r| r.id), Some(2));
}

#[test]
fn store_meta_find_misses_gap() {
    let mut meta = StoreMeta::new();
    meta.set_region(region(1, b"a", b"c", &[1]));
    meta.set_region(region(2, b"e", b"g", &[1]));
    assert_eq!(meta.find_region_by_key(b"d"), None);
    assert_eq!(meta.find_region_by_key(b"0"), None);
    assert_eq!(meta.find_region_by_key(b"f").map(|r| r.id), Some(2));
}

#[test]
fn store_meta_reset_region_moves_its_entry() {
    let mut meta = StoreMeta::new();
    meta.set_region(region(1, b"a", b"c", &[1]));
    meta.set_region(region(2, b"c", b"e", &[1]));
    // region 1 moves to a new range: its old entry must go.
    meta.set_region(region(1, b"x", b"z", &[1]));
    assert_eq!(meta.find_region_by_key(b"b"), None);
    assert_eq!(meta.find_region_by_key(b"y").map(|r| r.id), Some(1));
    assert_eq!(meta.get_all_regions().len(), 2);
}

#[test]
fn store_meta_remove_and_all() {
    let mut meta = StoreMeta::new();
    meta.set_region(region(5, b"c", b"d", &[1]));
    meta.set_region(region(3, b"a", b"b", &[1]));
    meta.set_region(region(9, b"e", b"f", &[1]));
    let ids: Vec<u64> = meta.get_all_regions().iter().map(|r| r.id).collect();
    assert_eq!(ids, vec![3, 5, 9]);
    meta.remove_region(5);
    let ids: Vec<u64> = meta.get_all_regions().iter().map(|r| r.id).collect();
    assert_eq!(ids, vec![3, 9]);
    assert_eq!(meta.find_region_by_key(b"c"), None);
    meta.remove_region(42);
    assert_eq!(meta.get_all_regions().len(), 2);
}

#[test]
fn store_meta_overlaps_in_start_key_order() {
    let mut meta = StoreMeta::new();
    meta.set_region(region(1, b"a", b"c", &[1]));
    meta.set_region(region(2, b"c", b"e", &[1]));
    meta.set_region(region(3, b"e", b"g", &[1]));
    let probe = region(9, b"b", b"d", &[1]);
    let ids: Vec<u64> = meta.get_overlap_regions(&probe).iter().map(|r| r.id).collect();
    assert_eq!(ids, vec![1, 2]);
    let far = region(9, b"x", b"y", &[1]);
    assert!(meta.get_overlap_regions(&far).is_empty());
}

// ---------------------------------------------------------------- balancer

fn load(id: u64, regions: usize, size: u64, at: u128) -> StoreLoad {
    StoreLoad {
        store_id: id,
        region_count: regions,
        leader_count: 0,
        region_size: size,
        leader_size: 0,
        last_update: at,
        is_up: true,
    }
}

#[test]
fn store_load_staleness() {
    // times in nanoseconds: a load of second 1 with half a second of age
    let l = load(1, 0, 0, 1_000_000_000);
    assert!(!l.is_stale_at(1_500_000_000, 500_000_000));
    // one nanosecond past the age is stale: no rounding to milliseconds
    assert!(l.is_stale_at(1_500_000_001, 500_000_000));
    // a report from the future is stale unless the longest age is accepted
    assert!(l.is_stale_at(999, 500));
    assert!(!l.is_stale_at(999, DURATION_MAX_NANOS));
    assert_eq!(DURATION_MAX_NANOS, std::time::Duration::MAX.as_nanos());
    assert!(!l.is_stale(DURATION_MAX_NANOS));
}

#[test]
fn store_load_key_orders_by_count_then_size() {
    assert_eq!(load(1, 2, 5, 0).load_key(), 2_000_005);
    assert!(load(1, 1, 999_999, 0).load_key() < load(2, 2, 0, 0).load_key());
}

#[test]
fn balancer_picks_lightest_stores() {
    let mut b = StoreBalancer::new(60_000_000_000);
    b.update_store_load(1, 10, 1, 100, 10);
    b.update_store_load(2, 3, 1, 100, 10);
    b.update_store_load(3, 7, 1, 100, 10);
    assert_eq!(b.select_best_store(), Some(2));
    assert_eq!(b.select_stores(2), vec![2, 3]);
    assert_eq!(b.select_stores(10), vec![2, 3, 1]);
    let ids: Vec<u64> = b.get_available_stores().iter().map(|l| l.store_id).collect();
    assert_eq!(ids, vec![2, 3, 1]);
}

#[test]
fn balancer_skips_down_stores() {
    let mut b = StoreBalancer::new(60_000_000_000);
    b.update_store_load(1, 1, 0, 0, 0);
    b.update_store_load(2, 5, 0, 0, 0);
    b.set_store_state(1, false);
    assert_eq!(b.select_best_store(), Some(2));
    assert_eq!(b.get_store_load(1).map(|l| l.is_up), Some(false));
    // an update keeps the state of a known store
    b.update_store_load(1, 0, 0, 0, 0);
    assert_eq!(b.get_store_load(1).map(|l| l.is_up), Some(false));
    b.set_store_state(1, true);
    assert_eq!(b.select_best_store(), Some(1));
    b.set_store_state(99, false);
    assert_eq!(b.get_store_load(99), None);
}

#[test]
fn balancer_heartbeat_and_stale_cleanup() {
    let mut b = StoreBalancer::new(1_000_000_000);
    let store = Store { id: 4, address: "s4".to_string(), state: StoreState::Up };
    b.update_from_store_heartbeat(&store, 8, 2);
    let l = b.get_store_load(4).unwrap();
    assert_eq!((l.region_count, l.leader_count, l.region_size, l.leader_size), (8, 2, 0, 0));
    let t = l.last_update;
    assert_eq!(b.get_available_stores_at(t + 1_000_000_000).len(), 1);
    assert!(b.get_available_stores_at(t + 1_000_000_001).is_empty());
    b.cleanup_stale_loads_at(t + 500);
    let kept = b.get_store_load(4);
    assert!(kept.is_some());
    // a second cleanup at the same instant changes nothing
    b.cleanup_stale_loads_at(t + 500);
    assert_eq!(b.get_store_load(4), kept);
    b.cleanup_stale_loads_at(t + 5_000_000_000);
    assert_eq!(b.get_store_load(4), None);
}

#[test]
fn balancer_needs_balance() {
    let mut b = StoreBalancer::new(60_000_000_000);
    assert!(!b.needs_balance());
    b.update_store_load(1, 6, 0, 0, 0);
    b.update_store_load(2, 4, 0, 0, 0);
    // average 5, threshold 6: 6 is not more than 6
    assert!(!b.needs_balance());
    b.update_store_load(2, 3, 0, 0, 0);
    // average 4.5, threshold 5.4: 6 is more
    assert!(b.needs_balance());
    let mut z = StoreBalancer::new(60_000_000_000);
    z.update_store_load(1, 0, 0, 0, 0);
    assert!(!z.needs_balance());
}

// ---------------------------------------------------------------- allocator

fn three_store_balancer() -> StoreBalancer {
    let mut b = StoreBalancer::new(60_000_000_000);
    b.update_store_load(1, 5, 0, 0, 0);
    b.update_store_load(2, 1, 0, 0, 0);
    b.update_store_load(3, 3, 0, 0, 0);
    b
}

#[test]
fn allocator_allocates_peers_on_lightest_stores() {
    let alloc = RegionAllocator::new(three_store_balancer(), 2);
    let r = region(1, b"", b"", &[1]);
    assert_eq!(alloc.allocate_stores(&r), Ok(vec![2, 3]));
    assert_eq!(
        alloc.allocate_peers(&r, 7),
        Ok(vec![Peer { id: 20000, store_id: 2 }, Peer { id: 30001, store_id: 3 }])
    );
    assert_eq!(alloc.select_single_store(&[2, 3]), Some(1));
    assert_eq!(alloc.select_single_store(&[1, 2, 3]), None);
    assert_eq!(alloc.select_single_store(&[]), Some(2));
}

#[test]
fn allocator_reports_missing_stores() {
    let alloc = RegionAllocator::new(three_store_balancer(), 5);
    let r = region(1, b"", b"", &[1]);
    assert_eq!(alloc.allocate_stores(&r), Err(RegionAllocError::NotEnoughStores { need: 5, got: 3 }));
    assert_eq!(alloc.allocate_peers(&r, 7), Err(RegionAllocError::NotEnoughStores { need: 5, got: 3 }));
}

// ---------------------------------------------------------------- admin

fn split_request(key: &[u8], new_id: u64, peers: Vec<u64>) -> AdminRequest {
    AdminRequest {
        cmd_type: 10,
        change_peer: None,
        compact_log: None,
        transfer_leader: None,
        split: Some(SplitRequest { split_key: key.to_vec(), new_region_id: new_id, new_peer_ids: peers }),
    }
}

fn handler() -> AdminHandler {
    AdminHandler::new(StoreMeta::new(), RegionAllocator::new(three_store_balancer(), 2), 7)
}

#[test]
fn admin_split_with_named_peers() {
    let mut h = handler();
    let r = region(1, b"a", b"z", &[7]);
    let resp = h.execute(&r, split_request(b"m", 2, vec![50, 51])).unwrap();
    assert_eq!(resp.cmd_type, 10);
    let regions = resp.split.unwrap().regions;
    assert_eq!(regions.len(), 2);
    assert_eq!((regions[0].id, regions[0].start_key.clone(), regions[0].end_key.clone()), (1, b"a".to_vec(), b"m".to_vec()));
    assert_eq!(regions[0].region_epoch, RegionEpoch::new(1, 2));
    assert_eq!((regions[1].id, regions[1].start_key.clone(), regions[1].end_key.clone()), (2, b"m".to_vec(), b"z".to_vec()));
    assert_eq!(regions[1].region_epoch, RegionEpoch::new(2, 2));
    assert_eq!(regions[1].peers, vec![Peer { id: 50, store_id: 7 }, Peer { id: 51, store_id: 7 }]);
    assert_eq!(h.store_meta.find_region_by_key(b"c").map(|r| r.id), Some(1));
    assert_eq!(h.store_meta.find_region_by_key(b"q").map(|r| r.id), Some(2));
}

#[test]
fn admin_split_allocates_peers() {
    let mut h = handler();
    let r = region(1, b"", b"", &[7]);
    let resp = h.execute(&r, split_request(b"k", 3, vec![])).unwrap();
    let regions = resp.split.unwrap().regions;
    assert_eq!(regions[1].peers, vec![Peer { id: 20000, store_id: 2 }, Peer { id: 30001, store_id: 3 }]);
}

#[test]
fn admin_errors() {
    let mut h = handler();
    let r = region(1, b"b", b"d", &[7]);
    assert_eq!(h.execute(&r, split_request(b"", 2, vec![1])).err(), Some(AdminError::EmptySplitKey));
    assert_eq!(h.execute(&r, split_request(b"d", 2, vec![1])).err(), Some(AdminError::SplitKeyOutOfRange));
    assert_eq!(h.execute(&r, split_request(b"a", 2, vec![1])).err(), Some(AdminError::SplitKeyOutOfRange));
    let mut no_split = split_request(b"c", 2, vec![1]);
    no_split.split = None;
    assert_eq!(h.execute(&r, no_split).err(), Some(AdminError::MissingSplitRequest));
    for (code, err) in [
        (1, AdminError::ChangePeerNotImplemented),
        (3, AdminError::CompactLogNotImplemented),
        (4, AdminError::TransferLeaderNotImplemented),
        (0, AdminError::InvalidAdminCommand),
        (77, AdminError::InvalidAdminCommand),
    ] {
        let mut req = split_request(b"c", 2, vec![1]);
        req.cmd_type = code;
        assert_eq!(h.execute(&r, req).err(), Some(err));
    }
    let mut big = AdminHandler::new(StoreMeta::new(), RegionAllocator::new(three_store_balancer(), 4), 7);
    assert_eq!(
        big.execute(&r, split_request(b"c", 2, vec![])).err(),
        Some(AdminError::Alloc(RegionAllocError::NotEnoughStores { need: 4, got: 3 }))
    );
    assert!(h.store_meta.get_all_regions().is_empty());
    assert_eq!(AdminCmdType::from(10), AdminCmdType::Split);
    assert_eq!(AdminCmdType::Split.code(), 10);
}

// ---------------------------------------------------------------- failure detector

#[test]
fn test_failure_detector_basic() {
    let mut detector = FailureDetector::new(2_000_000_000, 3, 100_000_000);
    detector.register_node(1);
    detector.register_node(2);
    detector.update_heartbeat(1);
    detector.update_heartbeat(2);
    assert_eq!(detector.get_status(1), Some(NodeStatus::Healthy));
    assert_eq!(detector.get_status(2), Some(NodeStatus::Healthy));
}

#[test]
fn test_failure_detector_timeout() {
    let mut detector = FailureDetector::new(500_000_000, 2, 100_000_000);
    let t0 = 1_000_000_000_000;
    detector.register_node_at(1, t0);
    detector.update_heartbeat_at(1, t0);
    detector.record_failure_at(1, t0 + 600_000_000);
    detector.record_failure_at(1, t0 + 600_000_000);
    let _ = detector.check_all_nodes_at(t0 + 600_000_000);
    let status = detector.get_status(1);
    assert!(status == Some(NodeStatus::Suspect) || status == Some(NodeStatus::Failed));
}

#[test]
fn test_failure_detector_recovery() {
    let mut detector = FailureDetector::new(500_000_000, 2, 100_000_000);
    let t0 = 1_000_000_000_000;
    detector.register_node_at(1, t0);
    detector.update_heartbeat_at(1, t0);
    detector.record_failure_at(1, t0 + 600_000_000);
    detector.update_heartbeat_at(1, t0 + 600_000_000);
    assert_eq!(detector.get_status(1), Some(NodeStatus::Healthy));
}

#[test]
fn test_leader_switch_manager() {
    let mut manager = LeaderSwitchManager::new(FailureDetector::new(500_000_000, 2, 100_000_000));
    manager.set_leader(1, 100);
    manager.set_leader(2, 200);
    assert_eq!(manager.get_leader(1), Some(100));
    assert_eq!(manager.get_leader(2), Some(200));

    let t0 = 1_000_000_000_000;
    manager.failure_detector.register_node_at(100, t0);
    manager.failure_detector.register_node_at(200, t0);
    manager.failure_detector.update_heartbeat_at(100, t0);
    manager.failure_detector.update_heartbeat_at(200, t0);
    for _ in 0..3 {
        manager.failure_detector.record_failure_at(100, t0 + 600_000_000);
    }
    let _ = manager.failure_detector.check_all_nodes_at(t0 + 600_000_000);

    let leader = manager.check_and_switch_leader(1);
    assert_eq!(leader, None);
    assert_eq!(manager.get_leader(1), None);
    assert_eq!(manager.check_and_switch_leader(2), Some(200));
}

#[test]
fn failure_detector_check_outcomes() {
    let mut d = FailureDetector::new(500_000_000, 2, 100_000_000);
    let t0 = 10_000_000_000;
    d.register_node_at(1, t0);
    d.register_node_at(2, t0);
    d.register_node_at(3, t0);
    d.update_heartbeat_at(1, t0);
    d.update_heartbeat_at(2, t0);
    d.update_heartbeat_at(3, t0 + 400_000_000);
    d.record_failure_at(1, t0 + 600_000_000);
    d.record_failure_at(1, t0 + 600_000_000);
    d.record_failure_at(2, t0 + 600_000_000);
    assert_eq!(d.check_all_nodes_at(t0 + 600_000_000), vec![1]);
    assert_eq!(d.get_status(1), Some(NodeStatus::Failed));
    assert_eq!(d.get_status(2), Some(NodeStatus::Suspect));
    assert_eq!(d.get_status(3), Some(NodeStatus::Healthy));
    assert_eq!(d.get_failed_nodes(), vec![1]);
    assert_eq!(d.get_suspect_nodes(), vec![2]);
    // a failed node is reported once
    assert!(d.check_all_nodes_at(t0 + 700_000_000).is_empty());
    d.remove_node(1);
    assert_eq!(d.get_status(1), None);
    // a node that never sent a heartbeat is an hour late
    d.register_node_at(4, t0);
    d.check_all_nodes_at(t0);
    assert_eq!(d.get_status(4), Some(NodeStatus::Suspect));
    d.record_failure_at(42, t0);
    assert_eq!(d.get_status(42), None);
}

#[test]
fn node_health_transitions() {
    let mut h = NodeHealth::new(5);
    assert_eq!(h.status, NodeStatus::Healthy);
    h.update_heartbeat(10);
    assert_eq!(h.last_heartbeat, Some(10));
    h.record_failure(20);
    assert_eq!((h.consecutive_failures, h.last_check), (1, 20));
    assert!(!h.check_health(500, 600, 1));
    assert_eq!(h.status, NodeStatus::Healthy);
    assert!(h.check_health(700, 600, 1));
    assert_eq!(h.status, NodeStatus::Failed);
}

#[test]
fn leaders_on_failed_nodes() {
    let mut m = LeaderSwitchManager::new(FailureDetector::new(500_000_000, 2, 100_000_000));
    m.set_leader(1, 100);
    m.set_leader(2, 200);
    m.set_leader(3, 100);
    assert_eq!(m.leaders_on(&vec![100]), vec![(1, 100), (3, 100)]);
    assert!(m.leaders_on(&vec![]).is_empty());
}

// The region states as the store keeps them: written with
// `write_region_state`, then read back in key order from the first region
// metadata key on, each with the state stored for its region.
fn recover_written(states: &[(Region, PeerState)], store_id: u64) -> Vec<Region> {
    let mut wb = WriteBatch::new();
    let mut stored: BTreeMap<Vec<u8>, (PeerState, Region)> = BTreeMap::new();
    for (region, state) in states {
        write_region_state(&mut wb, region.id, b"state");
        let key = match wb.entries().last().unwrap() {
            BatchEntry::Put { key, .. } => key.clone(),
            BatchEntry::Delete { key } => key.clone(),
        };
        stored.insert(key, (*state, region.clone()));
    }
    let listing: Vec<(Vec<u8>, Option<(PeerState, Region)>)> = stored
        .range(vec![b'_', 1u8]..)
        .map(|(k, (st, r))| (k.clone(), Some((*st, r.clone()))))
        .collect();
    recover_from_listing(&listing, store_id)
}

#[test]
fn test_recover_regions() {
    let region1 = region(1, b"a", b"m", &[1]);
    let region2 = region(2, b"m", b"", &[1]);
    let recovered = recover_written(&[(region1, PeerState::Normal), (region2, PeerState::Normal)], 1);
    assert_eq!(recovered.len(), 2);
    assert_eq!(recovered[0].id, 1);
    assert_eq!(recovered[1].id, 2);
}

#[test]
fn test_recover_regions_with_tombstone() {
    let region1 = region(1, b"a", b"m", &[1]);
    let region2 = region(2, b"m", b"", &[1]);
    let recovered = recover_written(&[(region1, PeerState::Normal), (region2, PeerState::Tombstone)], 1);
    assert_eq!(recovered.len(), 1);
    assert_eq!(recovered[0].id, 1);
}
