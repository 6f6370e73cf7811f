use aegisdb::ingest::{truncate_for_event, FinanceKind, TierEntry};
use aegisdb::config::{Config, ConfigError, MB};
use aegisdb::pd::id_allocator::IdAllocator;
use aegisdb::pd::state::from_proto_store;
use aegisdb::proto::metapb::{Peer, Region, RegionEpoch, Store, StoreState};
use aegisdb::raftstore::meta::keys::region_state_key;
use aegisdb::raftstore::meta::values::{PeerState, RaftApplyState, RaftLocalState, HardState, RaftTruncatedState};
use aegisdb::raftstore::peer::{campaigns_at_creation, raft_config_for};
use aegisdb::raftstore::peer_msg_handler::{should_check_split, validate_split_region, SplitValidationError};
use aegisdb::raftstore::peer_storage::{conf_state_of, term_from_state, PeerStorageError};
use aegisdb::raftstore::recovery::{classify_recovery_key, keeps_recovered_region, RecoveryKey};
use aegisdb::raftstore::split_checker::{SizeScan, SplitChecker};

fn region(peers: &[(u64, u64)]) -> Region {
    Region {
        id: 1,
        start_key: vec![],
        end_key: vec![],
        region_epoch: RegionEpoch::new(1, 3),
        peers: peers.iter().map(|(id, s)| Peer { id: *id, store_id: *s }).collect(),
    }
}

#[test]
fn config_defaults_and_validation() {
    let c = Config::new_default("info".to_string());
    assert_eq!(c.validate(), Ok(()));
    assert_eq!(c.region_max_size, 144 * MB);
    assert_eq!(c.region_split_size, 96 * MB);
    assert_eq!(c.db_path, "/tmp/aegisdb");
    let mut t = Config::new_test("debug".to_string());
    assert_eq!(t.raft_base_tick_interval, 50);
    assert_eq!(t.log_level, "debug");
    t.raft_heartbeat_ticks = 0;
    assert_eq!(t.validate(), Err(ConfigError::HeartbeatTickNotPositive));
    t.raft_heartbeat_ticks = 10;
    assert_eq!(t.validate(), Err(ConfigError::ElectionTickNotGreater));
    t.raft_heartbeat_ticks = -1;
    t.raft_election_timeout_ticks = 5;
    assert_eq!(t.validate(), Err(ConfigError::HeartbeatTickNotPositive));
}

#[test]
fn id_allocator_counts_up() {
    let mut a = IdAllocator::new(1000);
    assert_eq!(a.alloc_id(), 1001);
    assert_eq!(a.alloc_id(), 1002);
    let mut b = IdAllocator::new(7);
    let ids: Vec<u64> = (0..5).map(|_| b.alloc_id()).collect();
    assert_eq!(ids, vec![8, 9, 10, 11, 12]);
}

#[test]
fn proto_store_is_copied() {
    let s = from_proto_store(Store { id: 3, address: "a:1".to_string(), state: StoreState::Offline });
    assert_eq!((s.id, s.address.as_str(), s.state), (3, "a:1", StoreState::Offline));
}

#[test]
fn split_checker_scan() {
    let checker = SplitChecker { max_size: 30, split_size: 10 };
    let mut scan = SizeScan { size: 0, split_key: None };
    assert!(checker.scan_step(&mut scan, b"default_", b"", b"default_aa", 4));
    assert_eq!(scan.size, 6);
    assert!(checker.scan_step(&mut scan, b"default_", b"", b"default_bb", 4));
    assert_eq!(scan.split_key, Some(b"bb".to_vec()));
    assert!(checker.scan_step(&mut scan, b"default_", b"", b"default_cc", 4));
    assert_eq!(scan.split_key, Some(b"bb".to_vec()));
    assert!(!checker.scan_step(&mut scan, b"default_", b"", b"default_dd", 20));
    assert_eq!(scan.size, 40);
    assert_eq!(SplitChecker::scan_result(scan), Some((40, b"bb".to_vec())));
    // other column families and keys past the end stop the scan uncounted
    let mut s2 = SizeScan { size: 0, split_key: None };
    assert!(!checker.scan_step(&mut s2, b"default_", b"", b"lock_aa", 4));
    assert!(!checker.scan_step(&mut s2, b"default_", b"m", b"default_m", 4));
    assert_eq!(s2.size, 0);
    assert_eq!(SplitChecker::scan_result(s2), None);
}

#[test]
fn split_checker_check() {
    let checker = SplitChecker::new(&Config::new_test("info".to_string()));
    assert_eq!(checker.max_size, 144 * MB);
    let small = SplitChecker { max_size: 100, split_size: 50 };
    let mut check = SizeScan { size: 0, split_key: None };
    assert!(small.check_step(&mut check, Some((40, b"a".to_vec()))));
    assert!(small.check_step(&mut check, None));
    assert!(small.check_step(&mut check, Some((40, b"k".to_vec()))));
    assert_eq!(check.split_key, Some(b"k".to_vec()));
    assert_eq!(small.check_result(check), None);
    let mut big = SizeScan { size: 0, split_key: None };
    assert!(!small.check_step(&mut big, Some((120, b"z".to_vec()))));
    assert_eq!(small.check_result(big), Some(b"z".to_vec()));
}

#[test]
fn recovery_decisions() {
    let mut key = vec![b'_'];
    key.extend(region_state_key(42));
    assert_eq!(classify_recovery_key(&key), RecoveryKey::Region(42));
    assert_eq!(classify_recovery_key(b"_\x01abc"), RecoveryKey::Skip);
    assert_eq!(classify_recovery_key(b"_\x02"), RecoveryKey::Skip);
    assert_eq!(classify_recovery_key(b"_"), RecoveryKey::Skip);
    assert_eq!(classify_recovery_key(b""), RecoveryKey::Skip);
    assert_eq!(classify_recovery_key(b"default_k"), RecoveryKey::Stop);
    let r = region(&[(1, 10), (2, 20)]);
    assert!(keeps_recovered_region(PeerState::Normal, &r, 20));
    assert!(!keeps_recovered_region(PeerState::Normal, &r, 30));
    assert!(!keeps_recovered_region(PeerState::Tombstone, &r, 20));
}

#[test]
fn peer_decisions() {
    let r = region(&[(5, 1)]);
    assert!(campaigns_at_creation(&r, 1));
    assert!(!campaigns_at_creation(&r, 2));
    assert!(!campaigns_at_creation(&region(&[(5, 1), (6, 2)]), 1));
    let cfg = Config::new_default("info".to_string());
    let rc = raft_config_for(&Peer { id: 5, store_id: 1 }, &region(&[(5, 1), (6, 2)]), &cfg, 7);
    assert_eq!((rc.id, rc.peers.clone(), rc.election_tick, rc.heartbeat_tick, rc.applied), (5, vec![5, 6], 10, 2, 7));
    assert_eq!(conf_state_of(&region(&[(5, 1), (6, 2)])).nodes, vec![5, 6]);
}

#[test]
fn peer_storage_terms() {
    let apply = RaftApplyState { applied_index: 9, truncated_state: RaftTruncatedState { index: 5, term: 2 } };
    let raft = RaftLocalState { hard_state: HardState { term: 3, vote: 0, commit: 9 }, last_index: 9, last_term: 3 };
    assert_eq!(term_from_state(0, Some(apply), None, None), Ok(0));
    assert_eq!(term_from_state(4, Some(apply), Some(1), Some(raft)), Err(PeerStorageError::BeforeTruncated { index: 4, truncated_index: 5 }));
    assert_eq!(term_from_state(5, Some(apply), None, None), Ok(2));
    assert_eq!(term_from_state(7, Some(apply), Some(3), None), Ok(3));
    assert_eq!(term_from_state(9, Some(apply), None, Some(raft)), Ok(3));
    assert_eq!(term_from_state(8, None, None, Some(raft)), Err(PeerStorageError::EntryNotFound(8)));
}

#[test]
fn split_request_validation() {
    let r = region(&[(5, 1)]);
    assert_eq!(validate_split_region(b"", true, &r, &RegionEpoch::new(1, 3)), Err(SplitValidationError::EmptySplitKey));
    assert_eq!(validate_split_region(b"k", false, &r, &RegionEpoch::new(1, 3)), Err(SplitValidationError::NotLeader));
    assert_eq!(validate_split_region(b"k", true, &r, &RegionEpoch::new(1, 2)), Err(SplitValidationError::EpochChanged));
    assert_eq!(validate_split_region(b"k", true, &r, &RegionEpoch::new(9, 3)), Ok(()));
    assert!(!should_check_split(false, 100, None));
    assert!(should_check_split(true, 0, None));
    assert!(!should_check_split(true, 9, Some(80)));
    assert!(should_check_split(true, 10, Some(80)));
}

#[test]
fn ingest_helpers() {
    assert_eq!(FinanceKind::parse("account"), FinanceKind::Account);
    assert_eq!(FinanceKind::parse("quote"), FinanceKind::Quote);
    assert_eq!(FinanceKind::parse("txn"), FinanceKind::Txn);
    assert_eq!(FinanceKind::parse("Account"), FinanceKind::Txn);
    assert_eq!(truncate_for_event("hello", 10), "hello");
    assert_eq!(truncate_for_event("hello", 3), "hel");
    assert_eq!(truncate_for_event("hello", 5), "hello");
    let e = TierEntry::from_raw(b"write_user_1", b"v");
    assert_eq!((e.cf.as_str(), e.key.as_str(), e.value.as_str()), ("write", "user_1", "v"));
    let d = TierEntry::from_raw(b"plain", b"\xff");
    assert_eq!((d.cf.as_str(), d.key.as_str(), d.value.as_str()), ("default", "plain", "\u{fffd}"));
}
