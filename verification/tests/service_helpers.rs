use aegisdb::proto::errorpb::Error;
use aegisdb::proto::metapb::{Peer, Region, RegionEpoch};
use aegisdb::proto::raft_cmdpb::AdminCmdType;
use aegisdb::proto::schedulerpb::{AskSplitResponse, RequestHeader, ResponseHeader};
use aegisdb::raftstore::runner::scheduler_task::{
    admin_request_data, region_heartbeat_request, split_admin_request, SchedulerRegionHeartbeatTask,
};
use aegisdb::engine_util::iterator::{DBItem, PrefixCursor};
use aegisdb::engine_util::write_batch::{BatchEntry, WriteBatch};
use aegisdb::ingest::{
    finance_key,
    kv_response, migration_message, migration_writes, plan_kv_operation, redis_url_or_default,
    start_settings, Event, EventLog, FinanceKind, KvRequest, Metrics, MigrationProgress, TierEntry,
    EVENT_CAPACITY,
};
use aegisdb::launch::{base_region, next_region_size, store_id_from_addr};
use aegisdb::pd::config::PdConfig;
use aegisdb::pd::state::{region_for_key, PdError, PdState};
use aegisdb::proto::schedulerpb::StoreStats;
use std::path::PathBuf;
use aegisdb::pd::http::{cluster_summary, network_totals, store_load_views, system_disks, DiskReading};
use aegisdb::raftstore::meta::keys::{apply_state_key, raft_log_key, region_state_key};
use aegisdb::raftstore::meta::values::{
    raft_log_keys, write_apply_state, write_region_state, HardState, RaftApplyState, RaftLocalState,
    RaftTruncatedState,
};
use aegisdb::raftstore::peer_storage::{
    applied_index_of, first_index_of, initial_state_of, last_index_of, snapshot_of, truncated_index_of,
    truncated_term_of,
};
use aegisdb::raftstore::meta::values::PeerState;
use aegisdb::raftstore::recovery::recover_from_listing;
use aegisdb::raftstore::region_task::{collect_range, range_scan_step, snapshot_batch, RangeScanStep};
use aegisdb::raftstore::scheduler_client::client::{connect_endpoint, normalize_endpoint, ClientError};
use aegisdb::raftstore::store_balancer::StoreLoad;

fn puts(wb: &WriteBatch) -> Vec<(Vec<u8>, Vec<u8>)> {
    wb.entries()
        .iter()
        .map(|e| match e {
            BatchEntry::Put { key, value } => (key.clone(), value.clone()),
            BatchEntry::Delete { key } => (key.clone(), b"<deleted>".to_vec()),
        })
        .collect()
}

#[test]
fn endpoints_get_a_scheme() {
    assert_eq!(normalize_endpoint("127.0.0.1:2379".to_string()), "http://127.0.0.1:2379");
    assert_eq!(normalize_endpoint("http://pd:2379".to_string()), "http://pd:2379");
    assert_eq!(normalize_endpoint("https://pd:2379".to_string()), "https://pd:2379");
    assert_eq!(normalize_endpoint("http:/pd".to_string()), "http://http:/pd");
    assert_eq!(normalize_endpoint(String::new()), "http://");
    assert_eq!(
        connect_endpoint(vec!["pd-a:2379".to_string(), "pd-b:2379".to_string()]),
        Ok("http://pd-a:2379".to_string())
    );
    assert_eq!(connect_endpoint(vec![]), Err(ClientError::EmptyEndpoints));
    let once = normalize_endpoint("pd:1".to_string());
    assert_eq!(normalize_endpoint(once.clone()), once);
}

#[test]
fn range_scan_steps() {
    assert_eq!(range_scan_step(b"b", b"c"), RangeScanStep::Take);
    assert_eq!(range_scan_step(b"c", b"c"), RangeScanStep::Stop);
    assert_eq!(range_scan_step(b"d", b""), RangeScanStep::Take);
    assert_eq!(range_scan_step(&[0x01, 0x02], b""), RangeScanStep::Skip);
    assert_eq!(range_scan_step(&[0x0f], b"z"), RangeScanStep::Skip);
    assert_eq!(range_scan_step(&[0x10], b"z"), RangeScanStep::Take);
    assert_eq!(range_scan_step(b"", b"z"), RangeScanStep::Take);
}

#[test]
fn snapshot_scan_keeps_region_data() {
    let entries: Vec<(Vec<u8>, Vec<u8>)> = vec![
        (vec![0x01, 0x00], b"meta".to_vec()),
        (b"apple".to_vec(), b"1".to_vec()),
        (b"banana".to_vec(), b"2".to_vec()),
        (b"cherry".to_vec(), b"3".to_vec()),
        (b"date".to_vec(), b"4".to_vec()),
    ];
    let got = collect_range(&entries, b"cherry");
    assert_eq!(got, vec![(b"apple".to_vec(), b"1".to_vec()), (b"banana".to_vec(), b"2".to_vec())]);
    let all = collect_range(&entries, b"");
    assert_eq!(all.len(), 4);
    assert_eq!(all[3], (b"date".to_vec(), b"4".to_vec()));
    assert!(collect_range(&vec![], b"x").is_empty());
}

#[test]
fn snapshot_batch_writes_data_then_states() {
    let kvs = vec![(b"k1".to_vec(), b"v1".to_vec()), (b"k2".to_vec(), b"v2".to_vec())];
    let wb = snapshot_batch(&kvs, 7, b"region", Some(b"apply".as_slice()));
    let written = puts(&wb);
    assert_eq!(written.len(), 4);
    assert_eq!(written[0], (b"default_k1".to_vec(), b"v1".to_vec()));
    assert_eq!(written[1], (b"default_k2".to_vec(), b"v2".to_vec()));
    let mut region_key = vec![b'_'];
    region_key.extend(region_state_key(7));
    assert_eq!(written[2], (region_key, b"region".to_vec()));
    let mut apply_key = vec![b'_'];
    apply_key.extend(apply_state_key(7));
    assert_eq!(written[3], (apply_key, b"apply".to_vec()));
    let without_apply = snapshot_batch(&kvs, 7, b"region", None);
    assert_eq!(without_apply.len(), 3);
}

#[test]
fn state_writes_use_their_keys() {
    let mut wb = WriteBatch::new();
    write_region_state(&mut wb, 3, b"s");
    write_apply_state(&mut wb, 3, b"a");
    let written = puts(&wb);
    let mut k1 = vec![b'_'];
    k1.extend(region_state_key(3));
    let mut k2 = vec![b'_'];
    k2.extend(apply_state_key(3));
    assert_eq!(written, vec![(k1, b"s".to_vec()), (k2, b"a".to_vec())]);
}

#[test]
fn raft_log_key_ranges() {
    let keys = raft_log_keys(9, 5, 8);
    assert_eq!(keys, vec![raft_log_key(9, 5), raft_log_key(9, 6), raft_log_key(9, 7)]);
    assert!(raft_log_keys(9, 8, 8).is_empty());
    assert!(raft_log_keys(9, 9, 3).is_empty());
}

#[test]
fn metrics_count_operations() {
    let mut m = Metrics::default();
    m.record("put", true, Some(FinanceKind::Txn.tag()));
    m.record("put", false, Some("account"));
    m.record("put", true, Some("quote"));
    m.record("put", true, Some("other"));
    m.record("get", true, None);
    m.record("del", false, None);
    m.record("connect", true, None);
    m.record_err();
    assert_eq!(
        m,
        Metrics { put: 4, get: 1, del: 1, err: 3, put_txn: 1, put_account: 1, put_quote: 1 }
    );
    assert_eq!(FinanceKind::Account.tag(), "account");
    assert_eq!(FinanceKind::Quote.tag(), "quote");
}

fn event(n: u128) -> Event {
    Event {
        ts: n,
        op: "put".to_string(),
        key: format!("k{n}"),
        ok: true,
        ms: 1,
        err: None,
        kind: None,
        sample: None,
    }
}

#[test]
fn event_log_keeps_newest_two_hundred() {
    let mut log = EventLog::new();
    for n in 0..250u128 {
        log.push(event(n));
    }
    assert_eq!(log.events.len(), EVENT_CAPACITY);
    assert_eq!(log.events[0].ts, 249);
    assert_eq!(log.events[199].ts, 50);
    let mut small = EventLog::new();
    small.push(event(1));
    small.push(event(2));
    assert_eq!(small.events.iter().map(|e| e.ts).collect::<Vec<_>>(), vec![2, 1]);
}

#[test]
fn kv_operations_are_planned() {
    match plan_kv_operation("put", None, "k", Some("v".to_string())) {
        Ok(KvRequest::Put { cf, key, value }) => {
            assert_eq!((cf.as_str(), key, value), ("default", b"k".to_vec(), b"v".to_vec()));
        }
        other => panic!("unexpected {:?}", other),
    }
    match plan_kv_operation("get", Some("write".to_string()), "k", None) {
        Ok(KvRequest::Get { cf, key }) => assert_eq!((cf.as_str(), key), ("write", b"k".to_vec())),
        other => panic!("unexpected {:?}", other),
    }
    match plan_kv_operation("delete", None, "x", None) {
        Ok(KvRequest::Delete { cf, key }) => assert_eq!((cf.as_str(), key), ("default", b"x".to_vec())),
        other => panic!("unexpected {:?}", other),
    }
    let missing = plan_kv_operation("put", None, "k", None).unwrap_err();
    assert!(!missing.success);
    assert_eq!(missing.message, "PUT 操作需要提供 value 参数");
    let unknown = plan_kv_operation("scan", None, "k", None).unwrap_err();
    assert_eq!(unknown.message, "不支持的操作类型: scan");
    assert_eq!(unknown.data, None);
}

#[test]
fn kv_answers() {
    let put = KvRequest::Put { cf: "default".to_string(), key: vec![], value: vec![] };
    let get = KvRequest::Get { cf: "default".to_string(), key: vec![] };
    let del = KvRequest::Delete { cf: "default".to_string(), key: vec![] };
    let ok = kv_response(&put, Ok(None));
    assert!(ok.success);
    assert_eq!(ok.message, "PUT 操作成功");
    let failed = kv_response(&put, Err("timeout".to_string()));
    assert_eq!((failed.success, failed.message.as_str()), (false, "PUT 操作失败: timeout"));
    let absent = kv_response(&get, Ok(None));
    assert_eq!((absent.message.as_str(), absent.data), ("GET 操作成功", Some("null".to_string())));
    let found = kv_response(&get, Ok(Some(b"v1".to_vec())));
    assert_eq!(found.data, Some("v1".to_string()));
    let get_err = kv_response(&get, Err("down".to_string()));
    assert_eq!(get_err.message, "GET 操作失败: down");
    assert_eq!(kv_response(&del, Ok(None)).message, "DELETE 操作成功");
    assert_eq!(kv_response(&del, Err("e".to_string())).message, "DELETE 操作失败: e");
}

#[test]
fn load_run_settings() {
    let (n, p, k) = start_settings(None, None, None);
    assert_eq!((n, p.as_str(), k), (500, "demo:", FinanceKind::Txn));
    let (n, p, k) = start_settings(Some(3), Some("x:".to_string()), Some("quote"));
    assert_eq!((n, p.as_str(), k), (3, "x:", FinanceKind::Quote));
    assert_eq!(start_settings(None, None, Some("account")).2, FinanceKind::Account);
    assert_eq!(start_settings(None, None, Some("bogus")).2, FinanceKind::Txn);
}

fn entry(cf: &str, key: &str, value: &str) -> TierEntry {
    TierEntry { cf: cf.to_string(), key: key.to_string(), value: value.to_string() }
}

#[test]
fn migration_writes_follow_tiers_and_prefix() {
    let hot = vec![entry("default", "user:1", "a"), entry("write", "user:2", "b")];
    let warm = vec![entry("default", "order:1", "c")];
    let cold = vec![entry("lock", "user:3", "d")];
    let all = migration_writes(&hot, &warm, &cold, None);
    let expect: Vec<(String, String)> = vec![
        ("user:1".into(), "a".into()),
        ("write:user:2".into(), "b".into()),
        ("order:1".into(), "c".into()),
        ("lock:user:3".into(), "d".into()),
    ];
    assert_eq!(all, expect);
    let users = migration_writes(&hot, &warm, &cold, Some("user:"));
    assert_eq!(users.len(), 3);
    assert_eq!(users[2], ("lock:user:3".to_string(), "d".to_string()));
    assert!(migration_writes(&hot, &warm, &cold, Some("zzz")).is_empty());
    assert_eq!(redis_url_or_default(None), "redis://127.0.0.1:6379");
    assert_eq!(redis_url_or_default(Some("redis://r:1".to_string())), "redis://r:1");
}

#[test]
fn migration_progress_lifecycle() {
    let mut p = MigrationProgress::new();
    assert_eq!(p.status, "");
    assert!(p.begin());
    assert_eq!(p.status, "running");
    assert!(!p.begin());
    assert_eq!(migration_message(false), "迁移任务已在运行中");
    assert_eq!(migration_message(true), "迁移任务已启动");
    p.total = 3;
    p.count(true);
    p.count(true);
    p.count(false);
    assert_eq!((p.migrated, p.failed), (2, 1));
    p.finish(Err("boom".to_string()));
    assert_eq!((p.status.as_str(), p.error.as_deref()), ("error", Some("boom")));
    assert!(p.begin());
    assert_eq!((p.migrated, p.failed, p.error.clone()), (0, 0, None));
    p.finish(Ok(()));
    assert_eq!(p.status, "completed");
}

#[test]
fn dashboard_views() {
    let s = cluster_summary(42, &vec![1, 2, 3], &vec![10, 20]);
    assert_eq!(
        (s.cluster_id, s.store_count, s.region_count, s.leader_count, s.total_region_size),
        (42, 3, 2, 6, 30)
    );
    let load = StoreLoad {
        store_id: 5,
        region_count: 4,
        leader_count: 2,
        region_size: 100,
        leader_size: 50,
        last_update: 0,
        is_up: true,
    };
    let views = store_load_views(&vec![load]);
    assert_eq!((views[0].store_id, views[0].region_count, views[0].leader_size), (5, 4, 50));
    let disks = system_disks(&vec![
        DiskReading { name: "/".to_string(), total: 100, available: 30 },
        DiskReading { name: "/empty".to_string(), total: 0, available: 0 },
        DiskReading { name: "/odd".to_string(), total: 10, available: 20 },
    ]);
    assert_eq!(disks.len(), 2);
    assert_eq!((disks[0].name.as_str(), disks[0].total, disks[0].used), ("/", 100, 70));
    assert_eq!((disks[1].name.as_str(), disks[1].used), ("/odd", 0));
    assert_eq!(network_totals(&vec![(1, 2), (3, 4)]), (4, 6));
    assert_eq!(network_totals(&vec![(u64::MAX, 0), (5, 1)]), (u64::MAX, 1));
    assert_eq!(network_totals(&vec![]), (0, 0));
}

#[test]
fn ask_split_answers_become_split_commands() {
    let ok = AskSplitResponse {
        header: Some(ResponseHeader { cluster_id: 1, error: None }),
        new_region_id: 9,
        new_peer_ids: vec![10, 11],
    };
    let req = split_admin_request(b"m".to_vec(), ok).unwrap();
    assert_eq!(AdminCmdType::from(req.cmd_type), AdminCmdType::Split);
    let split = req.split.unwrap();
    assert_eq!((split.split_key, split.new_region_id, split.new_peer_ids), (b"m".to_vec(), 9, vec![10, 11]));
    assert!(req.change_peer.is_none() && req.compact_log.is_none() && req.transfer_leader.is_none());
    let no_header = AskSplitResponse { header: None, new_region_id: 3, new_peer_ids: vec![] };
    assert!(split_admin_request(vec![], no_header).is_ok());
    let refused = AskSplitResponse {
        header: Some(ResponseHeader { cluster_id: 1, error: Some(Error::RegionNotFound { region_id: 4 }) }),
        new_region_id: 0,
        new_peer_ids: vec![],
    };
    assert!(matches!(split_admin_request(vec![], refused), Err(Error::RegionNotFound { region_id: 4 })));
}

#[test]
fn admin_payload_and_heartbeat() {
    assert_eq!(admin_request_data(123), b"ADMIN_REQUEST:123".to_vec());
    assert_eq!(admin_request_data(0), b"ADMIN_REQUEST:0".to_vec());
    assert_eq!(admin_request_data(u64::MAX), format!("ADMIN_REQUEST:{}", u64::MAX).into_bytes());
    let task = SchedulerRegionHeartbeatTask {
        region: Region {
            id: 2,
            start_key: vec![],
            end_key: vec![],
            region_epoch: RegionEpoch::new(1, 1),
            peers: vec![Peer { id: 5, store_id: 1 }],
        },
        peer: Peer { id: 5, store_id: 1 },
        pending_peers: vec![],
        approximate_size: None,
    };
    let hb = region_heartbeat_request(RequestHeader { cluster_id: 7 }, task);
    assert_eq!(hb.approximate_size, 0);
    assert_eq!(hb.header.unwrap().cluster_id, 7);
    assert_eq!(hb.region.unwrap().id, 2);
    assert_eq!(hb.leader.unwrap().id, 5);
}

#[test]
fn prefix_cursor_follows_engine_cursor() {
    let mut c = PrefixCursor::new("default_".to_string());
    assert!(!c.valid());
    c.update_current(Some((b"default_k1".to_vec(), Some(b"v1".to_vec()))));
    assert!(c.valid());
    let item = c.item();
    assert_eq!(item.key(), b"k1");
    assert_eq!(item.value(), b"v1".to_vec());
    c.update_current(Some((b"write_k1".to_vec(), Some(b"v".to_vec()))));
    assert!(!c.valid());
    assert_eq!(c.item().value_size(), 0);
    c.update_current(Some((b"default_k2".to_vec(), None)));
    assert!(!c.valid());
    assert_eq!(c.current_key, Some(b"default_k2".to_vec()));
    c.update_current(None);
    assert_eq!((c.current_key.clone(), c.current_value.clone()), (None, None));
}

#[test]
fn server_start_values() {
    assert_eq!(store_id_from_addr("127.0.0.1:20161"), 20161);
    assert_eq!(store_id_from_addr("[::1]:7"), 7);
    assert_eq!(store_id_from_addr("host:+5"), 5);
    assert_eq!(store_id_from_addr("host"), 20160);
    assert_eq!(store_id_from_addr("host:"), 20160);
    assert_eq!(store_id_from_addr("host:99999999999999999999"), 20160);
    assert_eq!(store_id_from_addr("42"), 42);
    let (region, leader) = base_region(3);
    assert_eq!((region.id, leader.id, leader.store_id), (31, 301, 3));
    assert_eq!((region.start_key, region.end_key), (b"a".to_vec(), vec![]));
    assert_eq!((region.region_epoch.conf_ver, region.region_epoch.version), (1, 1));
    assert_eq!(region.peers, vec![leader]);
    let mb = 1024 * 1024;
    assert_eq!(next_region_size(8 * mb), 8 * mb + 512 * 1024);
    assert_eq!(next_region_size(9 * mb), 9 * mb - 256 * 1024);
    assert_eq!(next_region_size(14 * mb), 14 * mb);
    assert_eq!(next_region_size(6 * mb + 100), 6 * mb + 100 + 512 * 1024);
    assert_eq!(next_region_size(1), 6 * mb);
    assert_eq!(next_region_size(101 * mb), 14 * mb);
    let mut size = 8 * mb;
    for _ in 0..100 {
        size = next_region_size(size);
        assert!((6 * mb..=14 * mb).contains(&size));
    }
}

#[test]
fn peer_storage_reads_stored_states() {
    let apply = RaftApplyState { applied_index: 12, truncated_state: RaftTruncatedState { index: 5, term: 2 } };
    let raft = RaftLocalState { hard_state: HardState { term: 3, vote: 1, commit: 11 }, last_index: 15, last_term: 3 };
    assert_eq!(applied_index_of(Some(apply)), 12);
    assert_eq!(applied_index_of(None), 0);
    assert_eq!(truncated_index_of(Some(apply)), 5);
    assert_eq!(truncated_term_of(Some(apply)), 2);
    assert_eq!(truncated_term_of(None), 0);
    assert_eq!(first_index_of(Some(apply)), 6);
    assert_eq!(first_index_of(None), 1);
    assert_eq!(last_index_of(Some(raft), Some(apply)), 15);
    assert_eq!(last_index_of(None, Some(apply)), 12);
    assert_eq!(last_index_of(None, None), 0);
    let region = Region {
        id: 1,
        start_key: vec![],
        end_key: vec![],
        region_epoch: RegionEpoch::new(1, 1),
        peers: vec![Peer { id: 4, store_id: 1 }, Peer { id: 5, store_id: 2 }],
    };
    let (hs, cs) = initial_state_of(Some(raft), &region);
    assert_eq!((hs.term, hs.vote, hs.commit), (3, 1, 11));
    assert_eq!(cs.nodes, vec![4, 5]);
    let (zero, _) = initial_state_of(None, &region);
    assert_eq!((zero.term, zero.vote, zero.commit), (0, 0, 0));
    let snap = snapshot_of(&region, Some(apply));
    assert!(snap.data.is_empty());
    assert_eq!((snap.metadata.index, snap.metadata.term), (12, 2));
    assert_eq!(snap.metadata.conf_state.nodes, vec![4, 5]);
}

fn pd_config() -> PdConfig {
    PdConfig::new(
        77,
        "127.0.0.1:2379".to_string(),
        "127.0.0.1:2380".to_string(),
        PathBuf::from("/tmp/pd"),
        vec!["http://c".to_string()],
        vec!["http://p1".to_string(), "http://p2".to_string()],
    )
}

fn stats(store_id: u64, regions: u64, leaders: u64, used: u64) -> StoreStats {
    StoreStats { store_id, capacity: 100, available: 50, used_size: used, region_count: regions, leader_count: leaders }
}

#[test]
fn pd_state_bookkeeping() {
    let mut pd = PdState::new(pd_config());
    assert_eq!(pd.cluster_id(), 77);
    assert!(!pd.is_bootstrapped);
    assert!(pd.bootstrap());
    assert!(!pd.bootstrap());
    let h = pd.response_ok();
    assert_eq!(h.cluster_id, 77);
    assert!(h.error.is_none());
    assert_eq!(pd.handle_store_heartbeat(None).unwrap_err(), PdError::MissingStats);
    let resp = pd.handle_store_heartbeat(Some(stats(1, 3, 2, 900))).unwrap();
    assert_eq!(resp.header.unwrap().cluster_id, 77);
    pd.handle_store_heartbeat(Some(stats(2, 1, 0, 10))).unwrap();
    pd.handle_store_heartbeat(Some(stats(1, 4, 1, 1000))).unwrap();
    let loads = pd.store_loads_snapshot();
    assert_eq!(loads.len(), 2);
    assert_eq!(
        (loads[0].store_id, loads[0].region_count, loads[0].leader_count, loads[0].region_size, loads[0].leader_size),
        (1, 4, 1, 1000, 1)
    );
    assert!(loads[1].is_up);
    let split = pd.ask_split(Some(Region {
        id: 1,
        start_key: vec![],
        end_key: vec![],
        region_epoch: RegionEpoch::new(1, 1),
        peers: vec![],
    }))
    .unwrap();
    assert_eq!((split.new_region_id, split.new_peer_ids.clone()), (1001, vec![1002]));
    assert_eq!(pd.ask_split(None).unwrap_err(), PdError::MissingRegion);
    let again = pd.ask_split(Some(Region {
        id: 1,
        start_key: vec![],
        end_key: vec![],
        region_epoch: RegionEpoch::new(1, 1),
        peers: vec![],
    }))
    .unwrap();
    assert_eq!(again.new_region_id, 1003);
    let members = pd.get_members();
    assert_eq!(members.members.len(), 1);
    let leader = members.leader.unwrap();
    assert_eq!(leader.member_id, 77);
    assert_eq!(leader.client_urls, vec!["http://c".to_string()]);
    assert_eq!(leader.peer_urls.len(), 2);
}

fn ranged(id: u64, start: &[u8], end: &[u8]) -> Region {
    Region { id, start_key: start.to_vec(), end_key: end.to_vec(), region_epoch: RegionEpoch::new(1, 1), peers: vec![] }
}

#[test]
fn pd_finds_region_for_key() {
    let regions = vec![ranged(1, b"m", b""), ranged(2, b"", b"c"), ranged(3, b"c", b"m")];
    assert_eq!(region_for_key(&regions, b"a"), Some(1));
    assert_eq!(region_for_key(&regions, b"c"), Some(2));
    assert_eq!(region_for_key(&regions, b"m"), Some(0));
    assert_eq!(region_for_key(&regions, b"zz"), Some(0));
    assert_eq!(region_for_key(&vec![ranged(1, b"b", b"d")], b"a"), None);
    assert_eq!(region_for_key(&vec![], b"a"), None);
}

fn state_key(id: u64) -> Vec<u8> {
    let mut k = vec![b'_'];
    k.extend(region_state_key(id));
    k
}

#[test]
fn recovery_scans_region_states() {
    let on = |id: u64, store: u64| Region {
        id,
        start_key: vec![],
        end_key: vec![],
        region_epoch: RegionEpoch::new(1, 1),
        peers: vec![Peer { id: id * 10, store_id: store }],
    };
    let listing: Vec<(Vec<u8>, Option<(PeerState, Region)>)> = vec![
        (state_key(1), Some((PeerState::Normal, on(1, 1)))),
        (vec![b'_', 1, 0], None),
        (state_key(2), Some((PeerState::Tombstone, on(2, 1)))),
        (state_key(3), Some((PeerState::Normal, on(3, 2)))),
        (state_key(4), None),
        (state_key(5), Some((PeerState::Normal, on(5, 1)))),
        (b"data".to_vec(), None),
        (state_key(6), Some((PeerState::Normal, on(6, 1)))),
    ];
    let got = recover_from_listing(&listing, 1);
    assert_eq!(got.iter().map(|r| r.id).collect::<Vec<_>>(), vec![1, 5]);
    assert!(recover_from_listing(&vec![], 1).is_empty());
}

#[test]
fn finance_record_keys() {
    assert_eq!(finance_key(FinanceKind::Txn, 7, "demo:", "AAPL"), "demo:txn:T00000007");
    assert_eq!(finance_key(FinanceKind::Txn, 0, "", ""), "txn:T00000000");
    assert_eq!(finance_key(FinanceKind::Account, 123456789, "p/", ""), "p/acct:A123456789");
    assert_eq!(finance_key(FinanceKind::Account, 42, "demo:", ""), format!("demo:acct:A{:08}", 42));
    assert_eq!(finance_key(FinanceKind::Quote, 9, "demo:", "NVDA"), "demo:quote:NVDA");
    assert_eq!(finance_key(FinanceKind::Txn, u32::MAX, "", ""), format!("txn:T{:08}", u32::MAX));
}
