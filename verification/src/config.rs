use vstd::prelude::*;

verus! {

/// One kibibyte.
pub const KB: u64 = 1024;
/// One mebibyte.
pub const MB: u64 = 1048576;

/// Why a configuration is refused.
#[derive(Debug, Clone, Copy, PartialEq, Eq, Structural)]
pub enum ConfigError {
    /// The heartbeat tick must be greater than 0.
    HeartbeatTickNotPositive,
    /// The election timeout must be longer than the heartbeat.
    ElectionTickNotGreater,
}

/// Settings of a store. Intervals are in milliseconds.
#[derive(Debug)]
pub struct Config {
    pub store_addr: String,
    pub raft: bool,
    pub scheduler_addr: String,
    pub log_level: String,
    pub db_path: String,
    pub pd_endpoints: Vec<String>,
    pub raft_base_tick_interval: u64,
    pub raft_heartbeat_ticks: i32,
    pub raft_election_timeout_ticks: i32,
    pub raft_log_gc_tick_interval: u64,
    pub raft_log_gc_count_limit: u64,
    pub split_region_check_tick_interval: u64,
    pub scheduler_heartbeat_tick_interval: u64,
    pub scheduler_store_heartbeat_tick_interval: u64,
    pub region_max_size: u64,
    pub region_split_size: u64,
}

impl Config {
    /// Checks the Raft tick settings.
    pub fn validate(&self) -> (r: Result<(), ConfigError>)
        ensures
            self.raft_heartbeat_ticks <= 0 ==> r == Err::<(), ConfigError>(
                ConfigError::HeartbeatTickNotPositive,
            ),
            self.raft_heartbeat_ticks > 0 && self.raft_election_timeout_ticks
                <= self.raft_heartbeat_ticks ==> r == Err::<(), ConfigError>(
                ConfigError::ElectionTickNotGreater,
            ),
            r is Ok <==> (self.raft_heartbeat_ticks > 0 && self.raft_election_timeout_ticks
                > self.raft_heartbeat_ticks),
    {
        if self.raft_heartbeat_ticks <= 0 {
            return Err(ConfigError::HeartbeatTickNotPositive);
        }
        if self.raft_election_timeout_ticks <= self.raft_heartbeat_ticks {
            return Err(ConfigError::ElectionTickNotGreater);
        }
        Ok(())
    }

    /// The settings of a production store, logging at `log_level`.
    pub fn new_default(log_level: String) -> (r: Self)
        ensures
            r.log_level@ == log_level@,
            r.raft,
            r.raft_base_tick_interval == 1000,
            r.raft_heartbeat_ticks == 2,
            r.raft_election_timeout_ticks == 10,
            r.raft_log_gc_tick_interval == 10000,
            r.raft_log_gc_count_limit == 128000,
            r.split_region_check_tick_interval == 10000,
            r.scheduler_heartbeat_tick_interval == 10000,
            r.scheduler_store_heartbeat_tick_interval == 10000,
            r.region_max_size == 144 * MB,
            r.region_split_size == 96 * MB,
            r.pd_endpoints@.len() == 1,
            r.store_addr@ == "127.0.0.1:20160"@,
            r.scheduler_addr@ == "127.0.0.1:2379"@,
            r.db_path@ == "/tmp/aegisdb"@,
            r.pd_endpoints@[0]@ == "http://127.0.0.1:2379"@,
    {
        Config {
            store_addr: "127.0.0.1:20160".to_string(),
            raft: true,
            scheduler_addr: "127.0.0.1:2379".to_string(),
            log_level,
            db_path: "/tmp/aegisdb".to_string(),
            pd_endpoints: vec!["http://127.0.0.1:2379".to_string()],
            raft_base_tick_interval: 1000,
            raft_heartbeat_ticks: 2,
            raft_election_timeout_ticks: 10,
            raft_log_gc_tick_interval: 10000,
            raft_log_gc_count_limit: 128000,
            split_region_check_tick_interval: 10000,
            scheduler_heartbeat_tick_interval: 10000,
            scheduler_store_heartbeat_tick_interval: 10000,
            region_max_size: 144 * MB,
            region_split_size: 96 * MB,
        }
    }

    /// The settings of a store under test: short intervals, logging at
    /// `log_level`.
    pub fn new_test(log_level: String) -> (r: Self)
        ensures
            r.log_level@ == log_level@,
            r.raft,
            r.raft_base_tick_interval == 50,
            r.raft_heartbeat_ticks == 2,
            r.raft_election_timeout_ticks == 10,
            r.raft_log_gc_tick_interval == 50,
            r.raft_log_gc_count_limit == 128000,
            r.split_region_check_tick_interval == 100,
            r.scheduler_heartbeat_tick_interval == 100,
            r.scheduler_store_heartbeat_tick_interval == 500,
            r.region_max_size == 144 * MB,
            r.region_split_size == 96 * MB,
            r.pd_endpoints@.len() == 1,
            r.store_addr@ == "127.0.0.1:20160"@,
            r.scheduler_addr@ == "127.0.0.1:2379"@,
            r.db_path@ == "/tmp/aegisdb_test"@,
            r.pd_endpoints@[0]@ == "http://127.0.0.1:2379"@,
    {
        Config {
            store_addr: "127.0.0.1:20160".to_string(),
            raft: true,
            scheduler_addr: "127.0.0.1:2379".to_string(),
            log_level,
            db_path: "/tmp/aegisdb_test".to_string(),
            pd_endpoints: vec!["http://127.0.0.1:2379".to_string()],
            raft_base_tick_interval: 50,
            raft_heartbeat_ticks: 2,
            raft_election_timeout_ticks: 10,
            raft_log_gc_tick_interval: 50,
            raft_log_gc_count_limit: 128000,
            split_region_check_tick_interval: 100,
            scheduler_heartbeat_tick_interval: 100,
            scheduler_store_heartbeat_tick_interval: 500,
            region_max_size: 144 * MB,
            region_split_size: 96 * MB,
        }
    }
}

} // verus!
