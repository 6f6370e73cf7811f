pub mod types;
pub mod progress;
pub mod log;
pub mod raft;
pub mod rawnode;
pub mod storage;
