use vstd::prelude::*;

mod clock;
pub mod raft;
pub mod engine_util;
pub mod proto;
pub mod raftstore;
pub mod config;
pub mod pd;
pub mod cli;
pub mod ingest;
pub mod launch;

verus! {
} // verus!
