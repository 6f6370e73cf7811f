pub mod metapb;
pub mod eraftpb;
pub mod errorpb;
pub mod kvrpcpb;
pub mod raft_cmdpb;
pub mod schedulerpb;
