use vstd::prelude::*;
use crate::proto::eraftpb::ConfChangeType;
use crate::proto::errorpb::Error;
use crate::proto::metapb::{Peer, Region, RegionEpoch};

verus! {

/// Kind of an administrative command.
#[derive(Debug, Clone, Copy, PartialEq, Eq, Structural)]
pub enum AdminCmdType {
    InvalidAdmin,
    ChangePeer,
    CompactLog,
    TransferLeader,
    Split,
}

impl AdminCmdType {
    pub open spec fn spec_from(value: i32) -> AdminCmdType {
        if value == 1 {
            AdminCmdType::ChangePeer
        } else if value == 3 {
            AdminCmdType::CompactLog
        } else if value == 4 {
            AdminCmdType::TransferLeader
        } else if value == 10 {
            AdminCmdType::Split
        } else {
            AdminCmdType::InvalidAdmin
        }
    }

    pub open spec fn spec_code(self) -> i32 {
        match self {
            AdminCmdType::InvalidAdmin => 0,
            AdminCmdType::ChangePeer => 1,
            AdminCmdType::CompactLog => 3,
            AdminCmdType::TransferLeader => 4,
            AdminCmdType::Split => 10,
        }
    }

    /// The command of wire code `value`; unknown codes are invalid.
    pub fn from(value: i32) -> (r: Self)
        ensures
            r == Self::spec_from(value),
    {
        match value {
            1 => AdminCmdType::ChangePeer,
            3 => AdminCmdType::CompactLog,
            4 => AdminCmdType::TransferLeader,
            10 => AdminCmdType::Split,
            _ => AdminCmdType::InvalidAdmin,
        }
    }

    /// The wire code of the command.
    pub fn code(&self) -> (r: i32)
        ensures
            r == self.spec_code(),
    {
        match self {
            AdminCmdType::InvalidAdmin => 0,
            AdminCmdType::ChangePeer => 1,
            AdminCmdType::CompactLog => 3,
            AdminCmdType::TransferLeader => 4,
            AdminCmdType::Split => 10,
        }
    }
}

#[derive(Debug)]
pub struct ChangePeerRequest {
    pub change_type: ConfChangeType,
    pub peer: Option<Peer>,
}

#[derive(Debug)]
pub struct ChangePeerResponse {
    pub region: Option<Region>,
}

#[derive(Debug)]
pub struct TransferLeaderRequest {
    pub peer: Option<Peer>,
}

#[derive(Debug)]
pub struct TransferLeaderResponse {}

/// Splits a region at `split_key`; the upper half becomes region
/// `new_region_id`.
#[derive(Debug)]
pub struct SplitRequest {
    pub split_key: Vec<u8>,
    pub new_region_id: u64,
    pub new_peer_ids: Vec<u64>,
}

#[derive(Debug)]
pub struct SplitResponse {
    pub regions: Vec<Region>,
}

#[derive(Debug)]
pub struct CompactLogRequest {
    pub compact_index: u64,
    pub compact_term: u64,
}

#[derive(Debug)]
pub struct CompactLogResponse {}

#[derive(Debug)]
pub struct AdminRequest {
    /// Wire code of an `AdminCmdType`.
    pub cmd_type: i32,
    pub change_peer: Option<ChangePeerRequest>,
    pub compact_log: Option<CompactLogRequest>,
    pub transfer_leader: Option<TransferLeaderRequest>,
    pub split: Option<SplitRequest>,
}

#[derive(Debug)]
pub struct AdminResponse {
    /// Wire code of an `AdminCmdType`.
    pub cmd_type: i32,
    pub change_peer: Option<ChangePeerResponse>,
    pub compact_log: Option<CompactLogResponse>,
    pub transfer_leader: Option<TransferLeaderResponse>,
    pub split: Option<SplitResponse>,
}

#[derive(Debug)]
pub struct RaftRequestHeader {
    pub region_id: u64,
    pub peer: Option<Peer>,
    pub region_epoch: Option<RegionEpoch>,
    pub term: u64,
}

#[derive(Debug)]
pub struct RaftResponseHeader {
    pub error: Option<Error>,
    pub uuid: Vec<u8>,
    pub current_term: u64,
}

#[derive(Debug)]
pub struct RaftCmdRequest {
    pub header: Option<RaftRequestHeader>,
    pub requests: Vec<Request>,
    pub admin_request: Option<AdminRequest>,
}

#[derive(Debug)]
pub struct RaftCmdResponse {
    pub header: Option<RaftResponseHeader>,
    pub responses: Vec<Response>,
    pub admin_response: Option<AdminResponse>,
}

#[derive(Debug)]
pub struct Request {
    pub cmd_type: i32,
    pub data: Vec<u8>,
}

#[derive(Debug)]
pub struct Response {
    pub cmd_type: i32,
    pub data: Vec<u8>,
}

} // verus!
