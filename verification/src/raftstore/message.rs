use vstd::prelude::*;
use crate::proto::metapb::RegionEpoch;

verus! {

/// Kind of a message sent to a region's peer.
#[derive(Debug, Clone, Copy, PartialEq, Eq, Structural)]
pub enum MsgType {
    RaftMessage,
    RaftCmd,
    Tick,
    SplitRegion,
    RegionApproximateSize,
    Start,
    Stop,
}

/// Asks a region to split at `split_key`, if its epoch is still
/// `region_epoch`.
#[derive(Debug)]
pub struct MsgSplitRegion {
    pub region_epoch: RegionEpoch,
    pub split_key: Vec<u8>,
}

} // verus!
