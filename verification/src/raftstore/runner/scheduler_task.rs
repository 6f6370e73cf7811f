use vstd::prelude::*;
use crate::proto::metapb::{Peer, Region};
use crate::proto::errorpb::Error;
use crate::proto::raft_cmdpb::{AdminCmdType, AdminRequest, SplitRequest};
use crate::proto::schedulerpb::{AskSplitResponse, RegionHeartbeatRequest, RequestHeader, StoreStats};

verus! {

/// A region heartbeat to report to the scheduler.
#[derive(Debug)]
pub struct SchedulerRegionHeartbeatTask {
    pub region: Region,
    pub peer: Peer,
    pub pending_peers: Vec<Peer>,
    pub approximate_size: Option<u64>,
}

/// A store heartbeat to report to the scheduler.
#[derive(Debug)]
pub struct SchedulerStoreHeartbeatTask {
    pub stats: StoreStats,
}

/// The split command for an answer of the scheduler to a request to split
/// at `split_key`: the error the answer reports, or a split that gives the
/// new region the id and peer ids the scheduler allocated.
pub fn split_admin_request(split_key: Vec<u8>, resp: AskSplitResponse) -> (r: Result<AdminRequest, Error>)
    ensures
        (resp.header matches Some(h) && h.error is Some) ==> r == Err::<AdminRequest, Error>(
            resp.header->Some_0.error->Some_0,
        ),
        !(resp.header matches Some(h) && h.error is Some) ==> r == Ok::<AdminRequest, Error>(
            AdminRequest {
                cmd_type: AdminCmdType::Split.spec_code(),
                split: Some(
                    SplitRequest {
                        split_key,
                        new_region_id: resp.new_region_id,
                        new_peer_ids: resp.new_peer_ids,
                    },
                ),
                change_peer: None,
                compact_log: None,
                transfer_leader: None,
            },
        ),
{
    if let Some(header) = resp.header {
        if let Some(err) = header.error {
            return Err(err);
        }
    }
    Ok(AdminRequest {
        cmd_type: AdminCmdType::Split.code(),
        split: Some(
            SplitRequest {
                split_key,
                new_region_id: resp.new_region_id,
                new_peer_ids: resp.new_peer_ids,
            },
        ),
        change_peer: None,
        compact_log: None,
        transfer_leader: None,
    })
}

/// The decimal digits of `n`, as ASCII bytes.
pub open spec fn decimal_bytes(n: u64) -> Seq<u8>
    decreases n,
{
    if n < 10 {
        seq![(48 + n) as u8]
    } else {
        decimal_bytes(n / 10).push((48 + n % 10) as u8)
    }
}

fn push_decimal(out: &mut Vec<u8>, n: u64)
    ensures
        final(out)@ == old(out)@ + decimal_bytes(n),
    decreases n,
{
    if n < 10 {
        out.push(48u8 + n as u8);
        proof {
            assert(final(out)@ =~= old(out)@ + decimal_bytes(n));
        }
    } else {
        push_decimal(out, n / 10);
        out.push(48u8 + (n % 10) as u8);
        proof {
            assert(final(out)@ =~= old(out)@ + decimal_bytes(n));
        }
    }
}

/// The text `ADMIN_REQUEST:` as bytes.
pub open spec fn admin_request_tag() -> Seq<u8> {
    seq![65u8, 68u8, 77u8, 73u8, 78u8, 95u8, 82u8, 69u8, 81u8, 85u8, 69u8, 83u8, 84u8, 58u8]
}

/// The payload of the command message that carries an administrative
/// request to region `region_id`: `ADMIN_REQUEST:` and the region id in
/// decimal.
pub fn admin_request_data(region_id: u64) -> (r: Vec<u8>)
    ensures
        r@ == admin_request_tag() + decimal_bytes(region_id),
{
    let mut out: Vec<u8> = vec![65u8, 68u8, 77u8, 73u8, 78u8, 95u8, 82u8, 69u8, 81u8, 85u8, 69u8, 83u8, 84u8, 58u8];
    proof {
        assert(out@ =~= admin_request_tag());
    }
    push_decimal(&mut out, region_id);
    out
}

/// The heartbeat the scheduler gets for `task`, under `header`: the region,
/// its leader, the pending peers and the approximate size (zero when
/// unknown).
pub fn region_heartbeat_request(header: RequestHeader, task: SchedulerRegionHeartbeatTask) -> (r:
    RegionHeartbeatRequest)
    ensures
        r == (RegionHeartbeatRequest {
            header: Some(header),
            region: Some(task.region),
            leader: Some(task.peer),
            pending_peers: task.pending_peers,
            approximate_size: match task.approximate_size {
                Some(n) => n,
                None => 0,
            },
        }),
{
    let size = match task.approximate_size {
        Some(n) => n,
        None => 0,
    };
    RegionHeartbeatRequest {
        header: Some(header),
        region: Some(task.region),
        leader: Some(task.peer),
        pending_peers: task.pending_peers,
        approximate_size: size,
    }
}

} // verus!
