use vstd::prelude::*;
use crate::engine_util::util::{bytes_less, bytes_to_vec, exceed_end_key, lex_lt};
use crate::proto::metapb::{Peer, Region, RegionEpoch};

verus! {

/// The id that stands for "no id".
pub const INVALID_ID: u64 = 0;

/// `key` lies in the range `[start, end)`, where an empty bound is open.
pub open spec fn in_key_range(key: Seq<u8>, start: Seq<u8>, end: Seq<u8>) -> bool {
    &&& (start.len() == 0 || !lex_lt(key, start))
    &&& (end.len() == 0 || lex_lt(key, end))
}

/// The first peer of `region` on store `store_id`.
pub fn find_peer(region: &Region, store_id: u64) -> (r: Option<&Peer>)
    ensures
        match r {
            Some(p) => exists|i: int|
                0 <= i < region.peers@.len() && region.peers@[i] == *p && p.store_id == store_id
                    && forall|j: int| 0 <= j < i ==> region.peers@[j].store_id != store_id,
            None => forall|j: int|
                0 <= j < region.peers@.len() ==> region.peers@[j].store_id != store_id,
        },
{
    let mut i: usize = 0;
    while i < region.peers.len()
        invariant
            0 <= i <= region.peers@.len(),
            forall|j: int| 0 <= j < i ==> region.peers@[j].store_id != store_id,
        decreases region.peers@.len() - i,
    {
        if region.peers[i].store_id == store_id {
            return Some(&region.peers[i]);
        }
        i += 1;
    }
    None
}

/// Whether `key` lies within the key range of `region`.
pub fn key_in_region(key: &[u8], region: &Region) -> (r: bool)
    ensures
        r == in_key_range(key@, region.start_key@, region.end_key@),
{
    if region.start_key.len() > 0 && bytes_less(key, region.start_key.as_slice()) {
        return false;
    }
    if region.end_key.len() > 0 && exceed_end_key(key, region.end_key.as_slice()) {
        return false;
    }
    true
}

/// Whether `epoch` is older than `other`: a lower version, or the same
/// version and a lower configuration version.
pub fn is_epoch_stale(epoch: &RegionEpoch, other: &RegionEpoch) -> (r: bool)
    ensures
        r == (epoch.version < other.version || (epoch.version == other.version && epoch.conf_ver
            < other.conf_ver)),
{
    epoch.version < other.version || (epoch.version == other.version && epoch.conf_ver < other.conf_ver)
}

/// A copy of `data`.
pub fn safe_copy(data: &[u8]) -> (r: Vec<u8>)
    ensures
        r@ == data@,
{
    bytes_to_vec(data)
}

} // verus!
