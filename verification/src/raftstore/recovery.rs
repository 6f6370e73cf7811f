use vstd::prelude::*;
use crate::proto::metapb::{Region, RegionView};
use crate::engine_util::write_batch::{BatchOp, WriteBatchView};
use crate::raftstore::meta::keys::{
    be_bytes, decode_region_meta_key, from_be_bytes, lemma_region_state_key_decodes, REGION_META_PREFIX,
    REGION_STATE_SUFFIX,
};
use crate::raftstore::meta::values::PeerState;

verus! {

/// What recovery does with a stored key met while scanning from the
/// region metadata keys (stored with the empty column family, so behind a
/// `_`).
#[derive(Debug, Clone, Copy, PartialEq, Eq, Structural)]
pub enum RecoveryKey {
    /// The key lies past the metadata: the scan ends.
    Stop,
    /// The key is not a region's state: it is passed over.
    Skip,
    /// The key holds the state of this region.
    Region(u64),
}

/// How recovery treats the stored key `key`.
pub open spec fn spec_classify_recovery_key(key: Seq<u8>) -> RecoveryKey {
    if key.len() < 2 || key[0] != 95u8 || key[1] != REGION_META_PREFIX {
        if key.len() > 0 && key[0] != 95u8 {
            RecoveryKey::Stop
        } else {
            RecoveryKey::Skip
        }
    } else if key.len() < 11 {
        RecoveryKey::Skip
    } else {
        RecoveryKey::Region(from_be_bytes(key.subrange(2, 10)))
    }
}

/// How recovery treats the stored key `key`.
pub fn classify_recovery_key(key: &[u8]) -> (r: RecoveryKey)
    ensures
        r == spec_classify_recovery_key(key@),
{
    if key.len() < 2 || key[0] != 95u8 || key[1] != REGION_META_PREFIX {
        if key.len() > 0 && key[0] != 95u8 {
            return RecoveryKey::Stop;
        }
        return RecoveryKey::Skip;
    }
    let actual_key = vstd::slice::slice_subrange(key, 1, key.len());
    match decode_region_meta_key(actual_key) {
        Ok((region_id, _)) => {
            assert(actual_key@.subrange(1, 9) =~= key@.subrange(2, 10));
            RecoveryKey::Region(region_id)
        },
        Err(_) => RecoveryKey::Skip,
    }
}

/// Whether a region read back from storage is recovered on store
/// `store_id`: its peer there is live and the region has a peer on the
/// store.
pub fn keeps_recovered_region(state: PeerState, region: &Region, store_id: u64) -> (r: bool)
    ensures
        r == (state != PeerState::Tombstone && exists|i: int|
            0 <= i < region.peers@.len() && #[trigger] region.peers@[i].store_id == store_id),
{
    if state == PeerState::Tombstone {
        return false;
    }
    let mut i: usize = 0;
    while i < region.peers.len()
        invariant
            0 <= i <= region.peers@.len(),
            state != PeerState::Tombstone,
            forall|j: int| 0 <= j < i ==> #[trigger] region.peers@[j].store_id != store_id,
        decreases region.peers@.len() - i,
    {
        if region.peers[i].store_id == store_id {
            assert(region.peers@[i as int].store_id == store_id);
            return true;
        }
        i += 1;
    }
    false
}

/// `region` has a peer on store `store_id`.
pub open spec fn has_peer_on(region: RegionView, store_id: u64) -> bool {
    exists|i: int| 0 <= i < region.peers.len() && #[trigger] region.peers[i].store_id == store_id
}

/// The regions that recovery brings back from `listing`: the stored keys
/// from the first region metadata key on, in key order, each with the
/// state stored for the region it names (`None` when there is none). The
/// scan ends at the first key past the metadata; a region is kept when its
/// peer is live and it has a peer on store `store_id`.
pub open spec fn recovered(listing: Seq<(Seq<u8>, Option<(PeerState, RegionView)>)>, store_id: u64) -> Seq<
    RegionView,
>
    decreases listing.len(),
{
    if listing.len() == 0 {
        Seq::empty()
    } else {
        let rest = recovered(listing.drop_first(), store_id);
        match spec_classify_recovery_key(listing[0].0) {
            RecoveryKey::Stop => Seq::empty(),
            RecoveryKey::Skip => rest,
            RecoveryKey::Region(_) => match listing[0].1 {
                Some((state, region)) => if state != PeerState::Tombstone && has_peer_on(region, store_id) {
                    seq![region] + rest
                } else {
                    rest
                },
                None => rest,
            },
        }
    }
}

/// A listing as byte strings and region values.
pub open spec fn listing_view(listing: Seq<(Vec<u8>, Option<(PeerState, Region)>)>) -> Seq<
    (Seq<u8>, Option<(PeerState, RegionView)>),
> {
    listing.map_values(
        |e: (Vec<u8>, Option<(PeerState, Region)>)|
            (
                e.0@,
                match e.1 {
                    Some((st, r)) => Some((st, r@)),
                    None => None,
                },
            ),
    )
}

/// The regions a store recovers on start: see `recovered`.
pub fn recover_from_listing(listing: &Vec<(Vec<u8>, Option<(PeerState, Region)>)>, store_id: u64) -> (r:
    Vec<Region>)
    ensures
        r@.map_values(|region: Region| region@) == recovered(listing_view(listing@), store_id),
{
    let ghost all = listing_view(listing@);
    let mut out: Vec<Region> = Vec::new();
    let mut i: usize = 0;
    proof {
        assert(all.skip(0) =~= all);
        assert(out@.map_values(|region: Region| region@) + recovered(all, store_id) =~= recovered(
            all,
            store_id,
        ));
    }
    while i < listing.len()
        invariant
            0 <= i <= listing@.len(),
            all == listing_view(listing@),
            recovered(all, store_id) == out@.map_values(|region: Region| region@) + recovered(
                all.skip(i as int),
                store_id,
            ),
        decreases listing@.len() - i,
    {
        let ghost rest = all.skip(i as int);
        let ghost done = out@.map_values(|region: Region| region@);
        proof {
            assert(rest.drop_first() =~= all.skip(i + 1));
            assert(rest[0] == all[i as int]);
        }
        let entry = &listing[i];
        proof {
            assert(rest[0].0 == entry.0@);
            assert(rest[0].1 == match entry.1 {
                Some((st, r)) => Some((st, r@)),
                None => None::<(PeerState, RegionView)>,
            });
        }
        match classify_recovery_key(entry.0.as_slice()) {
            RecoveryKey::Stop => {
                proof {
                    assert(done + Seq::<RegionView>::empty() =~= done);
                }
                return out;
            },
            RecoveryKey::Skip => {
                proof {
                    assert(recovered(rest, store_id) == recovered(rest.drop_first(), store_id));
                }
            },
            RecoveryKey::Region(_) => {
                if let Some((state, region)) = &entry.1 {
                    let keep = keeps_recovered_region(*state, region, store_id);
                    proof {
                        assert(keep == (*state != PeerState::Tombstone && has_peer_on(region@, store_id)));
                    }
                    if keep {
                        let copy = region.clone();
                        out.push(copy);
                        proof {
                            assert(out@.map_values(|region: Region| region@) =~= done.push(region@));
                            assert(done + (seq![region@] + recovered(rest.drop_first(), store_id))
                                =~= done.push(region@) + recovered(rest.drop_first(), store_id));
                        }
                    }
                }
            },
        }
        i += 1;
    }
    proof {
        assert(all.skip(i as int).len() == 0);
        assert(out@.map_values(|region: Region| region@) + Seq::<RegionView>::empty()
            =~= out@.map_values(|region: Region| region@));
    }
    out
}

/// What `write_region_state` adds to a batch is found again by recovery:
/// the stored key names the region it was written for, and the value is
/// the state that was written.
pub proof fn lemma_recovery_finds_written_state(w: WriteBatchView, region_id: u64, state: Seq<u8>)
    ensures
        match w.put(
            Seq::empty(),
            seq![REGION_META_PREFIX] + be_bytes(region_id) + seq![REGION_STATE_SUFFIX],
            state,
        ).entries.last() {
            BatchOp::Put { key, value } => spec_classify_recovery_key(key) == RecoveryKey::Region(
                region_id,
            ) && value == state,
            BatchOp::Delete { .. } => false,
        },
{
    let k = seq![REGION_META_PREFIX] + be_bytes(region_id) + seq![REGION_STATE_SUFFIX];
    lemma_region_state_key_decodes(region_id);
    let stored = Seq::<u8>::empty() + seq![95u8] + k;
    assert(stored.subrange(2, 10) =~= k.subrange(1, 9));
    assert(stored[0] == 95u8);
    assert(stored[1] == k[0]);
}

} // verus!
