use vstd::prelude::*;
use crate::cli::{chars_of, parse_unsigned_chars, unsigned_value};
use crate::config::MB;
use crate::proto::metapb::{Peer, Region, RegionEpoch};

verus! {

/// The text after the last `:` of `s`; all of `s` when it has none.
pub open spec fn last_segment(s: Seq<char>) -> Seq<char>
    decreases s.len(),
{
    if s.len() == 0 {
        s
    } else if s.last() == ':' {
        Seq::empty()
    } else {
        last_segment(s.drop_last()).push(s.last())
    }
}

proof fn lemma_last_segment_from(s: Seq<char>, j: int)
    requires
        0 <= j <= s.len(),
        j == 0 || s[j - 1] == ':',
        forall|k: int| j <= k < s.len() ==> s[k] != ':',
    ensures
        last_segment(s) == s.skip(j),
    decreases s.len(),
{
    if s.len() == j {
        assert(s.skip(j) =~= Seq::<char>::empty());
        if j > 0 {
            assert(s.last() == ':');
        }
    } else {
        let p = s.drop_last();
        lemma_last_segment_from(p, j);
        assert(s.skip(j) =~= p.skip(j).push(s.last()));
    }
}

/// The store id a server takes when none is given: its usual port.
pub const DEFAULT_STORE_ID: u64 = 20160;

/// The store id of a server listening on `addr`: the port, that is the
/// number after the last `:`, or `DEFAULT_STORE_ID` when that is not a
/// number.
pub fn store_id_from_addr(addr: &str) -> (r: u64)
    ensures
        r == match unsigned_value(last_segment(addr@), u64::MAX as nat) {
            Some(v) => v as u64,
            None => DEFAULT_STORE_ID,
        },
{
    let cs = chars_of(addr);
    let mut j: usize = cs.len();
    while j > 0 && cs[j - 1] != ':'
        invariant
            cs@ == addr@,
            0 <= j <= cs@.len(),
            forall|k: int| j <= k < cs@.len() ==> cs@[k] != ':',
        decreases j,
    {
        j -= 1;
    }
    proof {
        lemma_last_segment_from(cs@, j as int);
    }
    match parse_unsigned_chars(&cs, j, u64::MAX) {
        Some(v) => v,
        None => DEFAULT_STORE_ID,
    }
}

/// The approximate size a server first reports for its base region.
pub const BASE_REGION_SIZE: u64 = 8 * MB;
/// The least approximate size the base region reports.
pub const MIN_REPORTED_SIZE: u64 = 6 * MB;
/// The greatest approximate size the base region reports.
pub const MAX_REPORTED_SIZE: u64 = 14 * MB;

/// The region a server of store `store_id` starts with: id
/// `10 * store_id + 1`, keys from `a` on, epoch (1, 1), and one peer, the
/// leader, with id `100 * store_id + 1` on the store itself. Returns the
/// region and its leader.
pub fn base_region(store_id: u64) -> (r: (Region, Peer))
    requires
        store_id * 100 + 1 <= u64::MAX,
    ensures
        r.1 == (Peer { id: (store_id * 100 + 1) as u64, store_id }),
        r.0.id == store_id * 10 + 1,
        r.0.start_key@ == seq![97u8],
        r.0.end_key@.len() == 0,
        r.0.region_epoch == (RegionEpoch { conf_ver: 1, version: 1 }),
        r.0.peers@ == seq![r.1],
{
    let leader = Peer { id: store_id * 100 + 1, store_id };
    let region = Region {
        id: store_id * 10 + 1,
        start_key: vec![97u8],
        end_key: Vec::new(),
        region_epoch: RegionEpoch::new(1, 1),
        peers: vec![leader],
    };
    (region, leader)
}

/// The approximate size reported after `size`: up half a mebibyte when
/// `size` holds an even number of whole mebibytes, else down a quarter of
/// one, kept within `MIN_REPORTED_SIZE..=MAX_REPORTED_SIZE`.
pub open spec fn jittered_size(size: u64) -> int {
    let moved = if (size / MB) % 2 == 0 {
        size + 524288
    } else {
        size - 262144
    };
    if moved < MIN_REPORTED_SIZE {
        MIN_REPORTED_SIZE as int
    } else if moved > MAX_REPORTED_SIZE {
        MAX_REPORTED_SIZE as int
    } else {
        moved
    }
}

/// The next approximate size the base region reports; it always lies
/// within `MIN_REPORTED_SIZE..=MAX_REPORTED_SIZE`.
pub fn next_region_size(size: u64) -> (r: u64)
    requires
        size + 524288 <= i64::MAX,
    ensures
        r == jittered_size(size),
        MIN_REPORTED_SIZE <= r <= MAX_REPORTED_SIZE,
{
    let up = (size / MB) % 2 == 0;
    if up {
        let moved = size + 524288;
        if moved > MAX_REPORTED_SIZE {
            MAX_REPORTED_SIZE
        } else if moved < MIN_REPORTED_SIZE {
            MIN_REPORTED_SIZE
        } else {
            moved
        }
    } else if size < MIN_REPORTED_SIZE + 262144 {
        MIN_REPORTED_SIZE
    } else {
        let moved = size - 262144;
        if moved > MAX_REPORTED_SIZE {
            MAX_REPORTED_SIZE
        } else {
            moved
        }
    }
}

} // verus!
