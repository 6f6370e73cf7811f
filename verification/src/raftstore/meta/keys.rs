use vstd::prelude::*;

verus! {

/// Prefix of region metadata keys.
pub const REGION_META_PREFIX: u8 = 1;
/// Prefix of Raft state keys.
pub const RAFT_STATE_PREFIX: u8 = 2;
/// Prefix of Raft log keys.
pub const RAFT_LOG_PREFIX: u8 = 3;
/// Prefix of apply state keys.
pub const APPLY_STATE_PREFIX: u8 = 4;
/// Suffix of region state keys.
pub const REGION_STATE_SUFFIX: u8 = 1;

/// The 8 bytes of `x`, most significant first.
pub open spec fn be_bytes(x: u64) -> Seq<u8> {
    seq![
        (x >> 56u64) as u8,
        (x >> 48u64) as u8,
        (x >> 40u64) as u8,
        (x >> 32u64) as u8,
        (x >> 24u64) as u8,
        (x >> 16u64) as u8,
        (x >> 8u64) as u8,
        x as u8,
    ]
}

/// The number whose big-endian bytes are `b[0..8]`.
pub open spec fn from_be_bytes(b: Seq<u8>) -> u64 {
    ((b[0] as u64) << 56u64) | ((b[1] as u64) << 48u64) | ((b[2] as u64) << 40u64) | ((b[3] as u64)
        << 32u64) | ((b[4] as u64) << 24u64) | ((b[5] as u64) << 16u64) | ((b[6] as u64) << 8u64)
        | (b[7] as u64)
}

fn push_u64(key: &mut Vec<u8>, x: u64)
    ensures
        final(key)@ == old(key)@ + be_bytes(x),
{
    key.push((x >> 56u64) as u8);
    key.push((x >> 48u64) as u8);
    key.push((x >> 40u64) as u8);
    key.push((x >> 32u64) as u8);
    key.push((x >> 24u64) as u8);
    key.push((x >> 16u64) as u8);
    key.push((x >> 8u64) as u8);
    key.push(x as u8);
    proof {
        assert(final(key)@ =~= old(key)@ + be_bytes(x));
    }
}

/// The key of a region's state: prefix, region id (big-endian), suffix.
pub fn region_state_key(region_id: u64) -> (r: Vec<u8>)
    ensures
        r@ == seq![REGION_META_PREFIX] + be_bytes(region_id) + seq![REGION_STATE_SUFFIX],
{
    let mut key: Vec<u8> = Vec::new();
    key.push(REGION_META_PREFIX);
    push_u64(&mut key, region_id);
    key.push(REGION_STATE_SUFFIX);
    key
}

/// Why a key could not be decoded.
#[derive(Debug, Clone, Copy, PartialEq, Eq, Structural)]
pub enum KeyDecodeError {
    /// The key is too short or lacks the region metadata prefix.
    InvalidRegionMetaKey,
}

/// Splits a region metadata key into its region id and its suffix.
pub fn decode_region_meta_key(key: &[u8]) -> (r: Result<(u64, u8), KeyDecodeError>)
    ensures
        key@.len() < 10 || key@[0] != REGION_META_PREFIX ==> r == Err::<(u64, u8), KeyDecodeError>(
            KeyDecodeError::InvalidRegionMetaKey,
        ),
        !(key@.len() < 10 || key@[0] != REGION_META_PREFIX) ==> r == Ok::<(u64, u8), KeyDecodeError>(
            (from_be_bytes(key@.subrange(1, 9)), key@[9]),
        ),
{
    if key.len() < 10 || key[0] != REGION_META_PREFIX {
        return Err(KeyDecodeError::InvalidRegionMetaKey);
    }
    let region_id = ((key[1] as u64) << 56u64) | ((key[2] as u64) << 48u64) | ((key[3] as u64)
        << 40u64) | ((key[4] as u64) << 32u64) | ((key[5] as u64) << 24u64) | ((key[6] as u64)
        << 16u64) | ((key[7] as u64) << 8u64) | (key[8] as u64);
    Ok((region_id, key[9]))
}

/// The key of a region's Raft state: prefix, region id.
pub fn raft_state_key(region_id: u64) -> (r: Vec<u8>)
    ensures
        r@ == seq![RAFT_STATE_PREFIX] + be_bytes(region_id),
{
    let mut key: Vec<u8> = Vec::new();
    key.push(RAFT_STATE_PREFIX);
    push_u64(&mut key, region_id);
    key
}

/// The key of a Raft log entry: prefix, region id, index.
pub fn raft_log_key(region_id: u64, index: u64) -> (r: Vec<u8>)
    ensures
        r@ == seq![RAFT_LOG_PREFIX] + be_bytes(region_id) + be_bytes(index),
{
    let mut key: Vec<u8> = Vec::new();
    key.push(RAFT_LOG_PREFIX);
    push_u64(&mut key, region_id);
    push_u64(&mut key, index);
    key
}

/// The key of a region's apply state: prefix, region id.
pub fn apply_state_key(region_id: u64) -> (r: Vec<u8>)
    ensures
        r@ == seq![APPLY_STATE_PREFIX] + be_bytes(region_id),
{
    let mut key: Vec<u8> = Vec::new();
    key.push(APPLY_STATE_PREFIX);
    push_u64(&mut key, region_id);
    key
}

/// Decoding the big-endian bytes of `x` gives `x` back.
pub proof fn lemma_be_bytes_roundtrip(x: u64)
    ensures
        from_be_bytes(be_bytes(x)) == x,
{
    let b = be_bytes(x);
    assert(b[0] == (x >> 56u64) as u8);
    assert(b[7] == x as u8);
    assert(((((x >> 56u64) as u8) as u64) << 56u64) | ((((x >> 48u64) as u8) as u64) << 48u64) | ((((x
        >> 40u64) as u8) as u64) << 40u64) | ((((x >> 32u64) as u8) as u64) << 32u64) | ((((x
        >> 24u64) as u8) as u64) << 24u64) | ((((x >> 16u64) as u8) as u64) << 16u64) | ((((x
        >> 8u64) as u8) as u64) << 8u64) | ((x as u8) as u64) == x) by (bit_vector);
}

/// A region state key decodes to the region id it was built from and the
/// region state suffix.
pub proof fn lemma_region_state_key_decodes(region_id: u64)
    ensures
        ({
            let k = seq![REGION_META_PREFIX] + be_bytes(region_id) + seq![REGION_STATE_SUFFIX];
            &&& k.len() == 10
            &&& k[0] == REGION_META_PREFIX
            &&& from_be_bytes(k.subrange(1, 9)) == region_id
            &&& k[9] == REGION_STATE_SUFFIX
        }),
{
    let k = seq![REGION_META_PREFIX] + be_bytes(region_id) + seq![REGION_STATE_SUFFIX];
    assert(k.subrange(1, 9) =~= be_bytes(region_id));
    lemma_be_bytes_roundtrip(region_id);
}

} // verus!
