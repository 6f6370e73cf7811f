use vstd::prelude::*;
use crate::proto::metapb::{Region, RegionEpoch};

verus! {

/// Why a split request is refused.
#[derive(Debug, Clone, Copy, PartialEq, Eq, Structural)]
pub enum SplitValidationError {
    EmptySplitKey,
    NotLeader,
    /// The region's version changed since the split was asked for.
    EpochChanged,
}

/// Checks a request to split `region` at `split_key`, made when the
/// region's epoch was `epoch`.
pub fn validate_split_region(
    split_key: &[u8],
    is_leader: bool,
    region: &Region,
    epoch: &RegionEpoch,
) -> (r: Result<(), SplitValidationError>)
    ensures
        r == if split_key@.len() == 0 {
            Err(SplitValidationError::EmptySplitKey)
        } else if !is_leader {
            Err(SplitValidationError::NotLeader)
        } else if region.region_epoch.version != epoch.version {
            Err(SplitValidationError::EpochChanged)
        } else {
            Ok(())
        },
{
    if split_key.len() == 0 {
        return Err(SplitValidationError::EmptySplitKey);
    }
    if !is_leader {
        return Err(SplitValidationError::NotLeader);
    }
    if region.region_epoch.version != epoch.version {
        return Err(SplitValidationError::EpochChanged);
    }
    Ok(())
}

/// Whether a tick runs a split check: the peer leads, and its region is of
/// unknown size or grew by at least an eighth of it since the last check.
pub fn should_check_split(is_leader: bool, size_diff_hint: u64, approximate_size: Option<u64>) -> (r:
    bool)
    ensures
        r == (is_leader && match approximate_size {
            Some(size) => size_diff_hint >= size / 8,
            None => true,
        }),
{
    if !is_leader {
        return false;
    }
    if let Some(approx_size) = approximate_size {
        if size_diff_hint < approx_size / 8 {
            return false;
        }
    }
    true
}

} // verus!
