use vstd::prelude::*;
use crate::config::Config;
use crate::engine_util::util::{bytes_to_vec, exceed_end_key, lex_lt};

verus! {

/// What a scan has found so far: the bytes counted and the first key at
/// which the count went past the split size.
#[derive(Debug)]
pub struct SizeScan {
    pub size: u64,
    pub split_key: Option<Vec<u8>>,
}

/// Mathematical value of a scan.
pub struct SizeScanView {
    pub size: u64,
    pub split_key: Option<Seq<u8>>,
}

impl View for SizeScan {
    type V = SizeScanView;

    open spec fn view(&self) -> SizeScanView {
        SizeScanView {
            size: self.size,
            split_key: match self.split_key {
                Some(k) => Some(k@),
                None => None,
            },
        }
    }
}

/// `prefix` is a prefix of `s`.
pub open spec fn has_prefix(s: Seq<u8>, prefix: Seq<u8>) -> bool {
    prefix.len() <= s.len() && s.take(prefix.len() as int) == prefix
}

/// Whether `s` starts with `prefix`.
fn starts_with(s: &[u8], prefix: &[u8]) -> (r: bool)
    ensures
        r == has_prefix(s@, prefix@),
{
    if prefix.len() > s.len() {
        return false;
    }
    let mut i: usize = 0;
    while i < prefix.len()
        invariant
            prefix@.len() <= s@.len(),
            0 <= i <= prefix@.len(),
            forall|j: int| 0 <= j < i ==> s@[j] == prefix@[j],
        decreases prefix@.len() - i,
    {
        if s[i] != prefix[i] {
            assert(s@.take(prefix@.len() as int)[i as int] != prefix@[i as int]);
            return false;
        }
        i += 1;
    }
    assert(s@.take(prefix@.len() as int) =~= prefix@);
    true
}

/// Decides where a region should split, from the sizes of its data. Sizes
/// are in bytes.
pub struct SplitChecker {
    pub max_size: u64,
    pub split_size: u64,
}

impl SplitChecker {
    /// The scan after counting `size` more bytes for `key`: the split key is
    /// the first key at which the count goes past the split size.
    pub open spec fn counted(self, scan: SizeScanView, key: Seq<u8>, size: int) -> SizeScanView {
        let total = (scan.size + size) as u64;
        SizeScanView {
            size: total,
            split_key: if total > self.split_size && scan.split_key is None {
                Some(key)
            } else {
                scan.split_key
            },
        }
    }

    /// The scan of one column family after the item `raw_key` (a stored
    /// key, column family prefix included) with a value of `value_len`
    /// bytes, and whether the scan goes on. It stops at a key of another
    /// column family or at the region's end (not counting them), and after
    /// the count passes the maximum size.
    pub open spec fn scan_next(
        self,
        scan: SizeScanView,
        prefix: Seq<u8>,
        end_key: Seq<u8>,
        raw_key: Seq<u8>,
        value_len: u64,
    ) -> (SizeScanView, bool) {
        if !has_prefix(raw_key, prefix) {
            (scan, false)
        } else {
            let key = raw_key.skip(prefix.len() as int);
            if end_key.len() > 0 && !lex_lt(key, end_key) {
                (scan, false)
            } else {
                let next = self.counted(scan, key, key.len() + value_len);
                (next, next.size <= self.max_size)
            }
        }
    }

    /// The thresholds of `cfg`.
    pub fn new(cfg: &Config) -> (r: Self)
        ensures
            r.max_size == cfg.region_max_size,
            r.split_size == cfg.region_split_size,
    {
        SplitChecker { max_size: cfg.region_max_size, split_size: cfg.region_split_size }
    }

    /// Counts the next item of the scan of the column family whose keys
    /// start with `prefix`; returns whether the scan goes on.
    pub fn scan_step(
        &self,
        scan: &mut SizeScan,
        prefix: &[u8],
        end_key: &[u8],
        raw_key: &[u8],
        value_len: u64,
    ) -> (r: bool)
        requires
            old(scan).size + raw_key@.len() + value_len <= u64::MAX,
        ensures
            (final(scan)@, r) == self.scan_next(old(scan)@, prefix@, end_key@, raw_key@, value_len),
    {
        if !starts_with(raw_key, prefix) {
            return false;
        }
        let key = vstd::slice::slice_subrange(raw_key, prefix.len(), raw_key.len());
        assert(key@ =~= raw_key@.skip(prefix@.len() as int));
        if end_key.len() > 0 && exceed_end_key(key, end_key) {
            return false;
        }
        let ghost before = scan@;
        scan.size = scan.size + key.len() as u64 + value_len;
        if scan.size > self.split_size && scan.split_key.is_none() {
            scan.split_key = Some(bytes_to_vec(key));
        }
        assert(scan@ == self.counted(before, key@, key@.len() + value_len));
        scan.size <= self.max_size
    }

    /// What the scan of a column family found: its size and split key (empty
    /// when none), or `None` when it counted nothing.
    pub fn scan_result(scan: SizeScan) -> (r: Option<(u64, Vec<u8>)>)
        ensures
            scan.size == 0 ==> r is None,
            scan.size > 0 ==> (r matches Some((size, key)) && size == scan.size && key@ == match scan@.split_key {
                Some(k) => k,
                None => Seq::<u8>::empty(),
            }),
    {
        if scan.size > 0 {
            let key = match scan.split_key {
                Some(k) => k,
                None => Vec::new(),
            };
            Some((scan.size, key))
        } else {
            None
        }
    }

    /// Adds what the scan of one more column family found to the check of a
    /// region; returns whether the check goes on (it stops once the total
    /// passes the maximum size).
    pub fn check_step(&self, check: &mut SizeScan, found: Option<(u64, Vec<u8>)>) -> (r: bool)
        requires
            found matches Some((size, _)) ==> old(check).size + size <= u64::MAX,
        ensures
            match found {
                Some((size, key)) => {
                    &&& final(check)@ == self.counted(old(check)@, key@, size as int)
                    &&& r == (final(check)@.size <= self.max_size)
                },
                None => final(check)@ == old(check)@ && r,
            },
    {
        match found {
            Some((size, key)) => {
                let ghost before = check@;
                check.size = check.size + size;
                if check.size > self.split_size && check.split_key.is_none() {
                    check.split_key = Some(key);
                }
                assert(check@ == self.counted(before, key@, size as int));
                check.size <= self.max_size
            },
            None => true,
        }
    }

    /// The key to split a region at, once all column families are counted:
    /// none while the region is below the maximum size.
    pub fn check_result(&self, check: SizeScan) -> (r: Option<Vec<u8>>)
        ensures
            check.size < self.max_size ==> r is None,
            check.size >= self.max_size ==> match r {
                Some(k) => check@.split_key == Some(k@),
                None => check@.split_key is None,
            },
    {
        if check.size < self.max_size {
            return None;
        }
        check.split_key
    }
}

} // verus!
