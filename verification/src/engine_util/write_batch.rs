use vstd::prelude::*;
use vstd::string::StringSliceAdditionalSpecFns;
use crate::engine_util::util::{bytes_to_vec, key_with_cf};

verus! {

/// Mathematical value of one write of a batch.
pub enum BatchOp {
    Put { key: Seq<u8>, value: Seq<u8> },
    Delete { key: Seq<u8> },
}

/// One write of a batch; keys carry their column family prefix.
#[derive(Debug)]
pub enum BatchEntry {
    Put { key: Vec<u8>, value: Vec<u8> },
    Delete { key: Vec<u8> },
}

impl View for BatchEntry {
    type V = BatchOp;

    open spec fn view(&self) -> BatchOp {
        match self {
            BatchEntry::Put { key, value } => BatchOp::Put { key: key@, value: value@ },
            BatchEntry::Delete { key } => BatchOp::Delete { key: key@ },
        }
    }
}

/// Mathematical value of a write batch.
pub struct WriteBatchView {
    pub entries: Seq<BatchOp>,
    pub size: nat,
    pub safe_point: nat,
    pub safe_point_size: nat,
}

impl WriteBatchView {
    /// The batch after a put of `value` under `key` in column family `cf`:
    /// the stored key is `cf`, `_`, `key`; the size grows by the lengths of
    /// `key` and `value`.
    pub open spec fn put(self, cf: Seq<u8>, key: Seq<u8>, value: Seq<u8>) -> WriteBatchView {
        WriteBatchView {
            entries: self.entries.push(BatchOp::Put { key: cf + seq![95u8] + key, value }),
            size: self.size + key.len() + value.len(),
            ..self
        }
    }

    /// The batch after a delete of `key` in column family `cf`.
    pub open spec fn delete(self, cf: Seq<u8>, key: Seq<u8>) -> WriteBatchView {
        WriteBatchView {
            entries: self.entries.push(BatchOp::Delete { key: cf + seq![95u8] + key }),
            size: self.size + key.len(),
            ..self
        }
    }

    /// The batch with its current writes remembered as the safe point.
    pub open spec fn saved(self) -> WriteBatchView {
        WriteBatchView { safe_point: self.entries.len(), safe_point_size: self.size, ..self }
    }

    /// The batch rolled back to its safe point.
    pub open spec fn rolled_back(self) -> WriteBatchView {
        WriteBatchView {
            entries: if self.safe_point <= self.entries.len() {
                self.entries.subrange(0, self.safe_point as int)
            } else {
                self.entries
            },
            size: self.safe_point_size,
            ..self
        }
    }

    /// `self` is `base` with more writes added and the same safe point.
    pub open spec fn extends(self, base: WriteBatchView) -> bool {
        &&& self.safe_point == base.safe_point
        &&& self.safe_point_size == base.safe_point_size
        &&& base.entries.len() <= self.entries.len()
        &&& self.entries.subrange(0, base.entries.len() as int) == base.entries
    }
}

/// A put or a delete extends the batch, and extending is transitive.
pub proof fn lemma_writes_extend(
    w: WriteBatchView,
    mid: WriteBatchView,
    cf: Seq<u8>,
    key: Seq<u8>,
    value: Seq<u8>,
)
    ensures
        w.put(cf, key, value).extends(w),
        w.delete(cf, key).extends(w),
        w.extends(w),
        mid.extends(w) ==> mid.put(cf, key, value).extends(w) && mid.delete(cf, key).extends(w),
{
    assert(w.entries.subrange(0, w.entries.len() as int) =~= w.entries);
    assert(w.put(cf, key, value).entries.subrange(0, w.entries.len() as int) =~= w.entries);
    assert(w.delete(cf, key).entries.subrange(0, w.entries.len() as int) =~= w.entries);
    if mid.extends(w) {
        assert(mid.put(cf, key, value).entries.subrange(0, w.entries.len() as int) =~= mid.entries.subrange(
            0,
            w.entries.len() as int,
        ));
        assert(mid.delete(cf, key).entries.subrange(0, w.entries.len() as int) =~= mid.entries.subrange(
            0,
            w.entries.len() as int,
        ));
    }
}

/// Rolling back undoes every write added since the safe point was set.
pub proof fn lemma_rollback_undoes_writes(w: WriteBatchView, after: WriteBatchView)
    requires
        after.extends(w.saved()),
    ensures
        after.rolled_back() == w.saved(),
{
    assert(after.rolled_back().entries =~= w.saved().entries);
}

/// A batch of writes applied to the database together.
pub struct WriteBatch {
    entries: Vec<BatchEntry>,
    size: usize,
    safe_point: usize,
    safe_point_size: usize,
}

impl View for WriteBatch {
    type V = WriteBatchView;

    closed spec fn view(&self) -> WriteBatchView {
        WriteBatchView {
            entries: self.entries@.map_values(|e: BatchEntry| e@),
            size: self.size as nat,
            safe_point: self.safe_point as nat,
            safe_point_size: self.safe_point_size as nat,
        }
    }
}

impl WriteBatch {
    pub fn new() -> (r: Self)
        ensures
            r@ == (WriteBatchView {
                entries: Seq::empty(),
                size: 0,
                safe_point: 0,
                safe_point_size: 0,
            }),
    {
        let r = WriteBatch { entries: Vec::new(), size: 0, safe_point: 0, safe_point_size: 0 };
        proof {
            assert(r@.entries =~= Seq::<BatchOp>::empty());
        }
        r
    }

    /// The number of writes in the batch.
    pub fn len(&self) -> (r: usize)
        ensures
            r == self@.entries.len(),
    {
        self.entries.len()
    }

    /// The writes, in order.
    pub fn entries(&self) -> (r: &Vec<BatchEntry>)
        ensures
            r@.map_values(|e: BatchEntry| e@) == self@.entries,
    {
        &self.entries
    }

    fn push_entry(&mut self, e: BatchEntry)
        ensures
            final(self)@ == (WriteBatchView { entries: old(self)@.entries.push(e@), ..old(self)@ }),
    {
        let ghost before = self.entries@;
        self.entries.push(e);
        proof {
            assert(self.entries@.map_values(|e: BatchEntry| e@) =~= before.map_values(
                |e: BatchEntry| e@,
            ).push(e@));
        }
    }

    /// Adds a put of `value` under `key` in column family `cf`.
    pub fn set_cf(&mut self, cf: &str, key: &[u8], value: &[u8])
        requires
            old(self)@.size + key@.len() + value@.len() <= usize::MAX,
        ensures
            final(self)@ == old(self)@.put(cf.spec_bytes(), key@, value@),
    {
        let encoded_key = key_with_cf(cf, key);
        let v = bytes_to_vec(value);
        self.push_entry(BatchEntry::Put { key: encoded_key, value: v });
        self.size = self.size + key.len() + value.len();
    }

    /// Adds a delete of `key` in column family `cf`.
    pub fn delete_cf(&mut self, cf: &str, key: &[u8])
        requires
            old(self)@.size + key@.len() <= usize::MAX,
        ensures
            final(self)@ == old(self)@.delete(cf.spec_bytes(), key@),
    {
        let encoded_key = key_with_cf(cf, key);
        self.push_entry(BatchEntry::Delete { key: encoded_key });
        self.size = self.size + key.len();
    }

    /// Remembers the current writes as a point to roll back to.
    pub fn set_safe_point(&mut self)
        ensures
            final(self)@ == old(self)@.saved(),
    {
        self.safe_point = self.entries.len();
        self.safe_point_size = self.size;
    }

    /// Drops the writes added after the safe point.
    pub fn rollback_to_safe_point(&mut self)
        ensures
            final(self)@ == old(self)@.rolled_back(),
    {
        let ghost before = self.entries@;
        self.entries.truncate(self.safe_point);
        self.size = self.safe_point_size;
        proof {
            if self.safe_point <= before.len() {
                assert(self.entries@.map_values(|e: BatchEntry| e@) =~= before.map_values(
                    |e: BatchEntry| e@,
                ).subrange(0, self.safe_point as int));
            }
        }
    }

    /// Empties the batch.
    pub fn reset(&mut self)
        ensures
            final(self)@ == (WriteBatchView {
                entries: Seq::empty(),
                size: 0,
                safe_point: 0,
                safe_point_size: 0,
            }),
    {
        self.entries.clear();
        self.size = 0;
        self.safe_point = 0;
        self.safe_point_size = 0;
        proof {
            assert(self@.entries =~= Seq::<BatchOp>::empty());
        }
    }
}

impl Default for WriteBatch {
    fn default() -> (r: Self)
        ensures
            r@ == (WriteBatchView {
                entries: Seq::empty(),
                size: 0,
                safe_point: 0,
                safe_point_size: 0,
            }),
    {
        WriteBatch::new()
    }
}

} // verus!
