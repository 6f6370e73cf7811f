use vstd::prelude::*;
use vstd::string::StringSliceAdditionalSpecFns;
use crate::engine_util::util::{bytes_to_vec, exceed_end_key, lemma_lex_lt_transitive, lex_lt, CF_DEFAULT};
use crate::engine_util::write_batch::{WriteBatch, WriteBatchView};
use crate::raftstore::meta::keys::{
    be_bytes, APPLY_STATE_PREFIX, REGION_META_PREFIX, REGION_STATE_SUFFIX,
};
use crate::raftstore::meta::values::{write_apply_state, write_region_state};

verus! {

/// Keys whose first byte is below this hold store metadata, not region data.
pub const DATA_KEY_MIN: u8 = 0x10;

/// `key` holds store metadata.
pub open spec fn is_meta_key(key: Seq<u8>) -> bool {
    key.len() > 0 && key[0] < DATA_KEY_MIN
}

/// What a range scan does with the key under its cursor.
#[derive(Debug, Clone, Copy, PartialEq, Eq, Structural)]
pub enum RangeScanStep {
    /// The key lies at or past the end of the range: the scan is over.
    Stop,
    /// The key holds metadata: move past it.
    Skip,
    /// The key holds region data: keep it and move on.
    Take,
}

/// The step for `key` in a scan of a range that ends before `end_key` (an
/// empty end key means no end).
pub open spec fn scan_step_for(key: Seq<u8>, end_key: Seq<u8>) -> RangeScanStep {
    if end_key.len() > 0 && !lex_lt(key, end_key) {
        RangeScanStep::Stop
    } else if is_meta_key(key) {
        RangeScanStep::Skip
    } else {
        RangeScanStep::Take
    }
}

/// Decides what a range scan does with `key`.
pub fn range_scan_step(key: &[u8], end_key: &[u8]) -> (r: RangeScanStep)
    ensures
        r == scan_step_for(key@, end_key@),
{
    if exceed_end_key(key, end_key) {
        RangeScanStep::Stop
    } else if key.len() > 0 && key[0] < DATA_KEY_MIN {
        RangeScanStep::Skip
    } else {
        RangeScanStep::Take
    }
}

/// Key-value pairs as byte strings.
pub open spec fn pairs_view(v: Seq<(Vec<u8>, Vec<u8>)>) -> Seq<(Seq<u8>, Seq<u8>)> {
    v.map_values(|p: (Vec<u8>, Vec<u8>)| (p.0@, p.1@))
}

/// The region data among `entries`, which a cursor lists in key order from
/// the start of the range: the data pairs before the first key that ends
/// the range, metadata left out.
pub open spec fn range_data(entries: Seq<(Seq<u8>, Seq<u8>)>, end_key: Seq<u8>) -> Seq<
    (Seq<u8>, Seq<u8>),
>
    decreases entries.len(),
{
    if entries.len() == 0 {
        Seq::empty()
    } else {
        match scan_step_for(entries[0].0, end_key) {
            RangeScanStep::Stop => Seq::empty(),
            RangeScanStep::Skip => range_data(entries.drop_first(), end_key),
            RangeScanStep::Take => seq![entries[0]] + range_data(entries.drop_first(), end_key),
        }
    }
}

/// `p` holds region data and lies before `end_key` (an empty end key
/// means no end).
pub open spec fn in_range_data(p: (Seq<u8>, Seq<u8>), end_key: Seq<u8>) -> bool {
    !is_meta_key(p.0) && (end_key.len() == 0 || lex_lt(p.0, end_key))
}

/// The keys of `entries` increase strictly, as a cursor lists them.
pub open spec fn keys_increasing(entries: Seq<(Seq<u8>, Seq<u8>)>) -> bool {
    forall|i: int, j: int| 0 <= i < j < entries.len() ==> lex_lt(#[trigger] entries[i].0, #[trigger] entries[j].0)
}

proof fn lemma_nothing_in_range(rest: Seq<(Seq<u8>, Seq<u8>)>, first: Seq<u8>, end_key: Seq<u8>)
    requires
        end_key.len() > 0,
        !lex_lt(first, end_key),
        forall|j: int| 0 <= j < rest.len() ==> lex_lt(first, #[trigger] rest[j].0),
    ensures
        rest.filter(|p: (Seq<u8>, Seq<u8>)| in_range_data(p, end_key)) == Seq::<(Seq<u8>, Seq<u8>)>::empty(),
    decreases rest.len(),
{
    reveal(Seq::filter);
    if rest.len() > 0 {
        let last = rest.last();
        assert(lex_lt(first, rest[rest.len() - 1].0));
        if lex_lt(last.0, end_key) {
            lemma_lex_lt_transitive(first, last.0, end_key);
        }
        lemma_nothing_in_range(rest.drop_last(), first, end_key);
    }
}

/// Scanning a listing whose keys increase keeps exactly the pairs of the
/// listing that hold data and lie before the end key, in listing order.
pub proof fn lemma_scan_keeps_data_in_range(entries: Seq<(Seq<u8>, Seq<u8>)>, end_key: Seq<u8>)
    requires
        keys_increasing(entries),
    ensures
        range_data(entries, end_key) == entries.filter(|p: (Seq<u8>, Seq<u8>)| in_range_data(p, end_key)),
    decreases entries.len(),
{
    let pred = |p: (Seq<u8>, Seq<u8>)| in_range_data(p, end_key);
    if entries.len() == 0 {
        reveal(Seq::filter);
    } else {
        let first = entries[0];
        let rest = entries.drop_first();
        assert(entries =~= seq![first] + rest);
        rest.lemma_filter_prepend(first, pred);
        assert forall|i: int, j: int| 0 <= i < j < rest.len() implies lex_lt(
            #[trigger] rest[i].0,
            #[trigger] rest[j].0,
        ) by {
            assert(rest[i] == entries[i + 1]);
            assert(rest[j] == entries[j + 1]);
        }
        lemma_scan_keeps_data_in_range(rest, end_key);
        if end_key.len() > 0 && !lex_lt(first.0, end_key) {
            assert forall|j: int| 0 <= j < rest.len() implies lex_lt(first.0, #[trigger] rest[j].0) by {
                assert(rest[j] == entries[j + 1]);
                assert(entries[0] == first);
            }
            lemma_nothing_in_range(rest, first.0, end_key);
            assert(Seq::<(Seq<u8>, Seq<u8>)>::empty() + Seq::<(Seq<u8>, Seq<u8>)>::empty()
                =~= Seq::<(Seq<u8>, Seq<u8>)>::empty());
        } else if is_meta_key(first.0) {
            assert(Seq::<(Seq<u8>, Seq<u8>)>::empty() + rest.filter(pred) =~= rest.filter(pred));
        }
    }
}

/// The pairs that a snapshot of a region holds, or that destroying the
/// region deletes: `entries` are the pairs from the region's start key on,
/// in key order, and the result is `range_data` of them.
pub fn collect_range(entries: &Vec<(Vec<u8>, Vec<u8>)>, end_key: &[u8]) -> (r: Vec<(Vec<u8>, Vec<u8>)>)
    ensures
        pairs_view(r@) == range_data(pairs_view(entries@), end_key@),
{
    let ghost all = pairs_view(entries@);
    let mut out: Vec<(Vec<u8>, Vec<u8>)> = Vec::new();
    let mut i: usize = 0;
    proof {
        assert(all.skip(0) =~= all);
        assert(pairs_view(out@) + all =~= all);
    }
    while i < entries.len()
        invariant
            0 <= i <= entries@.len(),
            all == pairs_view(entries@),
            range_data(all, end_key@) == pairs_view(out@) + range_data(all.skip(i as int), end_key@),
        decreases entries@.len() - i,
    {
        let ghost rest = all.skip(i as int);
        proof {
            assert(rest.drop_first() =~= all.skip(i + 1));
            assert(rest[0] == (entries@[i as int].0@, entries@[i as int].1@));
        }
        let key = &entries[i].0;
        let step = range_scan_step(key.as_slice(), end_key);
        match step {
            RangeScanStep::Stop => {
                proof {
                    assert(pairs_view(out@) + Seq::<(Seq<u8>, Seq<u8>)>::empty() =~= pairs_view(out@));
                }
                return out;
            },
            RangeScanStep::Skip => {},
            RangeScanStep::Take => {
                let k = bytes_to_vec(entries[i].0.as_slice());
                let v = bytes_to_vec(entries[i].1.as_slice());
                let ghost before = pairs_view(out@);
                out.push((k, v));
                proof {
                    assert(pairs_view(out@) =~= before.push(rest[0]));
                    assert(before + (seq![rest[0]] + range_data(rest.drop_first(), end_key@))
                        =~= before.push(rest[0]) + range_data(rest.drop_first(), end_key@));
                }
            },
        }
        i += 1;
    }
    proof {
        assert(all.skip(i as int).len() == 0);
        assert(pairs_view(out@) + Seq::<(Seq<u8>, Seq<u8>)>::empty() =~= pairs_view(out@));
    }
    out
}

/// The batch `w` after a put of each pair of `kvs`, in order, in column
/// family `cf`.
pub open spec fn put_all(w: WriteBatchView, cf: Seq<u8>, kvs: Seq<(Seq<u8>, Seq<u8>)>) -> WriteBatchView
    decreases kvs.len(),
{
    if kvs.len() == 0 {
        w
    } else {
        put_all(w, cf, kvs.drop_last()).put(cf, kvs.last().0, kvs.last().1)
    }
}

/// The total length of the keys and values of `kvs`.
pub open spec fn pairs_size(kvs: Seq<(Seq<u8>, Seq<u8>)>) -> nat
    decreases kvs.len(),
{
    if kvs.len() == 0 {
        0
    } else {
        pairs_size(kvs.drop_last()) + kvs.last().0.len() + kvs.last().1.len()
    }
}

proof fn lemma_pairs_size_prefix(kvs: Seq<(Seq<u8>, Seq<u8>)>, i: int)
    requires
        0 <= i <= kvs.len(),
    ensures
        pairs_size(kvs.take(i)) <= pairs_size(kvs),
    decreases kvs.len() - i,
{
    if i < kvs.len() {
        lemma_pairs_size_prefix(kvs, i + 1);
        assert(kvs.take(i + 1).drop_last() =~= kvs.take(i));
    } else {
        assert(kvs.take(i) =~= kvs);
    }
}

proof fn lemma_put_all_size(w: WriteBatchView, cf: Seq<u8>, kvs: Seq<(Seq<u8>, Seq<u8>)>)
    ensures
        put_all(w, cf, kvs).size == w.size + pairs_size(kvs),
        put_all(w, cf, kvs).safe_point == w.safe_point,
        put_all(w, cf, kvs).safe_point_size == w.safe_point_size,
    decreases kvs.len(),
{
    if kvs.len() > 0 {
        lemma_put_all_size(w, cf, kvs.drop_last());
    }
}

/// The writes that install a snapshot of region `region_id`: each pair of
/// `kvs` in the default column family, then the region's encoded local
/// state, then its encoded apply state when the store has one.
pub fn snapshot_batch(
    kvs: &Vec<(Vec<u8>, Vec<u8>)>,
    region_id: u64,
    region_state: &[u8],
    apply_state: Option<&[u8]>,
) -> (r: WriteBatch)
    requires
        pairs_size(pairs_view(kvs@)) + 10 + region_state@.len() + 9 + match apply_state {
            Some(a) => a@.len(),
            None => 0,
        } <= usize::MAX,
    ensures
        ({
            let data = put_all(
                WriteBatchView { entries: Seq::empty(), size: 0, safe_point: 0, safe_point_size: 0 },
                CF_DEFAULT.spec_bytes(),
                pairs_view(kvs@),
            );
            let with_region = data.put(
                Seq::empty(),
                seq![REGION_META_PREFIX] + be_bytes(region_id) + seq![REGION_STATE_SUFFIX],
                region_state@,
            );
            r@ == match apply_state {
                Some(a) => with_region.put(Seq::empty(), seq![APPLY_STATE_PREFIX] + be_bytes(region_id), a@),
                None => with_region,
            }
        }),
{
    let ghost all = pairs_view(kvs@);
    let ghost empty = WriteBatchView { entries: Seq::empty(), size: 0, safe_point: 0, safe_point_size: 0 };
    let mut wb = WriteBatch::new();
    let mut i: usize = 0;
    proof {
        assert(all.take(0) =~= Seq::<(Seq<u8>, Seq<u8>)>::empty());
    }
    while i < kvs.len()
        invariant
            0 <= i <= kvs@.len(),
            all == pairs_view(kvs@),
            empty == (WriteBatchView {
                entries: Seq::empty(),
                size: 0,
                safe_point: 0,
                safe_point_size: 0,
            }),
            wb@ == put_all(empty, CF_DEFAULT.spec_bytes(), all.take(i as int)),
            pairs_size(all) + 10 + region_state@.len() + 9 + match apply_state {
                Some(a) => a@.len(),
                None => 0,
            } <= usize::MAX,
        decreases kvs@.len() - i,
    {
        proof {
            assert(all.take(i + 1).drop_last() =~= all.take(i as int));
            assert(all.take(i + 1).last() == all[i as int]);
            assert(all[i as int] == (kvs@[i as int].0@, kvs@[i as int].1@));
            lemma_put_all_size(empty, CF_DEFAULT.spec_bytes(), all.take(i as int));
            lemma_pairs_size_prefix(all, i + 1);
        }
        wb.set_cf(CF_DEFAULT, kvs[i].0.as_slice(), kvs[i].1.as_slice());
        i += 1;
    }
    proof {
        assert(all.take(i as int) =~= all);
        lemma_put_all_size(empty, CF_DEFAULT.spec_bytes(), all);
    }
    write_region_state(&mut wb, region_id, region_state);
    match apply_state {
        Some(a) => write_apply_state(&mut wb, region_id, a),
        None => {},
    }
    wb
}

} // verus!
