use vstd::prelude::*;
use std::collections::BTreeMap;
use crate::engine_util::util::{
    bytes_less, bytes_to_vec, lemma_lex_lt_asymmetric, lemma_lex_lt_total,
    lemma_lex_lt_transitive, lex_lt,
};
use crate::proto::metapb::{Region, RegionView};
use crate::raftstore::util::{in_key_range, key_in_region};
use vstd::laws_cmp::obeys_cmp;
use vstd::std_specs::btree::{increasing_seq, spec_keys_iter};
use vstd::std_specs::iter::IteratorSpec;
use vstd::std_specs::cmp::OrdSpec;

verus! {

broadcast use vstd::std_specs::btree::group_btree_axioms, vstd::laws_cmp::group_laws_cmp;

/// An entry of the range index: the start key of a region and its id.
pub type RangeView = (Seq<u8>, u64);

/// The entries are ordered by start key (equal keys may follow each other).
pub open spec fn ranges_sorted(s: Seq<RangeView>) -> bool {
    forall|i: int, j: int| 0 <= i < j < s.len() ==> !lex_lt(#[trigger] s[j].0, #[trigger] s[i].0)
}

/// No region id occurs twice among the entries.
pub open spec fn ranges_ids_distinct(s: Seq<RangeView>) -> bool {
    forall|i: int, j: int| 0 <= i < j < s.len() ==> #[trigger] s[i].1 != #[trigger] s[j].1
}

/// The entries whose region id is not `id`, in their order.
pub open spec fn drop_id(s: Seq<RangeView>, id: u64) -> Seq<RangeView>
    decreases s.len(),
{
    if s.len() == 0 {
        s
    } else {
        let rest = drop_id(s.drop_last(), id);
        if s.last().1 != id {
            rest.push(s.last())
        } else {
            rest
        }
    }
}

/// The index of the first entry whose start key sorts after `key`
/// (the length when there is none).
pub open spec fn insert_pos(s: Seq<RangeView>, key: Seq<u8>) -> int
    decreases s.len(),
{
    if s.len() == 0 {
        0
    } else if lex_lt(key, s[0].0) {
        0
    } else {
        1 + insert_pos(s.drop_first(), key)
    }
}

/// `s` with `(key, id)` placed after every entry whose start key is at most
/// `key`.
pub open spec fn insert_range(s: Seq<RangeView>, key: Seq<u8>, id: u64) -> Seq<RangeView> {
    s.insert(insert_pos(s, key), (key, id))
}

/// The index of the last entry whose start key is at most `key`, or -1.
pub open spec fn last_le_index(s: Seq<RangeView>, key: Seq<u8>) -> int
    decreases s.len(),
{
    if s.len() == 0 {
        -1
    } else if !lex_lt(key, s.last().0) {
        s.len() - 1
    } else {
        last_le_index(s.drop_last(), key)
    }
}

/// Two regions overlap when the start key of either lies in the other.
pub open spec fn spec_regions_overlap(a: RegionView, b: RegionView) -> bool {
    in_key_range(a.start_key, b.start_key, b.end_key) || in_key_range(
        b.start_key,
        a.start_key,
        a.end_key,
    )
}

/// Mathematical value of the store's region metadata.
pub struct StoreMetaView {
    pub regions: Map<u64, RegionView>,
    pub ranges: Seq<RangeView>,
}

impl StoreMetaView {
    /// The range index is sorted, names each region once, and agrees with
    /// the region table.
    pub open spec fn wf(self) -> bool {
        &&& ranges_sorted(self.ranges)
        &&& ranges_ids_distinct(self.ranges)
        &&& forall|i: int|
            0 <= i < self.ranges.len() ==> {
                let id = #[trigger] self.ranges[i].1;
                &&& self.regions.contains_key(id)
                &&& self.regions[id].start_key == self.ranges[i].0
            }
        &&& forall|id: u64| #[trigger]
            self.regions.contains_key(id) ==> exists|i: int|
                0 <= i < self.ranges.len() && #[trigger] self.ranges[i].1 == id
        &&& forall|id: u64| #[trigger] self.regions.contains_key(id) ==> self.regions[id].id == id
    }

    /// The metadata after recording `region`.
    pub open spec fn set(self, region: RegionView) -> StoreMetaView {
        StoreMetaView {
            regions: self.regions.insert(region.id, region),
            ranges: insert_range(drop_id(self.ranges, region.id), region.start_key, region.id),
        }
    }

    /// The metadata after forgetting region `id`.
    pub open spec fn without(self, id: u64) -> StoreMetaView {
        StoreMetaView { regions: self.regions.remove(id), ranges: drop_id(self.ranges, id) }
    }

    /// The region found for `key`: the one whose entry is the last with a
    /// start key at most `key`, provided `key` lies in it.
    pub open spec fn region_for_key(self, key: Seq<u8>) -> Option<RegionView> {
        let i = last_le_index(self.ranges, key);
        if i < 0 {
            None
        } else {
            let id = self.ranges[i].1;
            if self.regions.contains_key(id) && in_key_range(
                key,
                self.regions[id].start_key,
                self.regions[id].end_key,
            ) {
                Some(self.regions[id])
            } else {
                None
            }
        }
    }

    /// The regions of the entries of `ranges` that overlap `region`, in
    /// entry order.
    pub open spec fn overlaps_in(self, ranges: Seq<RangeView>, region: RegionView) -> Seq<
        RegionView,
    >
        decreases ranges.len(),
    {
        if ranges.len() == 0 {
            Seq::empty()
        } else {
            let before = self.overlaps_in(ranges.drop_last(), region);
            let id = ranges.last().1;
            if self.regions.contains_key(id) && spec_regions_overlap(region, self.regions[id]) {
                before.push(self.regions[id])
            } else {
                before
            }
        }
    }
}

/// What dropping the entries of one id keeps.
proof fn lemma_drop_id(s: Seq<RangeView>, id: u64)
    ensures
        forall|k: int|
            0 <= k < drop_id(s, id).len() ==> s.contains(#[trigger] drop_id(s, id)[k])
                && drop_id(s, id)[k].1 != id,
        forall|i: int| 0 <= i < s.len() && s[i].1 != id ==> drop_id(s, id).contains(#[trigger] s[i]),
        ranges_sorted(s) ==> ranges_sorted(drop_id(s, id)),
        ranges_ids_distinct(s) ==> ranges_ids_distinct(drop_id(s, id)),
    decreases s.len(),
{
    if s.len() > 0 {
        let init = s.drop_last();
        let rest = drop_id(init, id);
        lemma_drop_id(init, id);
        let r = drop_id(s, id);
        assert forall|k: int| 0 <= k < r.len() implies s.contains(#[trigger] r[k]) && r[k].1 != id by {
            if k < rest.len() {
                assert(rest[k] == r[k]);
                let j = choose|j: int| 0 <= j < init.len() && init[j] == rest[k];
                assert(s[j] == init[j]);
            } else {
                assert(s[s.len() - 1] == r[k]);
            }
        }
        assert forall|i: int| 0 <= i < s.len() && s[i].1 != id implies r.contains(#[trigger] s[i]) by {
            if i < s.len() - 1 {
                assert(init[i] == s[i]);
                let k = choose|k: int| 0 <= k < rest.len() && rest[k] == init[i];
                assert(r[k] == rest[k]);
            } else {
                assert(r[r.len() - 1] == s[i]);
            }
        }
        if ranges_sorted(s) {
            assert(ranges_sorted(init));
            assert forall|i: int, j: int| 0 <= i < j < r.len() implies !lex_lt(
                #[trigger] r[j].0,
                #[trigger] r[i].0,
            ) by {
                if j < rest.len() {
                    assert(r[i] == rest[i] && r[j] == rest[j]);
                } else {
                    assert(r[j] == s.last());
                    assert(r[i] == rest[i]);
                    let a = choose|a: int| 0 <= a < init.len() && init[a] == rest[i];
                    assert(s[a] == init[a]);
                    assert(s[s.len() - 1] == s.last());
                }
            }
        }
        if ranges_ids_distinct(s) {
            assert(ranges_ids_distinct(init));
            assert forall|i: int, j: int| 0 <= i < j < r.len() implies #[trigger] r[i].1
                != #[trigger] r[j].1 by {
                if j < rest.len() {
                    assert(r[i] == rest[i] && r[j] == rest[j]);
                } else {
                    assert(r[j] == s.last());
                    assert(r[i] == rest[i]);
                    let a = choose|a: int| 0 <= a < init.len() && init[a] == rest[i];
                    assert(s[a] == init[a]);
                    assert(s[s.len() - 1] == s.last());
                }
            }
        }
    }
}

/// Where `insert_pos` lands: after the entries at most `key`, before the
/// first one after it.
proof fn lemma_insert_pos(s: Seq<RangeView>, key: Seq<u8>)
    ensures
        0 <= insert_pos(s, key) <= s.len(),
        forall|i: int| 0 <= i < insert_pos(s, key) ==> !lex_lt(key, #[trigger] s[i].0),
        insert_pos(s, key) < s.len() ==> lex_lt(key, s[insert_pos(s, key)].0),
    decreases s.len(),
{
    if s.len() > 0 && !lex_lt(key, s[0].0) {
        let t = s.drop_first();
        lemma_insert_pos(t, key);
        assert forall|i: int| 0 <= i < insert_pos(s, key) implies !lex_lt(key, #[trigger] s[i].0) by {
            if i > 0 {
                assert(s[i] == t[i - 1]);
            }
        }
        if insert_pos(s, key) < s.len() {
            assert(s[insert_pos(s, key)] == t[insert_pos(t, key)]);
        }
    }
}

/// Inserting at `insert_pos` keeps the index sorted.
proof fn lemma_insert_range_sorted(s: Seq<RangeView>, key: Seq<u8>, id: u64)
    requires
        ranges_sorted(s),
    ensures
        ranges_sorted(insert_range(s, key, id)),
{
    lemma_insert_pos(s, key);
    let p = insert_pos(s, key);
    let r = insert_range(s, key, id);
    assert forall|i: int, j: int| 0 <= i < j < r.len() implies !lex_lt(
        #[trigger] r[j].0,
        #[trigger] r[i].0,
    ) by {
        if j < p {
            assert(r[i] == s[i] && r[j] == s[j]);
        } else if j == p {
            assert(r[i] == s[i]);
            lemma_lex_lt_asymmetric(r[j].0, r[i].0);
            lemma_lex_lt_total(r[j].0, r[i].0);
        } else if i < p {
            assert(r[i] == s[i] && r[j] == s[j - 1]);
            assert(!lex_lt(key, s[i].0));
            lemma_lex_lt_asymmetric(s[p].0, s[p].0);
            assert(!lex_lt(s[j - 1].0, s[p].0));
            lemma_lex_lt_total(key, s[i].0);
            lemma_lex_lt_total(s[j - 1].0, s[p].0);
            if lex_lt(s[j - 1].0, s[i].0) {
                if s[i].0 != key {
                    lemma_lex_lt_transitive(s[j - 1].0, s[i].0, key);
                }
                lemma_lex_lt_transitive(s[j - 1].0, key, s[p].0);
                lemma_lex_lt_asymmetric(s[j - 1].0, s[p].0);
            }
        } else if i == p {
            assert(r[i].0 == key && r[j] == s[j - 1]);
            lemma_lex_lt_total(s[j - 1].0, s[p].0);
            if lex_lt(s[j - 1].0, key) {
                lemma_lex_lt_transitive(s[j - 1].0, key, s[p].0);
                lemma_lex_lt_asymmetric(s[j - 1].0, s[p].0);
            }
        } else {
            assert(r[i] == s[i - 1] && r[j] == s[j - 1]);
        }
    }
}

/// Where `last_le_index` lands: at the last entry at most `key`.
proof fn lemma_last_le_index(s: Seq<RangeView>, key: Seq<u8>)
    ensures
        -1 <= last_le_index(s, key) < s.len(),
        last_le_index(s, key) >= 0 ==> !lex_lt(key, s[last_le_index(s, key)].0),
        forall|j: int| last_le_index(s, key) < j < s.len() ==> lex_lt(key, #[trigger] s[j].0),
    decreases s.len(),
{
    if s.len() > 0 && lex_lt(key, s.last().0) {
        let init = s.drop_last();
        lemma_last_le_index(init, key);
        assert forall|j: int| last_le_index(s, key) < j < s.len() implies lex_lt(
            key,
            #[trigger] s[j].0,
        ) by {
            if j < s.len() - 1 {
                assert(s[j] == init[j]);
            }
        }
        if last_le_index(s, key) >= 0 {
            assert(s[last_le_index(s, key)] == init[last_le_index(init, key)]);
        }
    }
}

/// Setting a region keeps the metadata well formed.
proof fn lemma_set_region_wf(m: StoreMetaView, rv: RegionView)
    requires
        m.wf(),
    ensures
        m.set(rv).wf(),
{
    let id = rv.id;
    let f = drop_id(m.ranges, id);
    lemma_drop_id(m.ranges, id);
    lemma_insert_pos(f, rv.start_key);
    lemma_insert_range_sorted(f, rv.start_key, id);
    let p = insert_pos(f, rv.start_key);
    let r = insert_range(f, rv.start_key, id);
    let n = StoreMetaView { regions: m.regions.insert(id, rv), ranges: r };
    assert forall|i: int| 0 <= i < r.len() implies {
        let x = #[trigger] r[i].1;
        &&& n.regions.contains_key(x)
        &&& n.regions[x].start_key == r[i].0
    } by {
        if i != p {
            let k = if i < p { i } else { i - 1 };
            assert(r[i] == f[k]);
            assert(m.ranges.contains(f[k]));
            let j = choose|j: int| 0 <= j < m.ranges.len() && m.ranges[j] == f[k];
            assert(m.ranges[j].1 == f[k].1);
        }
    }
    assert forall|i: int, j: int| 0 <= i < j < r.len() implies #[trigger] r[i].1
        != #[trigger] r[j].1 by {
        if i != p && j != p {
            let a = if i < p { i } else { i - 1 };
            let b = if j < p { j } else { j - 1 };
            assert(r[i] == f[a] && r[j] == f[b]);
        } else if i == p {
            assert(r[j] == f[j - 1]);
        } else {
            assert(r[i] == f[i]);
        }
    }
    assert forall|x: u64| #[trigger] n.regions.contains_key(x) implies exists|i: int|
        0 <= i < r.len() && #[trigger] r[i].1 == x by {
        if x == id {
            assert(r[p].1 == x);
        } else {
            let j = choose|j: int| 0 <= j < m.ranges.len() && #[trigger] m.ranges[j].1 == x;
            assert(f.contains(m.ranges[j]));
            let k = choose|k: int| 0 <= k < f.len() && f[k] == m.ranges[j];
            if k < p {
                assert(r[k] == f[k]);
            } else {
                assert(r[k + 1] == f[k]);
            }
        }
    }
}

/// Removing a region keeps the metadata well formed.
proof fn lemma_remove_region_wf(m: StoreMetaView, id: u64)
    requires
        m.wf(),
    ensures
        m.without(id).wf(),
{
    let f = drop_id(m.ranges, id);
    lemma_drop_id(m.ranges, id);
    let n = StoreMetaView { regions: m.regions.remove(id), ranges: f };
    assert forall|i: int| 0 <= i < f.len() implies {
        let x = #[trigger] f[i].1;
        &&& n.regions.contains_key(x)
        &&& n.regions[x].start_key == f[i].0
    } by {
        assert(m.ranges.contains(f[i]));
        let j = choose|j: int| 0 <= j < m.ranges.len() && m.ranges[j] == f[i];
        assert(m.ranges[j].1 == f[i].1);
    }
    assert forall|x: u64| #[trigger] n.regions.contains_key(x) implies exists|i: int|
        0 <= i < f.len() && #[trigger] f[i].1 == x by {
        let j = choose|j: int| 0 <= j < m.ranges.len() && #[trigger] m.ranges[j].1 == x;
        assert(f.contains(m.ranges[j]));
        let k = choose|k: int| 0 <= k < f.len() && f[k] == m.ranges[j];
        assert(f[k].1 == x);
    }
}

/// The keys of a map of `u64` come out of its key iterator in increasing
/// order.
proof fn lemma_keys_increasing(s: Seq<&u64>)
    requires
        increasing_seq(s),
    ensures
        forall|i: int, j: int| 0 <= i < j < s.len() ==> *s[i] < *s[j],
{
    assert(obeys_cmp::<u64>());
    assert(obeys_cmp::<&u64>());
    vstd::std_specs::btree::axiom_increasing_seq_meaning::<&u64>(s);
    assert forall|i: int, j: int| 0 <= i < j < s.len() implies *s[i] < *s[j] by {
        let a: &u64 = s[i];
        let b: &u64 = s[j];
        assert(OrdSpec::cmp_spec(&a, &b) is Less);
    }
}

/// When no two regions overlap, the region found for a key is the region
/// that contains the key.
pub proof fn lemma_region_for_key_finds_owner(m: StoreMetaView, key: Seq<u8>, id: u64)
    requires
        m.wf(),
        m.regions.contains_key(id),
        in_key_range(key, m.regions[id].start_key, m.regions[id].end_key),
        forall|a: u64, b: u64|
            m.regions.contains_key(a) && m.regions.contains_key(b) && a != b
                ==> !spec_regions_overlap(#[trigger] m.regions[a], #[trigger] m.regions[b]),
    ensures
        m.region_for_key(key) == Some(m.regions[id]),
{
    let s = m.ranges;
    let owner = m.regions[id];
    let i0 = choose|i: int| 0 <= i < s.len() && #[trigger] s[i].1 == id;
    assert(s[i0].1 == id);
    assert(s[i0].0 == owner.start_key);
    lemma_last_le_index(s, key);
    let l = last_le_index(s, key);
    assert(!lex_lt(key, s[i0].0));
    assert(l >= i0);
    let other_id = s[l].1;
    assert(m.regions.contains_key(other_id));
    if l != i0 {
        assert(other_id != id);
        let other = m.regions[other_id];
        assert(other.start_key == s[l].0);
        assert(!lex_lt(s[l].0, s[i0].0));
        assert(!lex_lt(key, s[l].0));
        lemma_lex_lt_total(s[l].0, key);
        if owner.end_key.len() > 0 && s[l].0 != key {
            lemma_lex_lt_transitive(s[l].0, key, owner.end_key);
        }
        assert(in_key_range(other.start_key, owner.start_key, owner.end_key));
        assert(spec_regions_overlap(owner, other));
        assert(false);
    }
}

/// Mathematical value of each region of a list.
pub open spec fn regions_view(v: Seq<Region>) -> Seq<RegionView> {
    v.map_values(|r: Region| r@)
}

/// Mathematical value of the range index.
pub open spec fn ranges_view(v: Seq<(Vec<u8>, u64)>) -> Seq<RangeView> {
    v.map_values(|e: (Vec<u8>, u64)| (e.0@, e.1))
}

/// Mathematical value of an optional region.
pub open spec fn opt_region_view(r: Option<Region>) -> Option<RegionView> {
    match r {
        Some(x) => Some(x@),
        None => None,
    }
}

/// The entries of `ranges` whose region id is not `id`.
fn ranges_without(ranges: &Vec<(Vec<u8>, u64)>, id: u64) -> (r: Vec<(Vec<u8>, u64)>)
    ensures
        ranges_view(r@) == drop_id(ranges_view(ranges@), id),
{
    let ghost s = ranges_view(ranges@);
    let mut r: Vec<(Vec<u8>, u64)> = Vec::new();
    let mut i: usize = 0;
    while i < ranges.len()
        invariant
            0 <= i <= ranges@.len(),
            s == ranges_view(ranges@),
            ranges_view(r@) == drop_id(s.take(i as int), id),
        decreases ranges@.len() - i,
    {
        proof {
            assert(s.take(i + 1).drop_last() =~= s.take(i as int));
            assert(s.take(i + 1).last() == s[i as int]);
        }
        if ranges[i].1 != id {
            let ghost before = r@;
            let key = bytes_to_vec(ranges[i].0.as_slice());
            r.push((key, ranges[i].1));
            proof {
                assert(ranges_view(r@) =~= ranges_view(before).push(s[i as int]));
            }
        }
        i += 1;
    }
    proof {
        assert(s.take(s.len() as int) =~= s);
    }
    r
}

/// The index of the first entry of `ranges` whose start key sorts after
/// `key`.
fn range_insert_pos(ranges: &Vec<(Vec<u8>, u64)>, key: &[u8]) -> (p: usize)
    ensures
        p == insert_pos(ranges_view(ranges@), key@),
{
    let ghost s = ranges_view(ranges@);
    let mut p: usize = 0;
    proof {
        assert(s.skip(0) =~= s);
    }
    while p < ranges.len() && !bytes_less(key, ranges[p].0.as_slice())
        invariant
            0 <= p <= ranges@.len(),
            s == ranges_view(ranges@),
            insert_pos(s, key@) == p + insert_pos(s.skip(p as int), key@),
        decreases ranges@.len() - p,
    {
        proof {
            assert(s.skip(p as int)[0] == s[p as int]);
            assert(s.skip(p as int).drop_first() =~= s.skip(p + 1));
        }
        p += 1;
    }
    proof {
        if p < ranges.len() {
            assert(s.skip(p as int)[0] == s[p as int]);
        }
    }
    p
}

/// The index of the last entry of `ranges` whose start key is at most
/// `key`, if any.
fn range_last_le(ranges: &Vec<(Vec<u8>, u64)>, key: &[u8]) -> (r: Option<usize>)
    ensures
        match r {
            Some(i) => i == last_le_index(ranges_view(ranges@), key@),
            None => last_le_index(ranges_view(ranges@), key@) < 0,
        },
{
    let ghost s = ranges_view(ranges@);
    let mut i: usize = ranges.len();
    proof {
        assert(s.take(s.len() as int) =~= s);
    }
    while i > 0
        invariant
            0 <= i <= ranges@.len(),
            s == ranges_view(ranges@),
            last_le_index(s, key@) == last_le_index(s.take(i as int), key@),
        decreases i,
    {
        i -= 1;
        proof {
            assert(s.take(i + 1).drop_last() =~= s.take(i as int));
            assert(s.take(i + 1).last() == s[i as int]);
        }
        if !bytes_less(key, ranges[i].0.as_slice()) {
            return Some(i);
        }
    }
    None
}

/// Whether the two regions overlap.
fn regions_overlap(r1: &Region, r2: &Region) -> (r: bool)
    ensures
        r == spec_regions_overlap(r1@, r2@),
{
    if key_in_region(r1.start_key.as_slice(), r2) {
        return true;
    }
    if key_in_region(r2.start_key.as_slice(), r1) {
        return true;
    }
    false
}

/// The regions known to a store: a table by id and an index by start key.
pub struct StoreMeta {
    regions: BTreeMap<u64, Region>,
    region_ranges: Vec<(Vec<u8>, u64)>,
}

impl View for StoreMeta {
    type V = StoreMetaView;

    closed spec fn view(&self) -> StoreMetaView {
        StoreMetaView {
            regions: self.regions@.map_values(|r: Region| r@),
            ranges: ranges_view(self.region_ranges@),
        }
    }
}

impl StoreMeta {
    pub open spec fn wf(&self) -> bool {
        self@.wf()
    }

    /// A store with no region.
    pub fn new() -> (r: Self)
        ensures
            r.wf(),
            r@.regions == Map::<u64, RegionView>::empty(),
            r@.ranges == Seq::<RangeView>::empty(),
    {
        let r = StoreMeta { regions: BTreeMap::new(), region_ranges: Vec::new() };
        assert(r@.regions =~= Map::<u64, RegionView>::empty());
        assert(r@.ranges =~= Seq::<RangeView>::empty());
        r
    }

    /// The region with id `region_id`, if any.
    pub fn get_region(&self, region_id: u64) -> (r: Option<Region>)
        ensures
            match r {
                Some(x) => self@.regions.contains_key(region_id) && x@ == self@.regions[region_id],
                None => !self@.regions.contains_key(region_id),
            },
    {
        match self.regions.get(&region_id) {
            Some(region) => Some(region.clone()),
            None => None,
        }
    }

    /// Records `region` under its id and indexes it by its start key,
    /// replacing any earlier entry for that id.
    pub fn set_region(&mut self, region: Region)
        requires
            old(self).wf(),
        ensures
            final(self).wf(),
            final(self)@ == old(self)@.set(region@),
    {
        let ghost old_view = self@;
        let ghost rv = region@;
        let id = region.id;
        let start = bytes_to_vec(region.start_key.as_slice());
        self.regions.insert(id, region);
        let mut kept = ranges_without(&self.region_ranges, id);
        let p = range_insert_pos(&kept, start.as_slice());
        proof {
            lemma_insert_pos(ranges_view(kept@), start@);
        }
        let ghost before = kept@;
        kept.insert(p, (start, id));
        self.region_ranges = kept;
        proof {
            assert(self@.regions =~= old_view.regions.insert(id, rv));
            assert(ranges_view(self.region_ranges@) =~= ranges_view(before).insert(
                p as int,
                (rv.start_key, id),
            ));
            lemma_set_region_wf(old_view, rv);
        }
    }

    /// The region whose entry is the last with a start key at most `key`,
    /// if `key` lies in it.
    pub fn find_region_by_key(&self, key: &[u8]) -> (r: Option<Region>)
        ensures
            opt_region_view(r) == self@.region_for_key(key@),
    {
        proof {
            lemma_last_le_index(self@.ranges, key@);
        }
        match range_last_le(&self.region_ranges, key) {
            None => None,
            Some(i) => {
                let id = self.region_ranges[i].1;
                match self.regions.get(&id) {
                    Some(region) => {
                        if key_in_region(key, region) {
                            Some(region.clone())
                        } else {
                            None
                        }
                    },
                    None => None,
                }
            },
        }
    }

    /// Forgets the region with id `region_id`.
    pub fn remove_region(&mut self, region_id: u64)
        requires
            old(self).wf(),
        ensures
            final(self).wf(),
            final(self)@ == old(self)@.without(region_id),
    {
        let ghost old_view = self@;
        self.regions.remove(&region_id);
        let kept = ranges_without(&self.region_ranges, region_id);
        self.region_ranges = kept;
        proof {
            assert(self@.regions =~= old_view.regions.remove(region_id));
            lemma_remove_region_wf(old_view, region_id);
        }
    }

    /// The regions that overlap `region`, in start-key order.
    pub fn get_overlap_regions(&self, region: &Region) -> (r: Vec<Region>)
        ensures
            regions_view(r@) == self@.overlaps_in(self@.ranges, region@),
    {
        let ghost s = self@.ranges;
        let mut overlaps: Vec<Region> = Vec::new();
        let mut i: usize = 0;
        while i < self.region_ranges.len()
            invariant
                0 <= i <= s.len(),
                s == self@.ranges,
                s.len() == self.region_ranges@.len(),
                regions_view(overlaps@) == self@.overlaps_in(s.take(i as int), region@),
            decreases s.len() - i,
        {
            proof {
                assert(s.take(i + 1).drop_last() =~= s.take(i as int));
                assert(s.take(i + 1).last() == s[i as int]);
            }
            let id = self.region_ranges[i].1;
            match self.regions.get(&id) {
                Some(existing) => {
                    if regions_overlap(region, existing) {
                        let ghost before = overlaps@;
                        overlaps.push(existing.clone());
                        proof {
                            assert(regions_view(overlaps@) =~= regions_view(before).push(
                                existing@,
                            ));
                        }
                    }
                },
                None => {},
            }
            i += 1;
        }
        proof {
            assert(s.take(s.len() as int) =~= s);
        }
        overlaps
    }

    /// Every region, in increasing order of id.
    pub fn get_all_regions(&self) -> (r: Vec<Region>)
        requires
            self.wf(),
        ensures
            r@.len() == self@.regions.dom().len(),
            forall|i: int|
                0 <= i < r@.len() ==> self@.regions.contains_key(#[trigger] r@[i].id)
                    && r@[i]@ == self@.regions[r@[i].id],
            forall|i: int, j: int| 0 <= i < j < r@.len() ==> #[trigger] r@[i].id < #[trigger] r@[j].id,
            forall|id: u64|
                #[trigger] self@.regions.contains_key(id) ==> exists|i: int|
                    0 <= i < r@.len() && #[trigger] r@[i].id == id,
    {
        let ghost ks = IteratorSpec::remaining(&spec_keys_iter(&self.regions));
        proof {
            lemma_keys_increasing(ks);
            assert(self@.regions.dom() =~= self.regions@.dom());
        }
        let mut out: Vec<Region> = Vec::new();
        for k in it: self.regions.keys()
            invariant
                out@.len() == it.index(),
                self.wf(),
                it.seq() == ks,
                forall|i: int|
                    0 <= i < out@.len() ==> self.regions@.contains_key(*it.seq()[i])
                        && out@[i]@ == self.regions@[*it.seq()[i]]@ && out@[i].id == *it.seq()[i],
        {
            match self.regions.get(k) {
                Some(region) => {
                    assert(self@.regions.contains_key(*k));
                    out.push(region.clone());
                },
                None => {},
            }
        }
        proof {
            assert(ks.len() == self.regions@.dom().len());
            assert(out@.len() == ks.len());
            assert(self@.regions.dom() == self.regions@.dom());
            assert forall|i: int| 0 <= i < out@.len() implies self@.regions.contains_key(
                #[trigger] out@[i].id,
            ) && out@[i]@ == self@.regions[out@[i].id] by {
                assert(out@[i].id == *ks[i]);
                assert(self.regions@.dom().contains(out@[i].id));
            }
            assert forall|i: int, j: int| 0 <= i < j < out@.len() implies #[trigger] out@[i].id
                < #[trigger] out@[j].id by {
                assert(out@[i].id == *ks[i] && out@[j].id == *ks[j]);
            }
            assert forall|id: u64| #[trigger] self@.regions.contains_key(id) implies exists|i: int|
                0 <= i < out@.len() && #[trigger] out@[i].id == id by {
                assert(ks.unref().to_set().contains(id));
                let j = choose|j: int| 0 <= j < ks.unref().len() && ks.unref()[j] == id;
                assert(out@[j].id == id);
            }
        }
        out
    }
}

} // verus!
