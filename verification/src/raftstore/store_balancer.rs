use vstd::prelude::*;
use crate::clock::unix_now_nanos;
use crate::proto::metapb::Store;
use crate::raft::progress::{
    distinct_keys, has_key, inserted, key_pos, lemma_key_pos, value_of, IdMap,
};

verus! {

/// The longest duration, `Duration::MAX`, in nanoseconds.
pub const DURATION_MAX_NANOS: u128 = 18446744073709551615999999999;

/// Load reported by a store. Times are nanoseconds since the Unix epoch.
#[derive(Debug, Clone, Copy, PartialEq, Eq, Structural)]
pub struct StoreLoad {
    pub store_id: u64,
    pub region_count: usize,
    pub leader_count: usize,
    pub region_size: u64,
    pub leader_size: u64,
    pub last_update: u128,
    pub is_up: bool,
}

impl StoreLoad {
    /// The load is older than `max_age` at time `now`; a report from the
    /// future counts as infinitely old, so only the longest duration
    /// tolerates it.
    pub open spec fn stale_at(self, now: u128, max_age: u128) -> bool {
        if now < self.last_update {
            max_age < DURATION_MAX_NANOS
        } else {
            now - self.last_update > max_age
        }
    }

    /// The load score scaled by 10^6: one per region plus 10^-6 per byte of
    /// region data. A lower score means a lighter store.
    pub open spec fn spec_load_key(self) -> int {
        self.region_count * 1_000_000 + self.region_size
    }

    /// An empty, live load for `store_id`, stamped with the current time.
    pub fn new(store_id: u64) -> (r: Self)
        ensures
            r.store_id == store_id,
            r.region_count == 0,
            r.leader_count == 0,
            r.region_size == 0,
            r.leader_size == 0,
            r.is_up,
    {
        StoreLoad {
            store_id,
            region_count: 0,
            leader_count: 0,
            region_size: 0,
            leader_size: 0,
            last_update: unix_now_nanos(),
            is_up: true,
        }
    }

    /// Replaces the counters and stamps the load with the current time.
    pub fn update(
        &mut self,
        region_count: usize,
        leader_count: usize,
        region_size: u64,
        leader_size: u64,
    )
        ensures
            final(self).store_id == old(self).store_id,
            final(self).is_up == old(self).is_up,
            final(self).region_count == region_count,
            final(self).leader_count == leader_count,
            final(self).region_size == region_size,
            final(self).leader_size == leader_size,
    {
        self.region_count = region_count;
        self.leader_count = leader_count;
        self.region_size = region_size;
        self.leader_size = leader_size;
        self.last_update = unix_now_nanos();
    }

    /// Whether the load is older than `max_age` at time `now`.
    pub fn is_stale_at(&self, now: u128, max_age: u128) -> (r: bool)
        ensures
            r == self.stale_at(now, max_age),
    {
        if now < self.last_update {
            max_age < DURATION_MAX_NANOS
        } else {
            now - self.last_update > max_age
        }
    }

    /// Whether the load is older than `max_age` now.
    pub fn is_stale(&self, max_age: u128) -> (r: bool)
        ensures
            exists|now: u128| r == #[trigger] self.stale_at(now, max_age),
    {
        let now = unix_now_nanos();
        let r = self.is_stale_at(now, max_age);
        assert(r == self.stale_at(now, max_age));
        r
    }

    /// The load score scaled by 10^6, computed exactly.
    pub fn load_key(&self) -> (r: u128)
        ensures
            r == self.spec_load_key(),
    {
        self.region_count as u128 * 1_000_000 + self.region_size as u128
    }
}

/// The loads of `loads` that are up and fresh at time `now`, in order.
pub open spec fn available_in(loads: Seq<(u64, StoreLoad)>, now: u128, max_age: u128) -> Seq<
    StoreLoad,
>
    decreases loads.len(),
{
    if loads.len() == 0 {
        Seq::empty()
    } else {
        let before = available_in(loads.drop_last(), now, max_age);
        let l = loads.last().1;
        if l.is_up && !l.stale_at(now, max_age) {
            before.push(l)
        } else {
            before
        }
    }
}

/// The pairs of `loads` whose load is fresh at time `now`, in order.
pub open spec fn fresh_in(loads: Seq<(u64, StoreLoad)>, now: u128, max_age: u128) -> Seq<
    (u64, StoreLoad),
>
    decreases loads.len(),
{
    if loads.len() == 0 {
        Seq::empty()
    } else {
        let before = fresh_in(loads.drop_last(), now, max_age);
        if !loads.last().1.stale_at(now, max_age) {
            before.push(loads.last())
        } else {
            before
        }
    }
}

/// The loads are ordered from the lightest to the heaviest.
pub open spec fn sorted_by_load(s: Seq<StoreLoad>) -> bool {
    forall|i: int, j: int|
        0 <= i <= j < s.len() ==> #[trigger] s[i].spec_load_key() <= #[trigger] s[j].spec_load_key()
}

/// Sum of the region counts of `s`.
pub open spec fn total_regions(s: Seq<StoreLoad>) -> int
    decreases s.len(),
{
    if s.len() == 0 {
        0
    } else {
        total_regions(s.drop_last()) + s.last().region_count
    }
}

/// Some store of `s` holds more than 1.2 times the average region count.
pub open spec fn balance_needed(s: Seq<StoreLoad>) -> bool {
    exists|i: int|
        0 <= i < s.len() && 5 * (#[trigger] s[i]).region_count * s.len() > 6 * total_regions(s)
}

/// The ids of the stores of `s`, in order.
pub open spec fn store_ids(s: Seq<StoreLoad>) -> Seq<u64> {
    s.map_values(|l: StoreLoad| l.store_id)
}

/// The load a store has after a report of these counters at time `now`:
/// a known store keeps its state, a new one is up.
pub open spec fn reported_load(
    prev: Option<StoreLoad>,
    store_id: u64,
    region_count: usize,
    leader_count: usize,
    region_size: u64,
    leader_size: u64,
    now: u128,
) -> StoreLoad {
    StoreLoad {
        store_id,
        region_count,
        leader_count,
        region_size,
        leader_size,
        last_update: now,
        is_up: match prev {
            Some(l) => l.is_up,
            None => true,
        },
    }
}

/// Mathematical value of a balancer.
pub struct StoreBalancerView {
    pub loads: Seq<(u64, StoreLoad)>,
    pub max_load_age: u128,
    /// The latest time the balancer has seen: no load is stamped later.
    pub clock: u128,
}

impl StoreBalancerView {
    /// Each store has one load, filed under its own id.
    pub open spec fn wf(self) -> bool {
        &&& distinct_keys(self.loads)
        &&& forall|i: int| 0 <= i < self.loads.len() ==> (#[trigger] self.loads[i]).1.store_id
            == self.loads[i].0
        &&& forall|i: int| 0 <= i < self.loads.len() ==> (#[trigger] self.loads[i]).1.last_update
            <= self.clock
    }

    /// `list` is an answer of `get_available_stores` at time `now`: the live,
    /// fresh loads, lightest first (stores of equal score in any order).
    pub open spec fn is_available_list(self, now: u128, list: Seq<StoreLoad>) -> bool {
        &&& sorted_by_load(list)
        &&& list.to_multiset() == available_in(self.loads, now, self.max_load_age).to_multiset()
    }
}

/// Keeps the load of every store and picks the lightest stores for new
/// regions. Times and load ages are in nanoseconds. The balancer's time
/// never goes back: it judges freshness at the later of the wall clock and
/// the latest time it has stamped, so a load it stamped never counts as
/// coming from the future.
pub struct StoreBalancer {
    loads: IdMap<StoreLoad>,
    max_load_age: u128,
    clock: u128,
}

impl View for StoreBalancer {
    type V = StoreBalancerView;

    closed spec fn view(&self) -> StoreBalancerView {
        StoreBalancerView { loads: self.loads@, max_load_age: self.max_load_age, clock: self.clock }
    }
}

/// Sorts `v` from the lightest to the heaviest load, keeping the order of
/// loads of equal score.
fn sort_by_load(v: &mut Vec<StoreLoad>)
    ensures
        sorted_by_load(final(v)@),
        final(v)@.to_multiset() == old(v)@.to_multiset(),
        final(v)@.len() == old(v)@.len(),
{
    let n: usize = v.len();
    if n == 0 {
        return ;
    }
    let mut i: usize = 1;
    while i < n
        invariant
            n == v@.len(),
            1 <= i <= n,
            forall|a: int, b: int|
                0 <= a <= b < i ==> #[trigger] v@[a].spec_load_key() <= #[trigger] v@[b].spec_load_key(),
            v@.to_multiset() == old(v)@.to_multiset(),
        decreases n - i,
    {
        let mut j: usize = i;
        while j > 0 && v[j - 1].load_key() > v[j].load_key()
            invariant
                n == v@.len(),
                0 <= j <= i < n,
                v@.to_multiset() == old(v)@.to_multiset(),
                forall|a: int, b: int|
                    0 <= a <= b <= i && a != j && b != j ==> #[trigger] v@[a].spec_load_key()
                        <= #[trigger] v@[b].spec_load_key(),
                forall|b: int| j < b <= i ==> v@[j as int].spec_load_key() <= #[trigger] v@[b].spec_load_key(),
            decreases j,
        {
            let ghost before = v@;
            let x = v[j - 1];
            let y = v[j];
            v.set(j - 1, y);
            v.set(j, x);
            proof {
                let s1 = before.update(j - 1, y);
                assert(v@ =~= s1.update(j as int, x));
                vstd::seq_lib::to_multiset_update(before, j - 1, y);
                vstd::seq_lib::to_multiset_update(s1, j as int, x);
                broadcast use vstd::multiset::group_multiset_axioms;
                broadcast use vstd::seq_lib::group_to_multiset_ensures;

                assert(before.contains(x));
                assert(before.contains(y));
                assert(s1[j as int] == y);
                let m = before.to_multiset();
                assert(m.count(x) > 0);
                assert(m.insert(y).remove(x).insert(x).remove(y) =~= m);
            }
            j -= 1;
        }
        i += 1;
    }
}

/// The loads `available_in` keeps are up, fresh, and taken from `loads`.
pub proof fn lemma_available_in(loads: Seq<(u64, StoreLoad)>, now: u128, max_age: u128)
    ensures
        forall|l: StoreLoad|
            #[trigger] available_in(loads, now, max_age).contains(l) ==> l.is_up && !l.stale_at(
                now,
                max_age,
            ) && exists|i: int| 0 <= i < loads.len() && loads[i].1 == l,
    decreases loads.len(),
{
    if loads.len() > 0 {
        let init = loads.drop_last();
        lemma_available_in(init, now, max_age);
        let before = available_in(init, now, max_age);
        assert forall|l: StoreLoad| #[trigger]
            available_in(loads, now, max_age).contains(l) implies l.is_up && !l.stale_at(
            now,
            max_age,
        ) && exists|i: int| 0 <= i < loads.len() && loads[i].1 == l by {
            if before.contains(l) {
                let i = choose|i: int| 0 <= i < init.len() && init[i].1 == l;
                assert(loads[i] == init[i]);
            } else {
                assert(l == loads.last().1);
                assert(loads[loads.len() - 1] == loads.last());
            }
        }
    }
}

/// The pairs `fresh_in` keeps are fresh and taken from `loads`.
proof fn lemma_fresh_in(loads: Seq<(u64, StoreLoad)>, now: u128, max_age: u128)
    ensures
        forall|j: int|
            0 <= j < fresh_in(loads, now, max_age).len() ==> !(#[trigger] fresh_in(
                loads,
                now,
                max_age,
            )[j]).1.stale_at(now, max_age) && loads.contains(fresh_in(loads, now, max_age)[j]),
    decreases loads.len(),
{
    if loads.len() > 0 {
        let init = loads.drop_last();
        lemma_fresh_in(init, now, max_age);
        let before = fresh_in(init, now, max_age);
        let r = fresh_in(loads, now, max_age);
        assert forall|j: int| 0 <= j < r.len() implies !(#[trigger] r[j]).1.stale_at(now, max_age)
            && loads.contains(r[j]) by {
            if j < before.len() {
                assert(r[j] == before[j]);
                let i = choose|i: int| 0 <= i < init.len() && init[i] == before[j];
                assert(loads[i] == init[i]);
            } else {
                assert(r[j] == loads.last());
                assert(loads[loads.len() - 1] == loads.last());
            }
        }
    }
}

/// `fresh_in` keeps exactly the fresh pairs, and keeps keys distinct.
proof fn lemma_fresh_in_members(loads: Seq<(u64, StoreLoad)>, now: u128, max_age: u128)
    ensures
        forall|p: (u64, StoreLoad)|
            #[trigger] fresh_in(loads, now, max_age).contains(p) <==> loads.contains(p)
                && !p.1.stale_at(now, max_age),
        distinct_keys(loads) ==> distinct_keys(fresh_in(loads, now, max_age)),
    decreases loads.len(),
{
    if loads.len() > 0 {
        let init = loads.drop_last();
        lemma_fresh_in_members(init, now, max_age);
        let before = fresh_in(init, now, max_age);
        let r = fresh_in(loads, now, max_age);
        let last = loads.last();
        assert(loads =~= init.push(last));
        assert forall|p: (u64, StoreLoad)| #[trigger] r.contains(p) <==> loads.contains(p)
            && !p.1.stale_at(now, max_age) by {
            if r.contains(p) {
                let j = choose|j: int| 0 <= j < r.len() && r[j] == p;
                if j < before.len() {
                    assert(r[j] == before[j]);
                    assert(before.contains(p));
                    let i = choose|i: int| 0 <= i < init.len() && init[i] == p;
                    assert(loads[i] == p);
                } else {
                    assert(loads[loads.len() - 1] == p);
                }
            }
            if loads.contains(p) && !p.1.stale_at(now, max_age) {
                let i = choose|i: int| 0 <= i < loads.len() && loads[i] == p;
                if i < init.len() {
                    assert(init[i] == p);
                    assert(init.contains(p));
                    assert(before.contains(p));
                    let j = choose|j: int| 0 <= j < before.len() && before[j] == p;
                    assert(r[j] == p);
                } else {
                    assert(r[r.len() - 1] == p);
                }
            }
        }
        if distinct_keys(loads) {
            assert(distinct_keys(init)) by {
                assert forall|a: int, b: int|
                    0 <= a < init.len() && 0 <= b < init.len() && a != b implies init[a].0
                    != init[b].0 by {
                    assert(init[a] == loads[a] && init[b] == loads[b]);
                }
            }
            if !last.1.stale_at(now, max_age) {
                assert forall|a: int, b: int|
                    0 <= a < r.len() && 0 <= b < r.len() && a != b implies r[a].0 != r[b].0 by {
                    if a < before.len() && b < before.len() {
                        assert(r[a] == before[a] && r[b] == before[b]);
                    } else {
                        let x = if a < before.len() {
                            a
                        } else {
                            b
                        };
                        assert(r[x] == before[x]);
                        assert(before.contains(before[x]));
                        let i = choose|i: int| 0 <= i < init.len() && init[i] == before[x];
                        assert(loads[i] == init[i]);
                        assert(loads[loads.len() - 1] == last);
                    }
                }
            }
        }
    }
}

/// A key of `s` maps to a value exactly when the pair is in `s`.
proof fn lemma_value_of_contains(s: Seq<(u64, StoreLoad)>, k: u64, v: StoreLoad)
    requires
        distinct_keys(s),
    ensures
        value_of(s, k) == Some(v) <==> s.contains((k, v)),
{
    if s.contains((k, v)) {
        let i = choose|i: int| 0 <= i < s.len() && s[i] == (k, v);
        lemma_key_pos(s, i);
    }
    if value_of(s, k) == Some(v) {
        let i = key_pos(s, k);
        assert(s[i] == (k, v));
    }
}

/// Forgetting stale loads works key by key: a store keeps its load exactly
/// when the load is fresh, and the loads kept are unchanged. Doing it
/// twice at the same instant changes nothing more.
pub proof fn lemma_cleanup_per_store(
    loads: Seq<(u64, StoreLoad)>,
    now: u128,
    max_age: u128,
    id: u64,
)
    requires
        distinct_keys(loads),
    ensures
        value_of(fresh_in(loads, now, max_age), id) == match value_of(loads, id) {
            Some(l) => if l.stale_at(now, max_age) {
                None
            } else {
                Some(l)
            },
            None => None,
        },
        fresh_in(fresh_in(loads, now, max_age), now, max_age) == fresh_in(loads, now, max_age),
{
    let f = fresh_in(loads, now, max_age);
    lemma_fresh_in_members(loads, now, max_age);
    lemma_fresh_in(loads, now, max_age);
    assert forall|j: int| 0 <= j < f.len() implies !(#[trigger] f[j]).1.stale_at(now, max_age) by {}
    lemma_fresh_in_keeps_fresh(f, now, max_age);
    match value_of(loads, id) {
        Some(l) => {
            lemma_value_of_contains(loads, id, l);
            lemma_value_of_contains(f, id, l);
            if l.stale_at(now, max_age) {
                if has_key(f, id) {
                    let j = key_pos(f, id);
                    assert(f.contains(f[j]));
                    lemma_value_of_contains(loads, id, f[j].1);
                }
            }
        },
        None => {
            if has_key(f, id) {
                let j = key_pos(f, id);
                assert(f.contains(f[j]));
                lemma_value_of_contains(loads, id, f[j].1);
            }
        },
    }
}

/// Loads that are all fresh are kept as they are.
proof fn lemma_fresh_in_keeps_fresh(s: Seq<(u64, StoreLoad)>, now: u128, max_age: u128)
    requires
        forall|j: int| 0 <= j < s.len() ==> !(#[trigger] s[j]).1.stale_at(now, max_age),
    ensures
        fresh_in(s, now, max_age) == s,
    decreases s.len(),
{
    if s.len() > 0 {
        let init = s.drop_last();
        assert forall|j: int| 0 <= j < init.len() implies !(#[trigger] init[j]).1.stale_at(
            now,
            max_age,
        ) by {
            assert(init[j] == s[j]);
        }
        lemma_fresh_in_keeps_fresh(init, now, max_age);
        assert(s[s.len() - 1] == s.last());
        assert(s =~= init.push(s.last()));
    }
}

/// The region count of every load of `s` is at most their sum, and the sum
/// of the first `i` loads is at most `i * usize::MAX`.
proof fn lemma_total_regions_bound(s: Seq<StoreLoad>)
    ensures
        0 <= total_regions(s) <= s.len() * usize::MAX,
    decreases s.len(),
{
    if s.len() > 0 {
        lemma_total_regions_bound(s.drop_last());
        assert(total_regions(s) <= s.len() * usize::MAX) by (nonlinear_arith)
            requires
                total_regions(s) == total_regions(s.drop_last()) + s.last().region_count,
                total_regions(s.drop_last()) <= s.drop_last().len() * usize::MAX,
                s.drop_last().len() + 1 == s.len(),
                s.last().region_count <= usize::MAX,
        ;
    }
}

/// `5 c n > 6 t` decided from the quotient and remainder of `t / n`
/// without forming the product `c n`.
proof fn lemma_exceeds_threshold(c: int, n: int, t: int, q: int, rem: int)
    requires
        n > 0,
        c >= 0,
        q >= 0,
        t == q * n + rem,
        0 <= rem < n,
    ensures
        (5 * c * n > 6 * t) <==> (5 * c > 6 * q && (5 * c - 6 * q >= 6 || n * (5 * c - 6 * q)
            > 6 * rem)),
{
    let d = 5 * c - 6 * q;
    assert(5 * c * n - 6 * t == n * d - 6 * rem) by (nonlinear_arith)
        requires
            t == q * n + rem,
            d == 5 * c - 6 * q,
    ;
    if d <= 0 {
        assert(n * d <= 0) by (nonlinear_arith)
            requires
                n > 0,
                d <= 0,
        ;
    } else if d >= 6 {
        assert(n * d >= 6 * n) by (nonlinear_arith)
            requires
                n > 0,
                d >= 6,
        ;
    }
}

/// Whether some store of `stores` holds more than 1.2 times the average
/// region count, decided exactly.
fn stores_need_balance(stores: &Vec<StoreLoad>) -> (r: bool)
    ensures
        r == balance_needed(stores@),
{
    let n: usize = stores.len();
    if n == 0 {
        return false;
    }
    let ghost s = stores@;
    let mut total: u128 = 0;
    let mut i: usize = 0;
    while i < n
        invariant
            n == s.len(),
            s == stores@,
            0 <= i <= n,
            total == total_regions(s.take(i as int)),
        decreases n - i,
    {
        proof {
            assert(s.take(i + 1).drop_last() =~= s.take(i as int));
            lemma_total_regions_bound(s.take(i as int));
            assert(i * usize::MAX + usize::MAX <= u128::MAX) by (nonlinear_arith)
                requires
                    i < usize::MAX,
                    usize::MAX < 0x1_0000_0000_0000_0000,
            ;
        }
        total = total + stores[i].region_count as u128;
        i += 1;
    }
    proof {
        assert(s.take(n as int) =~= s);
        lemma_total_regions_bound(s);
    }
    let n128 = n as u128;
    let q = total / n128;
    let rem = total % n128;
    proof {
        vstd::arithmetic::div_mod::lemma_fundamental_div_mod(total as int, n128 as int);
        assert(q * n128 == n128 * q) by (nonlinear_arith);
        assert(q <= usize::MAX) by (nonlinear_arith)
            requires
                total == q * n128 + rem,
                rem >= 0,
                total <= n128 * usize::MAX,
                n128 > 0,
        ;
    }
    let mut j: usize = 0;
    while j < n
        invariant
            n == s.len(),
            s == stores@,
            n128 == n,
            0 <= j <= n,
            total == total_regions(s),
            total == q * n128 + rem,
            0 <= rem < n128,
            q <= usize::MAX,
            forall|k: int| 0 <= k < j ==> !(5 * (#[trigger] s[k]).region_count * s.len() > 6 * total),
        decreases n - j,
    {
        let c = stores[j].region_count as u128;
        proof {
            lemma_exceeds_threshold(c as int, n as int, total as int, q as int, rem as int);
        }
        let exceeds = if 5 * c > 6 * q {
            let d = 5 * c - 6 * q;
            if d >= 6 {
                true
            } else {
                assert(n128 * d <= n128 * 5) by (nonlinear_arith)
                    requires
                        d <= 5,
                ;
                n128 * d > 6 * rem
            }
        } else {
            false
        };
        if exceeds {
            assert(5 * s[j as int].region_count * s.len() > 6 * total_regions(s));
            return true;
        }
        j += 1;
    }
    false
}

impl StoreBalancer {
    pub open spec fn wf(&self) -> bool {
        self@.wf()
    }

    /// A balancer with no load, for which a load older than `max_load_age`
    /// nanoseconds is stale.
    pub fn new(max_load_age: u128) -> (r: Self)
        ensures
            r.wf(),
            r@.loads == Seq::<(u64, StoreLoad)>::empty(),
            r@.max_load_age == max_load_age,
            r@.clock == 0,
    {
        StoreBalancer { loads: IdMap::new(), max_load_age, clock: 0 }
    }

    /// Records the counters reported by `store_id`, creating its load when
    /// the store is new.
    pub fn update_store_load(
        &mut self,
        store_id: u64,
        region_count: usize,
        leader_count: usize,
        region_size: u64,
        leader_size: u64,
    )
        requires
            old(self).wf(),
        ensures
            final(self).wf(),
            final(self)@.max_load_age == old(self)@.max_load_age,
            exists|now: u128|
                final(self)@.loads == inserted(
                    old(self)@.loads,
                    store_id,
                    #[trigger] reported_load(
                        value_of(old(self)@.loads, store_id),
                        store_id,
                        region_count,
                        leader_count,
                        region_size,
                        leader_size,
                        now,
                    ),
                ) && final(self)@.clock == (if now > old(self)@.clock {
                    now
                } else {
                    old(self)@.clock
                }),
    {
        let ghost prev = value_of(self@.loads, store_id);
        let mut load = match self.loads.get(store_id) {
            Some(l) => l,
            None => StoreLoad::new(store_id),
        };
        proof {
            if prev is Some {
                let k = key_pos(self@.loads, store_id);
                assert(self@.loads[k].1.store_id == store_id);
            }
        }
        load.update(region_count, leader_count, region_size, leader_size);
        if load.last_update > self.clock {
            self.clock = load.last_update;
        }
        let ghost before = self@;
        self.loads.insert(store_id, load);
        proof {
            lemma_inserted_stamps(before, store_id, load);
            assert(load == reported_load(
                prev,
                store_id,
                region_count,
                leader_count,
                region_size,
                leader_size,
                load.last_update,
            ));
            lemma_inserted_wf(self@, store_id, load);
        }
    }

    /// Records the region and leader counts of a store heartbeat; sizes are
    /// not reported there and count as zero.
    pub fn update_from_store_heartbeat(&mut self, store: &Store, region_count: u64, leader_count: u64)
        requires
            old(self).wf(),
        ensures
            final(self).wf(),
            final(self)@.max_load_age == old(self)@.max_load_age,
            exists|now: u128|
                final(self)@.loads == inserted(
                    old(self)@.loads,
                    store.id,
                    #[trigger] reported_load(
                        value_of(old(self)@.loads, store.id),
                        store.id,
                        region_count as usize,
                        leader_count as usize,
                        0,
                        0,
                        now,
                    ),
                ) && final(self)@.clock == (if now > old(self)@.clock {
                    now
                } else {
                    old(self)@.clock
                }),
    {
        self.update_store_load(store.id, region_count as usize, leader_count as usize, 0, 0);
    }

    /// Marks a known store up or down; an unknown store is ignored.
    pub fn set_store_state(&mut self, store_id: u64, is_up: bool)
        requires
            old(self).wf(),
        ensures
            final(self).wf(),
            final(self)@.max_load_age == old(self)@.max_load_age,
            final(self)@.loads == match value_of(old(self)@.loads, store_id) {
                Some(l) => inserted(old(self)@.loads, store_id, StoreLoad { is_up, ..l }),
                None => old(self)@.loads,
            },
            final(self)@.clock == old(self)@.clock,
    {
        match self.loads.get(store_id) {
            Some(l) => {
                let ghost old_view = self@;
                proof {
                    let k = key_pos(self@.loads, store_id);
                    assert(self@.loads[k].1.store_id == store_id);
                }
                let updated = StoreLoad { is_up, ..l };
                self.loads.insert(store_id, updated);
                proof {
                    lemma_inserted_wf(old_view, store_id, updated);
                    lemma_inserted_stamps(old_view, store_id, updated);
                }
            },
            None => {},
        }
    }

    /// The live loads that are fresh at time `now`, lightest first.
    pub fn get_available_stores_at(&self, now: u128) -> (r: Vec<StoreLoad>)
        ensures
            self@.is_available_list(now, r@),
    {
        let ghost loads = self@.loads;
        let mut out: Vec<StoreLoad> = Vec::new();
        let mut i: usize = 0;
        while i < self.loads.len()
            invariant
                loads == self@.loads,
                0 <= i <= loads.len(),
                out@ == available_in(loads.take(i as int), now, self.max_load_age),
            decreases loads.len() - i,
        {
            proof {
                assert(loads.take(i + 1).drop_last() =~= loads.take(i as int));
                assert(loads.take(i + 1).last() == loads[i as int]);
            }
            let (_, l) = self.loads.get_at(i);
            if l.is_up && !l.is_stale_at(now, self.max_load_age) {
                out.push(l);
            }
            i += 1;
        }
        proof {
            assert(loads.take(loads.len() as int) =~= loads);
        }
        sort_by_load(&mut out);
        out
    }

    /// The live loads that are fresh now, lightest first.
    pub fn get_available_stores(&self) -> (r: Vec<StoreLoad>)
        ensures
            exists|now: u128|
                self@.clock <= now && (now <= self@.clock || now <= DURATION_MAX_NANOS)
                    && #[trigger] self@.is_available_list(now, r@),
    {
        let now = self.current_time();
        self.get_available_stores_at(now)
    }

    /// The id of the lightest live, fresh store, if any.
    pub fn select_best_store(&self) -> (r: Option<u64>)
        ensures
            exists|now: u128, list: Seq<StoreLoad>|
                self@.clock <= now && (now <= self@.clock || now <= DURATION_MAX_NANOS)
                    && #[trigger] self@.is_available_list(now, list) && r == (if list.len() == 0 {
                    None
                } else {
                    Some(list[0].store_id)
                }),
    {
        let stores = self.get_available_stores();
        if stores.len() == 0 {
            None
        } else {
            Some(stores[0].store_id)
        }
    }

    /// The ids of up to `count` live, fresh stores, lightest first.
    pub fn select_stores(&self, count: usize) -> (r: Vec<u64>)
        ensures
            exists|now: u128, list: Seq<StoreLoad>|
                self@.clock <= now && (now <= self@.clock || now <= DURATION_MAX_NANOS)
                    && #[trigger] self@.is_available_list(now, list) && r@ == store_ids(list).take(
                    if count < list.len() {
                        count as int
                    } else {
                        list.len() as int
                    },
                ),
    {
        let stores = self.get_available_stores();
        let mut ids: Vec<u64> = Vec::new();
        let mut i: usize = 0;
        while i < stores.len() && i < count
            invariant
                0 <= i <= stores@.len(),
                i <= count,
                ids@ == store_ids(stores@).take(i as int),
            decreases stores@.len() - i,
        {
            ids.push(stores[i].store_id);
            proof {
                assert(store_ids(stores@).take(i + 1) =~= store_ids(stores@).take(i as int).push(
                    stores@[i as int].store_id,
                ));
            }
            i += 1;
        }
        ids
    }

    /// The load of `store_id`, if known.
    pub fn get_store_load(&self, store_id: u64) -> (r: Option<StoreLoad>)
        requires
            self.wf(),
        ensures
            r == value_of(self@.loads, store_id),
    {
        self.loads.get(store_id)
    }

    /// Whether some live, fresh store holds more than 1.2 times the average
    /// region count of the live, fresh stores.
    pub fn needs_balance(&self) -> (r: bool)
        ensures
            exists|now: u128, list: Seq<StoreLoad>|
                self@.clock <= now && (now <= self@.clock || now <= DURATION_MAX_NANOS)
                    && #[trigger] self@.is_available_list(now, list) && r == balance_needed(list),
    {
        let stores = self.get_available_stores();
        stores_need_balance(&stores)
    }

    /// Forgets the loads that are stale at time `now`.
    pub fn cleanup_stale_loads_at(&mut self, now: u128)
        requires
            old(self).wf(),
        ensures
            final(self).wf(),
            final(self)@.max_load_age == old(self)@.max_load_age,
            final(self)@.loads == fresh_in(old(self)@.loads, now, old(self)@.max_load_age),
            final(self)@.clock == old(self)@.clock,
    {
        let ghost loads = self@.loads;
        let max_age = self.max_load_age;
        let mut kept: IdMap<StoreLoad> = IdMap::new();
        let mut i: usize = 0;
        while i < self.loads.len()
            invariant
                loads == self@.loads,
                self@.wf(),
                max_age == self.max_load_age,
                0 <= i <= loads.len(),
                kept@ == fresh_in(loads.take(i as int), now, max_age),
                distinct_keys(kept@),
                forall|j: int| #![trigger kept@[j]]
                    0 <= j < kept@.len() ==> exists|m: int|
                        0 <= m < i && #[trigger] loads[m] == kept@[j],
            decreases loads.len() - i,
        {
            proof {
                assert(loads.take(i + 1).drop_last() =~= loads.take(i as int));
                assert(loads.take(i + 1).last() == loads[i as int]);
            }
            let (k, l) = self.loads.get_at(i);
            if !l.is_stale_at(now, max_age) {
                proof {
                    if has_key(kept@, k) {
                        let j = choose|j: int| 0 <= j < kept@.len() && kept@[j].0 == k;
                        let m = choose|m: int| 0 <= m < i && #[trigger] loads[m] == kept@[j];
                        assert(loads[m].0 == loads[i as int].0);
                    }
                }
                let ghost before = kept@;
                kept.insert(k, l);
                proof {
                    assert(kept@ == before.push((k, l)));
                    assert forall|j: int| #![trigger kept@[j]]
                        0 <= j < kept@.len() implies exists|m: int|
                        0 <= m < i + 1 && #[trigger] loads[m] == kept@[j] by {
                        if j < before.len() {
                            let m = choose|m: int| 0 <= m < i && #[trigger] loads[m] == before[j];
                            assert(loads[m] == kept@[j]);
                        } else {
                            assert(loads[i as int] == kept@[j]);
                        }
                    }
                }
            }
            i += 1;
        }
        proof {
            assert(loads.take(loads.len() as int) =~= loads);
            assert forall|j: int| 0 <= j < kept@.len() implies (#[trigger] kept@[j]).1.store_id
                == kept@[j].0 by {
                let m = choose|m: int| 0 <= m < i && #[trigger] loads[m] == kept@[j];
            }
            assert forall|j: int| 0 <= j < kept@.len() implies (#[trigger] kept@[j]).1.last_update
                <= self.clock by {
                let m = choose|m: int| 0 <= m < i && #[trigger] loads[m] == kept@[j];
            }
        }
        self.loads = kept;
    }

    /// The time at which the balancer judges freshness now: the later of
    /// the wall clock and the latest time it has seen.
    fn current_time(&self) -> (r: u128)
        ensures
            self@.clock <= r,
            r <= self@.clock || r <= DURATION_MAX_NANOS,
    {
        let reading = unix_now_nanos();
        if reading > self.clock {
            reading
        } else {
            self.clock
        }
    }

    /// Forgets the loads that are stale now. Now is a time no earlier than
    /// any the balancer has stamped, so only loads older than the maximum
    /// age go.
    pub fn cleanup_stale_loads(&mut self)
        requires
            old(self).wf(),
        ensures
            final(self).wf(),
            final(self)@.max_load_age == old(self)@.max_load_age,
            exists|now: u128|
                old(self)@.clock <= now && (now <= old(self)@.clock || now <= DURATION_MAX_NANOS)
                    && final(self)@.loads == #[trigger] fresh_in(
                    old(self)@.loads,
                    now,
                    old(self)@.max_load_age,
                ) && final(self)@.clock == now,
    {
        let now = self.current_time();
        self.cleanup_stale_loads_at(now);
        self.clock = now;
        proof {
            lemma_fresh_in(old(self)@.loads, now, old(self)@.max_load_age);
        }
    }
}

/// What a cleanup at a time no earlier than the balancer's does, store by
/// store: no load counts as coming from the future, a load is kept, as it
/// was, exactly when it is at most the maximum age old, and other stores
/// stay unknown.
pub proof fn lemma_cleanup_keeps_young_loads(b: StoreBalancerView, now: u128, id: u64)
    requires
        b.wf(),
        b.clock <= now,
    ensures
        match value_of(b.loads, id) {
            Some(l) => l.last_update <= now && value_of(fresh_in(b.loads, now, b.max_load_age), id)
                == if now - l.last_update <= b.max_load_age {
                Some(l)
            } else {
                None
            },
            None => value_of(fresh_in(b.loads, now, b.max_load_age), id) is None,
        },
{
    lemma_cleanup_per_store(b.loads, now, b.max_load_age, id);
    if has_key(b.loads, id) {
        let k = key_pos(b.loads, id);
        assert(b.loads[k].1.last_update <= b.clock);
    }
}

/// A load stamped no later than the balancer's time keeps every stamp no
/// later than it.
proof fn lemma_inserted_stamps(b: StoreBalancerView, k: u64, l: StoreLoad)
    requires
        forall|i: int| 0 <= i < b.loads.len() ==> (#[trigger] b.loads[i]).1.last_update <= b.clock,
        l.last_update <= b.clock,
    ensures
        forall|i: int|
            0 <= i < inserted(b.loads, k, l).len() ==> (#[trigger] inserted(b.loads, k, l)[i]).1.last_update
                <= b.clock,
{
    assert forall|i: int| 0 <= i < inserted(b.loads, k, l).len() implies (#[trigger] inserted(
        b.loads,
        k,
        l,
    )[i]).1.last_update <= b.clock by {
        if has_key(b.loads, k) {
            if i != key_pos(b.loads, k) {
                assert(inserted(b.loads, k, l)[i] == b.loads[i]);
            }
        } else if i < b.loads.len() {
            assert(inserted(b.loads, k, l)[i] == b.loads[i]);
        }
    }
}

/// Filing a load under its own store id keeps the balancer well formed.
proof fn lemma_inserted_wf(b: StoreBalancerView, k: u64, l: StoreLoad)
    requires
        distinct_keys(b.loads),
        forall|i: int| 0 <= i < b.loads.len() ==> (#[trigger] b.loads[i]).1.store_id == b.loads[i].0,
        l.store_id == k,
    ensures
        forall|i: int|
            0 <= i < inserted(b.loads, k, l).len() ==> (#[trigger] inserted(b.loads, k, l)[i]).1.store_id
                == inserted(b.loads, k, l)[i].0,
{
}

/// The store listed first is live, fresh, and no heavier than any live,
/// fresh store.
pub proof fn lemma_first_available_is_lightest(b: StoreBalancerView, now: u128, list: Seq<StoreLoad>)
    requires
        b.is_available_list(now, list),
        list.len() > 0,
    ensures
        available_in(b.loads, now, b.max_load_age).contains(list[0]),
        list[0].is_up,
        !list[0].stale_at(now, b.max_load_age),
        forall|l: StoreLoad|
            #[trigger] available_in(b.loads, now, b.max_load_age).contains(l)
                ==> list[0].spec_load_key() <= l.spec_load_key(),
{
    broadcast use vstd::seq_lib::group_to_multiset_ensures;

    let avail = available_in(b.loads, now, b.max_load_age);
    lemma_available_in(b.loads, now, b.max_load_age);
    assert(list.contains(list[0]));
    assert(list.to_multiset().count(list[0]) > 0);
    assert forall|l: StoreLoad| #[trigger] avail.contains(l) implies list[0].spec_load_key()
        <= l.spec_load_key() by {
        assert(avail.to_multiset().count(l) > 0);
        assert(list.contains(l));
        let j = choose|j: int| 0 <= j < list.len() && list[j] == l;
        assert(list[0].spec_load_key() <= list[j].spec_load_key());
    }
}

} // verus!
