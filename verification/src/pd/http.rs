use vstd::prelude::*;
use crate::raftstore::store_balancer::StoreLoad;

verus! {

/// The cluster at a glance, as the dashboard shows it.
#[derive(Debug, Clone, Copy, PartialEq, Eq, Structural)]
pub struct ClusterSummary {
    pub cluster_id: u64,
    pub store_count: usize,
    pub region_count: usize,
    pub leader_count: usize,
    pub total_region_size: u64,
}

/// The sum of `s`.
pub open spec fn total(s: Seq<int>) -> int
    decreases s.len(),
{
    if s.len() == 0 {
        0
    } else {
        total(s.drop_last()) + s.last()
    }
}

/// The numbers of `s` as integers.
pub open spec fn usize_ints(s: Seq<usize>) -> Seq<int> {
    s.map_values(|x: usize| x as int)
}

/// The numbers of `s` as integers.
pub open spec fn u64_ints(s: Seq<u64>) -> Seq<int> {
    s.map_values(|x: u64| x as int)
}

proof fn lemma_total_nonneg(s: Seq<int>)
    requires
        forall|j: int| 0 <= j < s.len() ==> s[j] >= 0,
    ensures
        total(s) >= 0,
    decreases s.len(),
{
    if s.len() > 0 {
        lemma_total_nonneg(s.drop_last());
    }
}

proof fn lemma_total_prefix_le(s: Seq<int>, i: int)
    requires
        0 <= i <= s.len(),
        forall|j: int| 0 <= j < s.len() ==> s[j] >= 0,
    ensures
        0 <= total(s.take(i)) <= total(s),
    decreases s.len() - i,
{
    if i < s.len() {
        lemma_total_prefix_le(s, i + 1);
        assert(s.take(i + 1).drop_last() =~= s.take(i));
    } else {
        assert(s.take(i) =~= s);
    }
    lemma_total_nonneg(s.take(i));
}

/// The summary of a cluster with id `cluster_id`, whose stores lead
/// `store_leader_counts` regions each and whose regions hold
/// `region_sizes` bytes each.
pub fn cluster_summary(cluster_id: u64, store_leader_counts: &Vec<usize>, region_sizes: &Vec<u64>) -> (r:
    ClusterSummary)
    requires
        total(usize_ints(store_leader_counts@)) <= usize::MAX,
        total(u64_ints(region_sizes@)) <= u64::MAX,
    ensures
        r.cluster_id == cluster_id,
        r.store_count == store_leader_counts@.len(),
        r.region_count == region_sizes@.len(),
        r.leader_count == total(usize_ints(store_leader_counts@)),
        r.total_region_size == total(u64_ints(region_sizes@)),
{
    let ghost leaders = usize_ints(store_leader_counts@);
    let ghost sizes = u64_ints(region_sizes@);
    let mut leader_count: usize = 0;
    let mut i: usize = 0;
    proof {
        assert(leaders.take(0) =~= Seq::<int>::empty());
    }
    while i < store_leader_counts.len()
        invariant
            0 <= i <= store_leader_counts@.len(),
            leaders == usize_ints(store_leader_counts@),
            total(leaders) <= usize::MAX,
            leader_count == total(leaders.take(i as int)),
        decreases store_leader_counts@.len() - i,
    {
        proof {
            assert(leaders.take(i + 1).drop_last() =~= leaders.take(i as int));
            lemma_total_prefix_le(leaders, i + 1);
        }
        leader_count = leader_count + store_leader_counts[i];
        i += 1;
    }
    let mut size: u64 = 0;
    let mut j: usize = 0;
    proof {
        assert(leaders.take(i as int) =~= leaders);
        assert(sizes.take(0) =~= Seq::<int>::empty());
    }
    while j < region_sizes.len()
        invariant
            0 <= j <= region_sizes@.len(),
            sizes == u64_ints(region_sizes@),
            total(sizes) <= u64::MAX,
            size == total(sizes.take(j as int)),
        decreases region_sizes@.len() - j,
    {
        proof {
            assert(sizes.take(j + 1).drop_last() =~= sizes.take(j as int));
            lemma_total_prefix_le(sizes, j + 1);
        }
        size = size + region_sizes[j];
        j += 1;
    }
    proof {
        assert(sizes.take(j as int) =~= sizes);
    }
    ClusterSummary {
        cluster_id,
        store_count: store_leader_counts.len(),
        region_count: region_sizes.len(),
        leader_count,
        total_region_size: size,
    }
}

/// The load of one store, as the dashboard shows it.
#[derive(Debug, Clone, Copy, PartialEq, Eq, Structural)]
pub struct StoreLoadView {
    pub store_id: u64,
    pub region_count: usize,
    pub leader_count: usize,
    pub region_size: u64,
    pub leader_size: u64,
}

/// The dashboard's view of `l`: its store and counters.
pub open spec fn load_view_of(l: StoreLoad) -> StoreLoadView {
    StoreLoadView {
        store_id: l.store_id,
        region_count: l.region_count,
        leader_count: l.leader_count,
        region_size: l.region_size,
        leader_size: l.leader_size,
    }
}

/// The dashboard's view of each load of `loads`, in order.
pub fn store_load_views(loads: &Vec<StoreLoad>) -> (r: Vec<StoreLoadView>)
    ensures
        r@ == loads@.map_values(|l: StoreLoad| load_view_of(l)),
{
    let mut out: Vec<StoreLoadView> = Vec::new();
    let mut i: usize = 0;
    while i < loads.len()
        invariant
            0 <= i <= loads@.len(),
            out@ == loads@.take(i as int).map_values(|l: StoreLoad| load_view_of(l)),
        decreases loads@.len() - i,
    {
        let l = loads[i];
        out.push(
            StoreLoadView {
                store_id: l.store_id,
                region_count: l.region_count,
                leader_count: l.leader_count,
                region_size: l.region_size,
                leader_size: l.leader_size,
            },
        );
        proof {
            assert(out@ =~= loads@.take(i + 1).map_values(|l: StoreLoad| load_view_of(l)));
        }
        i += 1;
    }
    proof {
        assert(loads@.take(i as int) =~= loads@);
    }
    out
}

/// A disk as the machine reports it: where it is mounted, its size and the
/// space left on it.
#[derive(Debug)]
pub struct DiskReading {
    pub name: String,
    pub total: u64,
    pub available: u64,
}

/// A disk as the dashboard shows it: where it is mounted, its size and the
/// space in use.
#[derive(Debug)]
pub struct SystemDisk {
    pub name: String,
    pub total: u64,
    pub used: u64,
}

/// The space in use on a disk of `total` bytes with `available` left; none
/// when the disk reports more left than it holds.
pub open spec fn used_space(total: u64, available: u64) -> u64 {
    if available <= total {
        (total - available) as u64
    } else {
        0
    }
}

/// The disks the dashboard shows for `readings`: those of nonzero size, in
/// order, with the space in use.
pub open spec fn disk_rows(readings: Seq<DiskReading>) -> Seq<(Seq<char>, u64, u64)>
    decreases readings.len(),
{
    if readings.len() == 0 {
        Seq::empty()
    } else {
        let d = readings.last();
        let rest = disk_rows(readings.drop_last());
        if d.total == 0 {
            rest
        } else {
            rest.push((d.name@, d.total, used_space(d.total, d.available)))
        }
    }
}

/// The dashboard's rows of disks.
pub open spec fn system_disk_rows(disks: Seq<SystemDisk>) -> Seq<(Seq<char>, u64, u64)> {
    disks.map_values(|d: SystemDisk| (d.name@, d.total, d.used))
}

/// The disks the dashboard shows for `readings`: disks of size zero are
/// left out, and the space in use is the size less the space left.
pub fn system_disks(readings: &Vec<DiskReading>) -> (r: Vec<SystemDisk>)
    ensures
        system_disk_rows(r@) == disk_rows(readings@),
{
    let mut out: Vec<SystemDisk> = Vec::new();
    let mut i: usize = 0;
    while i < readings.len()
        invariant
            0 <= i <= readings@.len(),
            system_disk_rows(out@) == disk_rows(readings@.take(i as int)),
        decreases readings@.len() - i,
    {
        proof {
            assert(readings@.take(i + 1).drop_last() =~= readings@.take(i as int));
        }
        let d = &readings[i];
        if d.total != 0 {
            let used = d.total.saturating_sub(d.available);
            let ghost before = out@;
            out.push(SystemDisk { name: d.name.clone(), total: d.total, used });
            proof {
                assert(system_disk_rows(out@) =~= system_disk_rows(before).push(
                    (d.name@, d.total, used_space(d.total, d.available)),
                ));
            }
        }
        i += 1;
    }
    proof {
        assert(readings@.take(i as int) =~= readings@);
    }
    out
}

/// The sum of `s`, held at `u64::MAX` once it gets there.
pub open spec fn saturating_total(s: Seq<u64>) -> u64
    decreases s.len(),
{
    if s.len() == 0 {
        0
    } else {
        let t = saturating_total(s.drop_last()) + s.last();
        if t > u64::MAX {
            u64::MAX
        } else {
            t as u64
        }
    }
}

/// The bytes received and sent over all network interfaces, from each
/// interface's `(received, sent)` counters; each sum stops at `u64::MAX`.
pub fn network_totals(counters: &Vec<(u64, u64)>) -> (r: (u64, u64))
    ensures
        r.0 == saturating_total(counters@.map_values(|c: (u64, u64)| c.0)),
        r.1 == saturating_total(counters@.map_values(|c: (u64, u64)| c.1)),
{
    let ghost rxs = counters@.map_values(|c: (u64, u64)| c.0);
    let ghost txs = counters@.map_values(|c: (u64, u64)| c.1);
    let mut rx: u64 = 0;
    let mut tx: u64 = 0;
    let mut i: usize = 0;
    proof {
        assert(rxs.take(0) =~= Seq::<u64>::empty());
        assert(txs.take(0) =~= Seq::<u64>::empty());
    }
    while i < counters.len()
        invariant
            0 <= i <= counters@.len(),
            rxs == counters@.map_values(|c: (u64, u64)| c.0),
            txs == counters@.map_values(|c: (u64, u64)| c.1),
            rx == saturating_total(rxs.take(i as int)),
            tx == saturating_total(txs.take(i as int)),
        decreases counters@.len() - i,
    {
        proof {
            assert(rxs.take(i + 1).drop_last() =~= rxs.take(i as int));
            assert(txs.take(i + 1).drop_last() =~= txs.take(i as int));
        }
        let (r, t) = counters[i];
        rx = rx.saturating_add(r);
        tx = tx.saturating_add(t);
        i += 1;
    }
    proof {
        assert(rxs.take(i as int) =~= rxs);
        assert(txs.take(i as int) =~= txs);
    }
    (rx, tx)
}

} // verus!
