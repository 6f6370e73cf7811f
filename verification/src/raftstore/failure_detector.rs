use vstd::prelude::*;
use crate::clock::unix_now_nanos;
use crate::raft::progress::{
    distinct_keys, has_key, inserted, key_pos, lemma_key_pos, lemma_value_of_after_write, removed,
    value_of, IdMap,
};
use crate::raftstore::store_balancer::DURATION_MAX_NANOS;

verus! {

/// Health of a node.
#[derive(Debug, Clone, Copy, PartialEq, Eq, Structural)]
pub enum NodeStatus {
    Healthy,
    /// Heartbeats are late, but the node is not yet known to have failed.
    Suspect,
    Failed,
}

/// Time assumed since the last heartbeat of a node that never sent one:
/// one hour, in nanoseconds.
pub const NO_HEARTBEAT_AGE: u128 = 3_600_000_000_000;

/// What the detector knows of one node. Times are nanoseconds since the
/// Unix epoch.
#[derive(Debug, Clone, Copy, PartialEq, Eq, Structural)]
pub struct NodeHealth {
    pub status: NodeStatus,
    pub last_heartbeat: Option<u128>,
    pub consecutive_failures: u32,
    pub last_check: u128,
}

impl NodeHealth {
    /// Nanoseconds from the last heartbeat to `now` (none when the clock
    /// went back).
    pub open spec fn heartbeat_age(self, now: u128) -> u128 {
        match self.last_heartbeat {
            Some(t) => if now >= t {
                (now - t) as u128
            } else {
                0
            },
            None => NO_HEARTBEAT_AGE,
        }
    }

    /// The health after a check at time `now`, and whether the node was
    /// found failed by this check. A late node turns suspect; a late node
    /// with at least `failure_threshold` recorded failures turns failed.
    pub open spec fn checked(self, now: u128, heartbeat_timeout: u128, failure_threshold: u32) -> (
        NodeHealth,
        bool,
    ) {
        if self.heartbeat_age(now) > heartbeat_timeout {
            let status = if self.status == NodeStatus::Healthy {
                NodeStatus::Suspect
            } else {
                self.status
            };
            if self.consecutive_failures >= failure_threshold && status != NodeStatus::Failed {
                (NodeHealth { status: NodeStatus::Failed, ..self }, true)
            } else {
                (NodeHealth { status, ..self }, false)
            }
        } else {
            (self, false)
        }
    }

    /// A healthy node with no heartbeat and no failure, checked at `now`.
    pub fn new(now: u128) -> (r: Self)
        ensures
            r == (NodeHealth {
                status: NodeStatus::Healthy,
                last_heartbeat: None,
                consecutive_failures: 0,
                last_check: now,
            }),
    {
        NodeHealth {
            status: NodeStatus::Healthy,
            last_heartbeat: None,
            consecutive_failures: 0,
            last_check: now,
        }
    }

    /// Records a heartbeat at `now`: the node is healthy again.
    pub fn update_heartbeat(&mut self, now: u128)
        ensures
            *final(self) == (NodeHealth {
                status: NodeStatus::Healthy,
                last_heartbeat: Some(now),
                consecutive_failures: 0,
                ..*old(self)
            }),
    {
        self.last_heartbeat = Some(now);
        self.consecutive_failures = 0;
        if self.status != NodeStatus::Healthy {
            self.status = NodeStatus::Healthy;
        }
    }

    /// Records a failed contact at `now`.
    pub fn record_failure(&mut self, now: u128)
        requires
            old(self).consecutive_failures < u32::MAX,
        ensures
            *final(self) == (NodeHealth {
                consecutive_failures: (old(self).consecutive_failures + 1) as u32,
                last_check: now,
                ..*old(self)
            }),
    {
        self.consecutive_failures += 1;
        self.last_check = now;
    }

    /// Checks the node at time `now`; true when it was found failed.
    pub fn check_health(&mut self, now: u128, heartbeat_timeout: u128, failure_threshold: u32) -> (r:
        bool)
        ensures
            (*final(self), r) == old(self).checked(now, heartbeat_timeout, failure_threshold),
    {
        let age = match self.last_heartbeat {
            Some(t) => if now >= t {
                now - t
            } else {
                0
            },
            None => NO_HEARTBEAT_AGE,
        };
        if age > heartbeat_timeout {
            if self.status == NodeStatus::Healthy {
                self.status = NodeStatus::Suspect;
            }
            if self.consecutive_failures >= failure_threshold {
                if self.status != NodeStatus::Failed {
                    self.status = NodeStatus::Failed;
                    return true;
                }
            }
        }
        false
    }
}

/// The nodes of `nodes` after a check at `now`.
pub open spec fn checked_nodes(
    nodes: Seq<(u64, NodeHealth)>,
    now: u128,
    heartbeat_timeout: u128,
    failure_threshold: u32,
) -> Seq<(u64, NodeHealth)> {
    Seq::new(
        nodes.len(),
        |i: int| (nodes[i].0, nodes[i].1.checked(now, heartbeat_timeout, failure_threshold).0),
    )
}

/// The ids of the nodes of `nodes` that a check at `now` finds failed.
pub open spec fn newly_failed(
    nodes: Seq<(u64, NodeHealth)>,
    now: u128,
    heartbeat_timeout: u128,
    failure_threshold: u32,
) -> Seq<u64>
    decreases nodes.len(),
{
    if nodes.len() == 0 {
        Seq::empty()
    } else {
        let before = newly_failed(nodes.drop_last(), now, heartbeat_timeout, failure_threshold);
        if nodes.last().1.checked(now, heartbeat_timeout, failure_threshold).1 {
            before.push(nodes.last().0)
        } else {
            before
        }
    }
}

/// The ids of the nodes of `nodes` in state `status`, in order.
pub open spec fn ids_with_status(nodes: Seq<(u64, NodeHealth)>, status: NodeStatus) -> Seq<u64>
    decreases nodes.len(),
{
    if nodes.len() == 0 {
        Seq::empty()
    } else {
        let before = ids_with_status(nodes.drop_last(), status);
        if nodes.last().1.status == status {
            before.push(nodes.last().0)
        } else {
            before
        }
    }
}

/// The health of a node after a heartbeat at `now`.
pub open spec fn after_heartbeat(prev: Option<NodeHealth>, now: u128) -> NodeHealth {
    let h = match prev {
        Some(h) => h,
        None => NodeHealth {
            status: NodeStatus::Healthy,
            last_heartbeat: None,
            consecutive_failures: 0,
            last_check: now,
        },
    };
    NodeHealth {
        status: NodeStatus::Healthy,
        last_heartbeat: Some(now),
        consecutive_failures: 0,
        ..h
    }
}

/// The nodes after a failed contact with `node_id` at `now`; an unknown
/// node is ignored.
pub open spec fn after_failure(nodes: Seq<(u64, NodeHealth)>, node_id: u64, now: u128) -> Seq<
    (u64, NodeHealth),
> {
    match value_of(nodes, node_id) {
        Some(h) => inserted(
            nodes,
            node_id,
            NodeHealth {
                consecutive_failures: (h.consecutive_failures + 1) as u32,
                last_check: now,
                ..h
            },
        ),
        None => nodes,
    }
}

/// A heartbeat makes a node healthy with no failure counted, whatever its
/// state before.
pub proof fn lemma_heartbeat_heals(nodes: Seq<(u64, NodeHealth)>, node_id: u64, now: u128)
    requires
        distinct_keys(nodes),
    ensures
        value_of(
            inserted(nodes, node_id, after_heartbeat(value_of(nodes, node_id), now)),
            node_id,
        ) matches Some(h) && h.status == NodeStatus::Healthy && h.consecutive_failures == 0
            && h.last_heartbeat == Some(now),
{
    let other: u64 = if node_id == 0 { 1 } else { 0 };
    lemma_value_of_after_write(nodes, node_id, after_heartbeat(value_of(nodes, node_id), now), other);
}

/// A node a check reports failed is a node of the check that it found
/// failed.
proof fn lemma_newly_failed_from(
    nodes: Seq<(u64, NodeHealth)>,
    now: u128,
    heartbeat_timeout: u128,
    failure_threshold: u32,
    id: u64,
)
    requires
        newly_failed(nodes, now, heartbeat_timeout, failure_threshold).contains(id),
    ensures
        exists|i: int|
            0 <= i < nodes.len() && nodes[i].0 == id && (#[trigger] nodes[i]).1.checked(
                now,
                heartbeat_timeout,
                failure_threshold,
            ).1,
    decreases nodes.len(),
{
    let init = nodes.drop_last();
    let before = newly_failed(init, now, heartbeat_timeout, failure_threshold);
    if before.contains(id) {
        lemma_newly_failed_from(init, now, heartbeat_timeout, failure_threshold, id);
        let i = choose|i: int|
            0 <= i < init.len() && init[i].0 == id && (#[trigger] init[i]).1.checked(
                now,
                heartbeat_timeout,
                failure_threshold,
            ).1;
        assert(nodes[i] == init[i]);
    } else {
        assert(nodes[nodes.len() - 1] == nodes.last());
    }
}

/// A check at a time no earlier than the detector's leaves alone a node
/// whose last heartbeat is at most the heartbeat timeout old: it keeps its
/// health and is not reported failed. A node is reported failed only when
/// its heartbeat is older than the timeout and it has at least
/// `failure_threshold` failures, and then it is failed after the check.
pub proof fn lemma_check_spares_recent_heartbeats(d: FailureDetectorView, now: u128, id: u64)
    requires
        distinct_keys(d.nodes),
        heartbeats_by(d.nodes, d.clock),
        d.clock <= now,
    ensures
        ({
            let v = value_of(d.nodes, id);
            let c = checked_nodes(d.nodes, now, d.heartbeat_timeout, d.failure_threshold);
            let f = newly_failed(d.nodes, now, d.heartbeat_timeout, d.failure_threshold);
            &&& (v is Some && v->0.last_heartbeat is Some) ==> v->0.last_heartbeat->0 <= now
            &&& (v is Some && v->0.last_heartbeat is Some && now - v->0.last_heartbeat->0
                <= d.heartbeat_timeout) ==> value_of(c, id) == v && !f.contains(id)
            &&& f.contains(id) ==> v is Some && v->0.heartbeat_age(now) > d.heartbeat_timeout
                && v->0.consecutive_failures >= d.failure_threshold && value_of(c, id) is Some
                && value_of(c, id)->0.status == NodeStatus::Failed
        }),
{
    let c = checked_nodes(d.nodes, now, d.heartbeat_timeout, d.failure_threshold);
    let f = newly_failed(d.nodes, now, d.heartbeat_timeout, d.failure_threshold);
    assert(distinct_keys(c)) by {
        assert forall|a: int, b: int|
            0 <= a < c.len() && 0 <= b < c.len() && a != b implies c[a].0 != c[b].0 by {
            assert(c[a].0 == d.nodes[a].0 && c[b].0 == d.nodes[b].0);
        }
    }
    if has_key(d.nodes, id) {
        let k = key_pos(d.nodes, id);
        let h = d.nodes[k].1;
        assert(c[k].0 == id);
        lemma_key_pos(c, k);
        assert(value_of(c, id) == Some(h.checked(now, d.heartbeat_timeout, d.failure_threshold).0));
        lemma_check_never_heals(h, now, d.heartbeat_timeout, d.failure_threshold);
        if f.contains(id) {
            lemma_newly_failed_from(d.nodes, now, d.heartbeat_timeout, d.failure_threshold, id);
            let i = choose|i: int|
                0 <= i < d.nodes.len() && d.nodes[i].0 == id && (#[trigger] d.nodes[i]).1.checked(
                    now,
                    d.heartbeat_timeout,
                    d.failure_threshold,
                ).1;
            lemma_key_pos(d.nodes, i);
        }
    } else {
        if f.contains(id) {
            lemma_newly_failed_from(d.nodes, now, d.heartbeat_timeout, d.failure_threshold, id);
        }
    }
}

/// A check never heals: a failed node stays failed, a suspect node does not
/// turn healthy, and a node whose last heartbeat is recent is left as it is.
pub proof fn lemma_check_never_heals(
    h: NodeHealth,
    now: u128,
    heartbeat_timeout: u128,
    failure_threshold: u32,
)
    ensures
        h.status == NodeStatus::Failed ==> h.checked(now, heartbeat_timeout, failure_threshold).0.status
            == NodeStatus::Failed,
        h.status != NodeStatus::Healthy ==> h.checked(
            now,
            heartbeat_timeout,
            failure_threshold,
        ).0.status != NodeStatus::Healthy,
        h.heartbeat_age(now) <= heartbeat_timeout ==> h.checked(
            now,
            heartbeat_timeout,
            failure_threshold,
        ) == (h, false),
        h.checked(now, heartbeat_timeout, failure_threshold).1 ==> h.checked(
            now,
            heartbeat_timeout,
            failure_threshold,
        ).0.status == NodeStatus::Failed && h.status != NodeStatus::Failed,
{
}

/// Mathematical value of a failure detector.
pub struct FailureDetectorView {
    pub nodes: Seq<(u64, NodeHealth)>,
    pub heartbeat_timeout: u128,
    pub failure_threshold: u32,
    pub check_interval: u128,
    /// The latest time the detector has seen: no heartbeat is stamped later.
    pub clock: u128,
}

/// No heartbeat of `nodes` is stamped later than `clock`.
pub open spec fn heartbeats_by(nodes: Seq<(u64, NodeHealth)>, clock: u128) -> bool {
    forall|i: int|
        0 <= i < nodes.len() ==> ((#[trigger] nodes[i]).1.last_heartbeat matches Some(t) ==> t
            <= clock)
}

/// Adding or replacing a node whose heartbeat is no later than `clock`
/// keeps every heartbeat no later than it.
proof fn lemma_inserted_heartbeats(
    nodes: Seq<(u64, NodeHealth)>,
    k: u64,
    h: NodeHealth,
    clock: u128,
)
    requires
        heartbeats_by(nodes, clock),
        h.last_heartbeat matches Some(t) ==> t <= clock,
    ensures
        heartbeats_by(inserted(nodes, k, h), clock),
{
    let r = inserted(nodes, k, h);
    assert forall|i: int| 0 <= i < r.len() implies ((#[trigger] r[i]).1.last_heartbeat matches Some(
        t,
    ) ==> t <= clock) by {
        if has_key(nodes, k) {
            if i != key_pos(nodes, k) {
                assert(r[i] == nodes[i]);
            }
        } else if i < nodes.len() {
            assert(r[i] == nodes[i]);
        }
    }
}

/// Tracks the health of nodes from their heartbeats and failures. Times and
/// durations are in nanoseconds.
pub struct FailureDetector {
    nodes: IdMap<NodeHealth>,
    heartbeat_timeout: u128,
    failure_threshold: u32,
    check_interval: u128,
    clock: u128,
}

impl View for FailureDetector {
    type V = FailureDetectorView;

    closed spec fn view(&self) -> FailureDetectorView {
        FailureDetectorView {
            nodes: self.nodes@,
            heartbeat_timeout: self.heartbeat_timeout,
            failure_threshold: self.failure_threshold,
            check_interval: self.check_interval,
            clock: self.clock,
        }
    }
}

impl FailureDetector {
    pub open spec fn wf(&self) -> bool {
        &&& distinct_keys(self@.nodes)
        &&& heartbeats_by(self@.nodes, self@.clock)
    }

    /// The detector's settings are unchanged from `other`.
    pub open spec fn same_settings(&self, other: &FailureDetector) -> bool {
        &&& self@.heartbeat_timeout == other@.heartbeat_timeout
        &&& self@.failure_threshold == other@.failure_threshold
        &&& self@.check_interval == other@.check_interval
    }

    pub fn new(heartbeat_timeout: u128, failure_threshold: u32, check_interval: u128) -> (r: Self)
        ensures
            r.wf(),
            r@ == (FailureDetectorView {
                nodes: Seq::empty(),
                heartbeat_timeout,
                failure_threshold,
                check_interval,
                clock: 0,
            }),
    {
        FailureDetector {
            nodes: IdMap::new(),
            heartbeat_timeout,
            failure_threshold,
            check_interval,
            clock: 0,
        }
    }

    /// Nanoseconds between two health checks of the detection loop.
    pub fn check_interval(&self) -> (r: u128)
        ensures
            r == self@.check_interval,
    {
        self.check_interval
    }

    /// Starts tracking `node_id` as a healthy node (forgetting what was known
    /// of it), checked at `now`.
    pub fn register_node_at(&mut self, node_id: u64, now: u128)
        requires
            old(self).wf(),
        ensures
            final(self).wf(),
            final(self).same_settings(old(self)),
            final(self)@.nodes == inserted(old(self)@.nodes, node_id, NodeHealth {
                status: NodeStatus::Healthy,
                last_heartbeat: None,
                consecutive_failures: 0,
                last_check: now,
            }),
            final(self)@.clock == old(self)@.clock,
    {
        proof {
            lemma_inserted_heartbeats(self@.nodes, node_id, NodeHealth::new_spec(now), self@.clock);
        }
        self.nodes.insert(node_id, NodeHealth::new(now));
    }

    /// Starts tracking `node_id` as a healthy node, checked now.
    pub fn register_node(&mut self, node_id: u64)
        requires
            old(self).wf(),
        ensures
            final(self).wf(),
            final(self).same_settings(old(self)),
            final(self)@.clock == old(self)@.clock,
            exists|now: u128|
                final(self)@.nodes == inserted(old(self)@.nodes, node_id, #[trigger] NodeHealth::new_spec(now)),
    {
        let now = unix_now_nanos();
        self.register_node_at(node_id, now);
        assert(NodeHealth::new_spec(now) == NodeHealth {
            status: NodeStatus::Healthy,
            last_heartbeat: None,
            consecutive_failures: 0,
            last_check: now,
        });
    }

    /// Records a heartbeat of `node_id` at `now`; an unknown node is
    /// registered first.
    pub fn update_heartbeat_at(&mut self, node_id: u64, now: u128)
        requires
            old(self).wf(),
        ensures
            final(self).wf(),
            final(self).same_settings(old(self)),
            final(self)@.nodes == inserted(
                old(self)@.nodes,
                node_id,
                after_heartbeat(value_of(old(self)@.nodes, node_id), now),
            ),
            final(self)@.clock == if now > old(self)@.clock {
                now
            } else {
                old(self)@.clock
            },
    {
        if now > self.clock {
            self.clock = now;
        }
        proof {
            lemma_inserted_heartbeats(
                self@.nodes,
                node_id,
                after_heartbeat(value_of(self@.nodes, node_id), now),
                self@.clock,
            );
        }
        let mut health = match self.nodes.get(node_id) {
            Some(h) => h,
            None => NodeHealth::new(now),
        };
        health.update_heartbeat(now);
        self.nodes.insert(node_id, health);
    }

    /// Records a heartbeat of `node_id` now.
    pub fn update_heartbeat(&mut self, node_id: u64)
        requires
            old(self).wf(),
        ensures
            final(self).wf(),
            final(self).same_settings(old(self)),
            exists|now: u128|
                final(self)@.nodes == inserted(
                    old(self)@.nodes,
                    node_id,
                    #[trigger] after_heartbeat(value_of(old(self)@.nodes, node_id), now),
                ) && final(self)@.clock == if now > old(self)@.clock {
                    now
                } else {
                    old(self)@.clock
                },
    {
        let now = unix_now_nanos();
        self.update_heartbeat_at(node_id, now);
    }

    /// Records a failed contact with `node_id` at `now`; an unknown node is
    /// ignored.
    pub fn record_failure_at(&mut self, node_id: u64, now: u128)
        requires
            old(self).wf(),
            value_of(old(self)@.nodes, node_id) matches Some(h) ==> h.consecutive_failures
                < u32::MAX,
        ensures
            final(self).wf(),
            final(self).same_settings(old(self)),
            final(self)@.nodes == after_failure(old(self)@.nodes, node_id, now),
            final(self)@.clock == old(self)@.clock,
    {
        match self.nodes.get(node_id) {
            Some(h) => {
                proof {
                    let k = key_pos(self@.nodes, node_id);
                    assert(self@.nodes[k].1 == h);
                    lemma_inserted_heartbeats(
                        self@.nodes,
                        node_id,
                        NodeHealth {
                            consecutive_failures: (h.consecutive_failures + 1) as u32,
                            last_check: now,
                            ..h
                        },
                        self@.clock,
                    );
                }
                let mut health = h;
                health.record_failure(now);
                self.nodes.insert(node_id, health);
            },
            None => {},
        }
    }

    /// Records a failed contact with `node_id` now.
    pub fn record_failure(&mut self, node_id: u64)
        requires
            old(self).wf(),
            value_of(old(self)@.nodes, node_id) matches Some(h) ==> h.consecutive_failures
                < u32::MAX,
        ensures
            final(self).wf(),
            final(self).same_settings(old(self)),
            final(self)@.clock == old(self)@.clock,
            exists|now: u128| final(self)@.nodes == #[trigger] after_failure(old(self)@.nodes, node_id, now),
    {
        let now = unix_now_nanos();
        self.record_failure_at(node_id, now);
    }

    /// The status of `node_id`, if it is tracked.
    pub fn get_status(&self, node_id: u64) -> (r: Option<NodeStatus>)
        requires
            self.wf(),
        ensures
            r == match value_of(self@.nodes, node_id) {
                Some(h) => Some(h.status),
                None => None::<NodeStatus>,
            },
    {
        match self.nodes.get(node_id) {
            Some(h) => Some(h.status),
            None => None,
        }
    }

    /// Checks every node at `now`; returns the nodes found failed by this
    /// check.
    pub fn check_all_nodes_at(&mut self, now: u128) -> (r: Vec<u64>)
        requires
            old(self).wf(),
        ensures
            final(self).wf(),
            final(self).same_settings(old(self)),
            final(self)@.nodes == checked_nodes(
                old(self)@.nodes,
                now,
                old(self)@.heartbeat_timeout,
                old(self)@.failure_threshold,
            ),
            r@ == newly_failed(
                old(self)@.nodes,
                now,
                old(self)@.heartbeat_timeout,
                old(self)@.failure_threshold,
            ),
            final(self)@.clock == old(self)@.clock,
    {
        let ghost nodes = self@.nodes;
        let timeout = self.heartbeat_timeout;
        let threshold = self.failure_threshold;
        let mut failed_nodes: Vec<u64> = Vec::new();
        let mut i: usize = 0;
        while i < self.nodes.len()
            invariant
                nodes.len() == self@.nodes.len(),
                0 <= i <= nodes.len(),
                timeout == old(self)@.heartbeat_timeout,
                threshold == old(self)@.failure_threshold,
                self.same_settings(old(self)),
                self@.clock == old(self)@.clock,
                nodes == old(self)@.nodes,
                forall|j: int|
                    0 <= j < i ==> #[trigger] self@.nodes[j] == (
                        nodes[j].0,
                        nodes[j].1.checked(now, timeout, threshold).0,
                    ),
                forall|j: int| i <= j < nodes.len() ==> #[trigger] self@.nodes[j] == nodes[j],
                failed_nodes@ == newly_failed(nodes.take(i as int), now, timeout, threshold),
            decreases nodes.len() - i,
        {
            proof {
                assert(nodes.take(i + 1).drop_last() =~= nodes.take(i as int));
                assert(nodes.take(i + 1).last() == nodes[i as int]);
            }
            let (node_id, h) = self.nodes.get_at(i);
            let mut health = h;
            let failed = health.check_health(now, timeout, threshold);
            self.nodes.set_at(i, health);
            if failed {
                failed_nodes.push(node_id);
            }
            i += 1;
        }
        proof {
            assert(nodes.take(nodes.len() as int) =~= nodes);
            assert(self@.nodes =~= checked_nodes(nodes, now, timeout, threshold));
            assert forall|a: int, b: int|
                0 <= a < self@.nodes.len() && 0 <= b < self@.nodes.len() && a != b implies self@.nodes[a].0
                != self@.nodes[b].0 by {
                assert(self@.nodes[a].0 == nodes[a].0);
                assert(self@.nodes[b].0 == nodes[b].0);
            }
            assert forall|j: int| 0 <= j < self@.nodes.len() implies ((#[trigger] self@.nodes[j]).1.last_heartbeat
                matches Some(t) ==> t <= self@.clock) by {
                assert(self@.nodes[j].1.last_heartbeat == nodes[j].1.last_heartbeat);
            }
        }
        failed_nodes
    }

    /// The time at which the detector checks now: the later of the wall
    /// clock and the latest time it has seen, so that time as the detector
    /// sees it never goes back.
    fn current_time(&self) -> (r: u128)
        ensures
            self@.clock <= r,
            r <= self@.clock || r <= DURATION_MAX_NANOS,
    {
        let reading = unix_now_nanos();
        if reading > self.clock {
            reading
        } else {
            self.clock
        }
    }

    /// Checks every node now; returns the nodes found failed by this check.
    /// Now is no earlier than any heartbeat recorded before, and no later
    /// than a clock reading or that heartbeat.
    pub fn check_all_nodes(&mut self) -> (r: Vec<u64>)
        requires
            old(self).wf(),
        ensures
            final(self).wf(),
            final(self).same_settings(old(self)),
            final(self)@.clock == old(self)@.clock,
            exists|now: u128|
                old(self)@.clock <= now && (now <= old(self)@.clock || now <= DURATION_MAX_NANOS)
                    && final(self)@.nodes == #[trigger] checked_nodes(
                    old(self)@.nodes,
                    now,
                    old(self)@.heartbeat_timeout,
                    old(self)@.failure_threshold,
                ) && r@ == newly_failed(
                    old(self)@.nodes,
                    now,
                    old(self)@.heartbeat_timeout,
                    old(self)@.failure_threshold,
                ),
    {
        let now = self.current_time();
        self.check_all_nodes_at(now)
    }

    /// Stops tracking `node_id`.
    pub fn remove_node(&mut self, node_id: u64)
        requires
            old(self).wf(),
        ensures
            final(self).wf(),
            final(self).same_settings(old(self)),
            final(self)@.nodes == removed(old(self)@.nodes, node_id),
            final(self)@.clock == old(self)@.clock,
    {
        let ghost before = self@.nodes;
        self.nodes.remove(node_id);
        proof {
            if has_key(before, node_id) {
                assert forall|j: int| 0 <= j < self@.nodes.len() implies ((#[trigger] self@.nodes[j]).1.last_heartbeat
                    matches Some(t) ==> t <= self@.clock) by {
                    let k = key_pos(before, node_id);
                    if j < k {
                        assert(self@.nodes[j] == before[j]);
                    } else {
                        assert(self@.nodes[j] == before[j + 1]);
                    }
                }
            }
        }
    }

    /// The nodes in state `status`, in order.
    fn nodes_with_status(&self, status: NodeStatus) -> (r: Vec<u64>)
        ensures
            r@ == ids_with_status(self@.nodes, status),
    {
        let ghost nodes = self@.nodes;
        let mut ids: Vec<u64> = Vec::new();
        let mut i: usize = 0;
        while i < self.nodes.len()
            invariant
                nodes == self@.nodes,
                0 <= i <= nodes.len(),
                ids@ == ids_with_status(nodes.take(i as int), status),
            decreases nodes.len() - i,
        {
            proof {
                assert(nodes.take(i + 1).drop_last() =~= nodes.take(i as int));
                assert(nodes.take(i + 1).last() == nodes[i as int]);
            }
            let (node_id, h) = self.nodes.get_at(i);
            if h.status == status {
                ids.push(node_id);
            }
            i += 1;
        }
        proof {
            assert(nodes.take(nodes.len() as int) =~= nodes);
        }
        ids
    }

    /// The nodes known to have failed.
    pub fn get_failed_nodes(&self) -> (r: Vec<u64>)
        ensures
            r@ == ids_with_status(self@.nodes, NodeStatus::Failed),
    {
        self.nodes_with_status(NodeStatus::Failed)
    }

    /// The nodes under suspicion.
    pub fn get_suspect_nodes(&self) -> (r: Vec<u64>)
        ensures
            r@ == ids_with_status(self@.nodes, NodeStatus::Suspect),
    {
        self.nodes_with_status(NodeStatus::Suspect)
    }
}

impl NodeHealth {
    /// The health `new(now)` gives.
    pub open spec fn new_spec(now: u128) -> NodeHealth {
        NodeHealth {
            status: NodeStatus::Healthy,
            last_heartbeat: None,
            consecutive_failures: 0,
            last_check: now,
        }
    }
}

/// Tracks the leader of each region and forgets leaders that failed.
pub struct LeaderSwitchManager {
    pub failure_detector: FailureDetector,
    /// The leader of each region, by region id.
    pub region_leaders: IdMap<u64>,
}

impl LeaderSwitchManager {
    /// The leader of each region, by region id.
    pub open spec fn leaders(&self) -> Seq<(u64, u64)> {
        self.region_leaders@
    }

    pub open spec fn wf(&self) -> bool {
        &&& self.failure_detector.wf()
        &&& distinct_keys(self.leaders())
    }

    pub fn new(failure_detector: FailureDetector) -> (r: Self)
        requires
            failure_detector.wf(),
        ensures
            r.wf(),
            r.failure_detector@ == failure_detector@,
            r.leaders() == Seq::<(u64, u64)>::empty(),
    {
        LeaderSwitchManager { failure_detector, region_leaders: IdMap::new() }
    }

    /// Records `leader_id` as the leader of `region_id`.
    pub fn set_leader(&mut self, region_id: u64, leader_id: u64)
        requires
            old(self).wf(),
        ensures
            final(self).wf(),
            final(self).failure_detector@ == old(self).failure_detector@,
            final(self).leaders() == inserted(old(self).leaders(), region_id, leader_id),
    {
        self.region_leaders.insert(region_id, leader_id);
    }

    /// The leader of `region_id`, if known.
    pub fn get_leader(&self, region_id: u64) -> (r: Option<u64>)
        requires
            self.wf(),
        ensures
            r == value_of(self.leaders(), region_id),
    {
        self.region_leaders.get(region_id)
    }

    /// The leader of `region_id`, unless it is known to have failed: then
    /// the leader is forgotten (a new one must be elected) and the answer
    /// is `None`.
    pub fn check_and_switch_leader(&mut self, region_id: u64) -> (r: Option<u64>)
        requires
            old(self).wf(),
        ensures
            final(self).wf(),
            final(self).failure_detector@ == old(self).failure_detector@,
            match value_of(old(self).leaders(), region_id) {
                Some(l) => if value_of(old(self).failure_detector@.nodes, l) matches Some(h)
                    && h.status == NodeStatus::Failed {
                    r is None && final(self).leaders() == removed(old(self).leaders(), region_id)
                } else {
                    r == Some(l) && final(self).leaders() == old(self).leaders()
                },
                None => r is None && final(self).leaders() == old(self).leaders(),
            },
    {
        if let Some(leader_id) = self.get_leader(region_id) {
            if let Some(status) = self.failure_detector.get_status(leader_id) {
                if status == NodeStatus::Failed {
                    self.region_leaders.remove(region_id);
                    return None;
                }
            }
        }
        self.get_leader(region_id)
    }

    /// The regions whose leader is among `failed_nodes`, with that leader.
    pub fn leaders_on(&self, failed_nodes: &Vec<u64>) -> (r: Vec<(u64, u64)>)
        ensures
            r@ == leaders_among(self.leaders(), failed_nodes@),
    {
        let ghost s = self.leaders();
        let mut out: Vec<(u64, u64)> = Vec::new();
        let mut i: usize = 0;
        while i < self.region_leaders.len()
            invariant
                s == self.leaders(),
                0 <= i <= s.len(),
                out@ == leaders_among(s.take(i as int), failed_nodes@),
            decreases s.len() - i,
        {
            proof {
                assert(s.take(i + 1).drop_last() =~= s.take(i as int));
                assert(s.take(i + 1).last() == s[i as int]);
            }
            let (region_id, leader_id) = self.region_leaders.get_at(i);
            if vec_contains(failed_nodes, leader_id) {
                out.push((region_id, leader_id));
            }
            i += 1;
        }
        proof {
            assert(s.take(s.len() as int) =~= s);
        }
        out
    }
}

/// The pairs of `leaders` whose leader is in `failed`, in order.
pub open spec fn leaders_among(leaders: Seq<(u64, u64)>, failed: Seq<u64>) -> Seq<(u64, u64)>
    decreases leaders.len(),
{
    if leaders.len() == 0 {
        Seq::empty()
    } else {
        let before = leaders_among(leaders.drop_last(), failed);
        if failed.contains(leaders.last().1) {
            before.push(leaders.last())
        } else {
            before
        }
    }
}

/// Whether `v` occurs in `s`.
fn vec_contains(s: &Vec<u64>, v: u64) -> (r: bool)
    ensures
        r == s@.contains(v),
{
    let mut i: usize = 0;
    while i < s.len()
        invariant
            0 <= i <= s@.len(),
            forall|j: int| 0 <= j < i ==> s@[j] != v,
        decreases s@.len() - i,
    {
        if s[i] == v {
            assert(s@[i as int] == v);
            return true;
        }
        i += 1;
    }
    false
}

} // verus!
