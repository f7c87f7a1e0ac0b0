//! Evaluation order by Kahn's algorithm, and node depths.

use std::collections::VecDeque;
use vstd::prelude::*;

use super::builder::{deps_of, dependents_of, nodes_wf, same_shape, wf_deps, wf_dependents, wf_ids, wf_no_dups, Depsgraph};
use super::node::DepNode;
use super::order::{has_cycle, is_dep_cycle, lemma_pigeonhole, is_eval_order, lemma_closed_set_has_cycle, lemma_eval_order_acyclic, count_missing, lemma_count_missing_push, lemma_count_missing_zero, lemma_distinct_ids};
use super::{DepsgraphError, DepsgraphResult, NodeId};

verus! {

/// The largest depth among the dependencies `ds` that lie in the table, or
/// -1 when there is none.
pub open spec fn max_dep_depth(nodes: Seq<DepNode>, ds: Seq<NodeId>) -> int
    decreases ds.len(),
{
    if ds.len() == 0 {
        -1
    } else {
        let m = max_dep_depth(nodes, ds.drop_last());
        let d = ds.last();
        let x = if (d as int) < nodes.len() {
            nodes[d as int].depth as int
        } else {
            -1
        };
        if x > m {
            x
        } else {
            m
        }
    }
}

/// Tables with the same shape and depths assign depths alike.
pub proof fn lemma_depths_transfer(o: Seq<DepNode>, f: Seq<DepNode>)
    requires
        depths_assigned(o),
        o.len() == f.len(),
        forall|i: int| 0 <= i < f.len() ==> same_shape(#[trigger] f[i], o[i]) && f[i].depth == o[i].depth,
    ensures
        depths_assigned(f),
{
    assert forall|i: int| 0 <= i < f.len() implies (#[trigger] f[i]).depth as int == max_dep_depth(
        f,
        deps_of(f, i),
    ) + 1 by {
        assert(same_shape(f[i], o[i]));
        lemma_max_dep_depth_same(o, f, deps_of(o, i));
    }
}

/// `max_dep_depth` reads only the depths.
proof fn lemma_max_dep_depth_same(o: Seq<DepNode>, f: Seq<DepNode>, ds: Seq<NodeId>)
    requires
        o.len() == f.len(),
        forall|i: int| 0 <= i < f.len() ==> (#[trigger] f[i]).depth == o[i].depth,
    ensures
        max_dep_depth(f, ds) == max_dep_depth(o, ds),
    decreases ds.len(),
{
    if ds.len() > 0 {
        lemma_max_dep_depth_same(o, f, ds.drop_last());
        let d = ds.last() as int;
        if d < f.len() {
            assert(f[d].depth == o[d].depth);
        }
    }
}

/// Every node's depth is one more than the largest depth among its
/// dependencies: 0 for a node without dependencies.
pub open spec fn depths_assigned(nodes: Seq<DepNode>) -> bool {
    forall|i: int|
        0 <= i < nodes.len() ==> (#[trigger] nodes[i]).depth as int == max_dep_depth(
            nodes,
            deps_of(nodes, i),
        ) + 1
}

/// The largest depth among `ds` is at least the depth of each of them.
proof fn lemma_max_dep_depth_ge(nodes: Seq<DepNode>, ds: Seq<NodeId>, k: int)
    requires
        0 <= k < ds.len(),
        (ds[k] as int) < nodes.len(),
    ensures
        max_dep_depth(nodes, ds) >= nodes[ds[k] as int].depth,
    decreases ds.len(),
{
    if k < ds.len() - 1 {
        assert(ds.drop_last()[k] == ds[k]);
        lemma_max_dep_depth_ge(nodes, ds.drop_last(), k);
    }
}

/// Once depths are assigned, every dependency of a node lies at a smaller
/// depth; so nodes of equal depth never depend on each other, and each
/// depth level can be evaluated as one parallel batch.
pub proof fn lemma_depth_levels_independent(nodes: Seq<DepNode>, i: int, j: NodeId)
    requires
        depths_assigned(nodes),
        0 <= i < nodes.len(),
        (j as int) < nodes.len(),
        deps_of(nodes, i).contains(j),
    ensures
        nodes[j as int].depth < nodes[i].depth,
        nodes[j as int].depth != nodes[i].depth,
{
    let ds = deps_of(nodes, i);
    let k = choose|k: int| 0 <= k < ds.len() && ds[k] == j;
    lemma_max_dep_depth_ge(nodes, ds, k);
    assert(nodes[i].depth as int == max_dep_depth(nodes, ds) + 1);
}

proof fn lemma_max_dep_depth_bound(nodes: Seq<DepNode>, ds: Seq<NodeId>, b: int)
    requires
        -1 <= b,
        forall|k: int|
            0 <= k < ds.len() ==> (#[trigger] ds[k] as int) < nodes.len() && nodes[ds[k] as int].depth
                <= b,
    ensures
        max_dep_depth(nodes, ds) <= b,
        ds.len() > 0 ==> max_dep_depth(nodes, ds) >= 0,
    decreases ds.len(),
{
    if ds.len() > 0 {
        assert forall|k: int| 0 <= k < ds.len() - 1 implies (#[trigger] ds.drop_last()[k] as int)
            < nodes.len() && nodes[ds.drop_last()[k] as int].depth <= b by {
            assert(ds.drop_last()[k] == ds[k]);
        }
        lemma_max_dep_depth_bound(nodes, ds.drop_last(), b);
        assert((ds[ds.len() - 1] as int) < nodes.len());
    }
}

proof fn lemma_max_dep_depth_frame(a: Seq<DepNode>, b: Seq<DepNode>, ds: Seq<NodeId>)
    requires
        a.len() == b.len(),
        forall|k: int|
            0 <= k < ds.len() && (#[trigger] ds[k] as int) < a.len() ==> a[ds[k] as int].depth
                == b[ds[k] as int].depth,
    ensures
        max_dep_depth(a, ds) == max_dep_depth(b, ds),
    decreases ds.len(),
{
    if ds.len() > 0 {
        assert forall|k: int| 0 <= k < ds.len() - 1 && (#[trigger] ds.drop_last()[k] as int) < a.len()
            implies a[ds.drop_last()[k] as int].depth == b[ds.drop_last()[k] as int].depth by {
            assert(ds.drop_last()[k] == ds[k]);
        }
        lemma_max_dep_depth_frame(a, b, ds.drop_last());
        let d = ds[ds.len() - 1];
        if (d as int) < a.len() {
            assert(a[d as int].depth == b[d as int].depth);
        }
    }
}

/// The list holds every id of `ds`.
pub open spec fn holds_all(done: Seq<NodeId>, ds: Seq<NodeId>) -> bool {
    forall|k: int| 0 <= k < ds.len() ==> done.contains(#[trigger] ds[k])
}

/// The state of Kahn's scan with a first-in-first-out queue: the nodes
/// ordered so far, the queue, and for each node the count of its
/// dependencies not yet ordered.
pub struct KahnScan {
    pub order: Seq<NodeId>,
    pub queue: Seq<NodeId>,
    pub indeg: Seq<u32>,
}

/// The nodes among the first `i` that have no dependencies, by id.
pub open spec fn roots_before(nodes: Seq<DepNode>, i: int) -> Seq<NodeId>
    decreases i,
{
    if i <= 0 {
        Seq::empty()
    } else if deps_of(nodes, i - 1).len() as u32 == 0 {
        roots_before(nodes, i - 1).push((i - 1) as NodeId)
    } else {
        roots_before(nodes, i - 1)
    }
}

/// The scan before its first step: nothing ordered, the nodes without
/// dependencies queued by id, every count the node's number of dependencies.
pub open spec fn kahn_start(nodes: Seq<DepNode>) -> KahnScan {
    KahnScan {
        order: Seq::empty(),
        queue: roots_before(nodes, nodes.len() as int),
        indeg: Seq::new(nodes.len(), |j: int| deps_of(nodes, j).len() as u32),
    }
}

/// Counts down each of `ds` in turn (never below zero), queueing each one
/// whose count reaches zero.
pub open spec fn relax(st: KahnScan, ds: Seq<NodeId>) -> KahnScan
    decreases ds.len(),
{
    if ds.len() == 0 {
        st
    } else {
        let s1 = relax(st, ds.drop_last());
        let w = ds.last();
        let x = s1.indeg[w as int];
        let nx: u32 = if x > 0 { (x - 1) as u32 } else { 0 };
        KahnScan {
            indeg: s1.indeg.update(w as int, nx),
            queue: if nx == 0 { s1.queue.push(w) } else { s1.queue },
            ..s1
        }
    }
}

/// One step of the scan: the front of the queue is ordered and its
/// dependents are counted down. With an empty queue the scan has ended.
pub open spec fn kahn_pop(nodes: Seq<DepNode>, st: KahnScan) -> KahnScan {
    if st.queue.len() == 0 {
        st
    } else {
        let u = st.queue[0];
        relax(
            KahnScan { order: st.order.push(u), queue: st.queue.drop_first(), ..st },
            dependents_of(nodes, u as int),
        )
    }
}

/// The scan after `k` steps.
pub open spec fn kahn_steps(nodes: Seq<DepNode>, k: nat) -> KahnScan
    decreases k,
{
    if k == 0 {
        kahn_start(nodes)
    } else {
        kahn_pop(nodes, kahn_steps(nodes, (k - 1) as nat))
    }
}

/// The order in which Kahn's scan with a first-in-first-out queue lists the
/// nodes: its order once it has ended (it ends within as many steps as
/// there are nodes).
pub open spec fn kahn_fifo_order(nodes: Seq<DepNode>) -> Seq<NodeId> {
    kahn_steps(nodes, nodes.len()).order
}

/// Once the queue is empty the scan stays where it is.
proof fn lemma_kahn_ended(nodes: Seq<DepNode>, k: nat, m: nat)
    requires
        k <= m,
        kahn_steps(nodes, k).queue.len() == 0,
    ensures
        kahn_steps(nodes, m) == kahn_steps(nodes, k),
    decreases m - k,
{
    if k < m {
        lemma_kahn_ended(nodes, k, (m - 1) as nat);
    }
}

impl Depsgraph {
    /// Kahn's algorithm with a FIFO queue: the nodes it can order, in order,
    /// and the number of unordered dependencies left for each node.
    fn kahn_order(&self) -> (r: (Vec<NodeId>, Vec<u32>))
        requires
            self.wf(),
        ensures
            ({
                let (order, indeg) = r;
                let nodes = self.nodes@;
                &&& order@.no_duplicates()
                &&& forall|k: int| 0 <= k < order@.len() ==> #[trigger] order@[k] < nodes.len()
                &&& forall|k: int, j: int|
                    0 <= k < order@.len() && 0 <= j < deps_of(nodes, order@[k] as int).len()
                        ==> order@.take(k).contains(#[trigger] deps_of(nodes, order@[k] as int)[j])
                &&& indeg@.len() == nodes.len()
                &&& forall|j: int|
                    0 <= j < nodes.len() ==> #[trigger] indeg@[j] == count_missing(
                        deps_of(nodes, j),
                        order@,
                    )
                &&& forall|j: int|
                    0 <= j < nodes.len() && !order@.contains(j as NodeId) ==> #[trigger] indeg@[j]
                        > 0
                &&& order@ == kahn_fifo_order(nodes)
            }),
    {
        let ghost nodes = self.nodes@;
        let n = self.nodes.len();
        let mut in_degree: Vec<u32> = Vec::new();
        let mut i: usize = 0;
        while i < n
            invariant
                i <= n == nodes.len(),
                nodes == self.nodes@,
                nodes_wf(nodes),
                in_degree@.len() == i,
                forall|j: int|
                    0 <= j < i ==> #[trigger] in_degree@[j] == count_missing(
                        deps_of(nodes, j),
                        Seq::<NodeId>::empty(),
                    ),
                forall|j: int| 0 <= j < i ==> #[trigger] in_degree@[j] == deps_of(nodes, j).len() as u32,
            decreases n - i,
        {
            proof {
                lemma_count_missing_zero(deps_of(nodes, i as int), Seq::empty());
                lemma_count_empty(deps_of(nodes, i as int));
                lemma_distinct_ids(deps_of(nodes, i as int), n as int);
            }
            in_degree.push(self.nodes[i].dependencies.len() as u32);
            i = i + 1;
        }
        assert(in_degree@ == kahn_start(nodes).indeg);
        let mut queue: VecDeque<NodeId> = VecDeque::new();
        let mut i: usize = 0;
        while i < n
            invariant
                i <= n == nodes.len(),
                nodes == self.nodes@,
                nodes_wf(nodes),
                in_degree@.len() == n,
                forall|j: int|
                    0 <= j < n ==> #[trigger] in_degree@[j] == count_missing(
                        deps_of(nodes, j),
                        Seq::<NodeId>::empty(),
                    ),
                queue@.no_duplicates(),
                forall|k: int| 0 <= k < queue@.len() ==> (#[trigger] queue@[k] as int) < i,
                forall|k: int| 0 <= k < queue@.len() ==> in_degree@[#[trigger] queue@[k] as int] == 0,
                forall|j: int| 0 <= j < i && in_degree@[j] == 0 ==> #[trigger] queue@.contains(j as NodeId),
                in_degree@ == kahn_start(nodes).indeg,
                queue@ == roots_before(nodes, i as int),
            decreases n - i,
        {
            if in_degree[i] == 0 {
                let ghost q0 = queue@;
                queue.push_back(i as NodeId);
                proof {
                    assert(queue@[q0.len() as int] == i as NodeId);
                    assert forall|j: int| 0 <= j < i + 1 && in_degree@[j] == 0 implies #[trigger] queue@.contains(j as NodeId) by {
                        if j < i {
                            assert(q0.contains(j as NodeId));
                            let k = choose|k: int| 0 <= k < q0.len() && q0[k] == j as NodeId;
                            assert(queue@[k] == j as NodeId);
                        }
                    }
                }
            }
            i = i + 1;
        }
        let mut order: Vec<NodeId> = Vec::new();
        proof {
            assert forall|j: int| 0 <= j < n implies #[trigger] in_degree@[j] == count_missing(deps_of(nodes, j), order@) by {
                assert(order@ == Seq::<NodeId>::empty());
            }
        }
        loop
            invariant
                n == nodes.len() == self.nodes@.len(),
                nodes == self.nodes@,
                nodes_wf(nodes),
                in_degree@.len() == n,
                forall|j: int|
                    0 <= j < n ==> #[trigger] in_degree@[j] == count_missing(deps_of(nodes, j), order@),
                order@.no_duplicates(),
                queue@.no_duplicates(),
                forall|k: int| 0 <= k < order@.len() ==> #[trigger] order@[k] < n,
                forall|k: int| 0 <= k < queue@.len() ==> #[trigger] queue@[k] < n,
                forall|k: int| 0 <= k < queue@.len() ==> !order@.contains(#[trigger] queue@[k]),
                forall|k: int| 0 <= k < queue@.len() ==> in_degree@[#[trigger] queue@[k] as int] == 0,
                forall|j: int|
                    0 <= j < n && in_degree@[j] == 0 && !order@.contains(j as NodeId)
                        ==> #[trigger] queue@.contains(j as NodeId),
                forall|k: int, j: int|
                    0 <= k < order@.len() && 0 <= j < deps_of(nodes, order@[k] as int).len()
                        ==> order@.take(k).contains(#[trigger] deps_of(nodes, order@[k] as int)[j]),
                (KahnScan { order: order@, queue: queue@, indeg: in_degree@ }) == kahn_steps(
                    nodes,
                    order@.len(),
                ),
            ensures
                queue@.len() == 0,
                (KahnScan { order: order@, queue: queue@, indeg: in_degree@ }) == kahn_steps(
                    nodes,
                    order@.len(),
                ),
            decreases n - order@.len(),
        {
            proof {
                lemma_distinct_ids(order@ + queue@, n as int);
            }
            let ghost o0 = order@;
            let ghost q0 = queue@;
            match queue.pop_front() {
                None => {
                    break;
                },
                Some(u) => {
                    let uidx = u as usize;
                    proof {
                        assert(q0[0] == u);
                        lemma_count_missing_zero(deps_of(nodes, u as int), o0);
                    }
                    order.push(u);
                    proof {
                        assert forall|k: int, j: int|
                            0 <= k < order@.len() && 0 <= j < deps_of(nodes, order@[k] as int).len()
                                implies order@.take(k).contains(#[trigger] deps_of(nodes, order@[k] as int)[j]) by {
                            if k < o0.len() {
                                assert(order@[k] == o0[k]);
                                assert(order@.take(k) == o0.take(k));
                            } else {
                                assert(order@.take(k) == o0);
                                assert(order@[k] == u);
                                assert(o0.contains(deps_of(nodes, u as int)[j]));
                            }
                        }
                    }
                    let ghost q1 = queue@;
                    let ghost d1 = in_degree@;
                    proof {
                        let ds = dependents_of(nodes, u as int);
                        assert(q1 == q0.subrange(1, q0.len() as int));
                        assert(!o0.contains(u));
                        assert((u as int) < n);
                        assert(ds.subrange(0, ds.len() as int) == ds);
                        assert forall|j: int| 0 <= j < n implies #[trigger] in_degree@[j] == count_missing(deps_of(nodes, j), order@)
                            + if ds.subrange(0, ds.len() as int).contains(j as NodeId) { 1nat } else { 0nat } by {
                            lemma_count_missing_push(deps_of(nodes, j), o0, u);
                            if ds.contains(j as NodeId) {
                                let k = choose|k: int| 0 <= k < ds.len() && ds[k] == j as NodeId;
                                assert(deps_of(nodes, ds[k] as int).contains(u as NodeId));
                            }
                            if deps_of(nodes, j).contains(u) {
                                let k = choose|k: int| 0 <= k < deps_of(nodes, j).len() && deps_of(nodes, j)[k] == u;
                                assert(dependents_of(nodes, deps_of(nodes, j)[k] as int).contains(j as NodeId));
                            }
                        }
                        assert forall|k: int| 0 <= k < q1.len() implies !order@.contains(#[trigger] q1[k]) by {
                            assert(q1[k] == q0[k + 1]);
                            assert(!o0.contains(q0[k + 1]));
                            assert(q0[k + 1] != q0[0]);
                            if order@.contains(q1[k]) {
                                let m = choose|m: int| 0 <= m < order@.len() && order@[m] == q1[k];
                                if m < o0.len() {
                                    assert(o0[m] == q1[k]);
                                }
                            }
                        }
                        assert forall|k: int| 0 <= k < q1.len() implies in_degree@[#[trigger] q1[k] as int] == 0 && q1[k] < n by {
                            assert(q1[k] == q0[k + 1]);
                        }
                        assert forall|j: int|
                            0 <= j < n && in_degree@[j] == 0 && !order@.contains(j as NodeId)
                                implies #[trigger] q1.contains(j as NodeId) by {
                            assert(!o0.contains(j as NodeId)) by {
                                if o0.contains(j as NodeId) {
                                    let m = choose|m: int| 0 <= m < o0.len() && o0[m] == j as NodeId;
                                    assert(order@[m] == j as NodeId);
                                }
                            }
                            assert(j as NodeId != u) by {
                                assert(order@[o0.len() as int] == u);
                            }
                            assert(q0.contains(j as NodeId));
                            let k = choose|k: int| 0 <= k < q0.len() && q0[k] == j as NodeId;
                            assert(k != 0);
                            assert(q1[k - 1] == j as NodeId);
                        }
                    }
                    let deps_len = self.nodes[uidx].dependents.len();
                    let mut t: usize = 0;
                    while t < deps_len
                        invariant
                            n == nodes.len() == self.nodes@.len(),
                            nodes == self.nodes@,
                            nodes_wf(nodes),
                            (u as int) < n,
                            uidx == u as usize,
                            deps_len == dependents_of(nodes, u as int).len(),
                            t <= deps_len,
                            order@ == o0.push(u),
                            !o0.contains(u),
                            o0.no_duplicates(),
                            holds_all(o0, deps_of(nodes, u as int)),
                            in_degree@.len() == n,
                            forall|j: int|
                                0 <= j < n ==> #[trigger] in_degree@[j] == count_missing(deps_of(nodes, j), order@)
                                    + if dependents_of(nodes, u as int).subrange(t as int, deps_len as int).contains(j as NodeId) {
                                    1nat
                                } else {
                                    0nat
                                },
                            queue@.no_duplicates(),
                            forall|k: int| 0 <= k < queue@.len() ==> #[trigger] queue@[k] < n,
                            forall|k: int| 0 <= k < queue@.len() ==> !order@.contains(#[trigger] queue@[k]),
                            forall|k: int| 0 <= k < queue@.len() ==> in_degree@[#[trigger] queue@[k] as int] == 0,
                            forall|j: int|
                                0 <= j < n && in_degree@[j] == 0 && !order@.contains(j as NodeId)
                                    ==> #[trigger] queue@.contains(j as NodeId),
                            forall|k: int, j: int|
                                0 <= k < order@.len() && 0 <= j < deps_of(nodes, order@[k] as int).len()
                                    ==> order@.take(k).contains(#[trigger] deps_of(nodes, order@[k] as int)[j]),
                            (KahnScan { order: order@, queue: queue@, indeg: in_degree@ }) == relax(
                                KahnScan { order: order@, queue: q1, indeg: d1 },
                                dependents_of(nodes, u as int).take(t as int),
                            ),
                        decreases deps_len - t,
                    {
                        let w = self.nodes[uidx].dependents[t];
                        let widx = w as usize;
                        proof {
                            let ds = dependents_of(nodes, u as int);
                            assert(ds[t as int] == w);
                            assert(deps_of(nodes, w as int).contains(u));
                            lemma_count_missing_push(deps_of(nodes, w as int), o0, u);
                            assert(ds.subrange(t as int, deps_len as int).contains(w)) by {
                                assert(ds.subrange(t as int, deps_len as int)[0] == w);
                            }
                        }
                        let ghost dprev = in_degree@;
                        let ghost qprev = queue@;
                        let x = in_degree[widx];
                        let nx = if x > 0 { x - 1 } else { 0 };
                        in_degree.set(widx, nx);
                        if nx == 0 {
                            queue.push_back(w);
                        }
                        t = t + 1;
                        proof {
                            let ds = dependents_of(nodes, u as int);
                            assert(ds.take(t as int).drop_last() == ds.take(t - 1));
                            assert(ds.take(t as int).last() == w);
                            let rest0 = ds.subrange((t - 1) as int, deps_len as int);
                            let rest1 = ds.subrange(t as int, deps_len as int);
                            assert(ds.no_duplicates());
                            assert(!rest1.contains(w)) by {
                                if rest1.contains(w) {
                                    let k = choose|k: int| 0 <= k < rest1.len() && rest1[k] == w;
                                    assert(ds[t + k] == ds[t - 1]);
                                }
                            }
                            assert forall|y: NodeId| y != w implies rest0.contains(y) == rest1.contains(y) by {
                                if rest0.contains(y) {
                                    let k = choose|k: int| 0 <= k < rest0.len() && rest0[k] == y;
                                    assert(k != 0);
                                    assert(rest1[k - 1] == y);
                                }
                                if rest1.contains(y) {
                                    let k = choose|k: int| 0 <= k < rest1.len() && rest1[k] == y;
                                    assert(rest0[k + 1] == y);
                                }
                            }
                            assert(x as int == count_missing(deps_of(nodes, w as int), order@) + 1);
                            // w was not ordered before: all of its dependencies would have been.
                            assert(!order@.contains(w)) by {
                                if order@.contains(w) {
                                    let k = choose|k: int| 0 <= k < order@.len() && order@[k] == w;
                                    if w == u {
                                        let j = choose|j: int| 0 <= j < deps_of(nodes, u as int).len() && deps_of(nodes, u as int)[j] == u;
                                        assert(o0.contains(deps_of(nodes, u as int)[j]));
                                    } else {
                                        assert(k < o0.len());
                                        let j = choose|j: int| 0 <= j < deps_of(nodes, w as int).len() && deps_of(nodes, w as int)[j] == u;
                                        assert(order@.take(k).contains(deps_of(nodes, order@[k] as int)[j]));
                                        let m = choose|m: int| 0 <= m < order@.take(k).len() && order@.take(k)[m] == u;
                                        assert(o0[m] == u);
                                    }
                                }
                            }
                            assert(!qprev.contains(w)) by {
                                if qprev.contains(w) {
                                    let k = choose|k: int| 0 <= k < qprev.len() && qprev[k] == w;
                                    assert(dprev[qprev[k] as int] == 0);
                                }
                            }
                            if nx == 0 {
                                assert(queue@[qprev.len() as int] == w);
                                assert forall|k: int| 0 <= k < queue@.len() implies !order@.contains(#[trigger] queue@[k]) by {
                                    if k < qprev.len() {
                                        assert(queue@[k] == qprev[k]);
                                    }
                                }
                                assert forall|k: int| 0 <= k < queue@.len() implies in_degree@[#[trigger] queue@[k] as int] == 0 by {
                                    if k < qprev.len() {
                                        assert(queue@[k] == qprev[k]);
                                    }
                                }
                                assert forall|k: int| 0 <= k < queue@.len() implies #[trigger] queue@[k] < n by {
                                    if k < qprev.len() {
                                        assert(queue@[k] == qprev[k]);
                                    }
                                }
                                assert(queue@.no_duplicates());
                            }
                            assert forall|j: int|
                                0 <= j < n && in_degree@[j] == 0 && !order@.contains(j as NodeId)
                                    implies #[trigger] queue@.contains(j as NodeId) by {
                                if j == w {
                                    assert(queue@[qprev.len() as int] == w);
                                } else {
                                    assert(in_degree@[j] == dprev[j]);
                                    assert(qprev.contains(j as NodeId));
                                    let k = choose|k: int| 0 <= k < qprev.len() && qprev[k] == j as NodeId;
                                    assert(queue@[k] == j as NodeId);
                                }
                            }
                            assert forall|j: int|
                                0 <= j < n implies #[trigger] in_degree@[j] == count_missing(deps_of(nodes, j), order@)
                                    + if rest1.contains(j as NodeId) { 1nat } else { 0nat } by {
                                if j != w {
                                    assert(in_degree@[j] == dprev[j]);
                                    assert(rest0.contains(j as NodeId) == rest1.contains(j as NodeId));
                                }
                            }
                        }
                    }
                    proof {
                        let ds = dependents_of(nodes, u as int);
                        assert(ds.subrange(deps_len as int, deps_len as int).len() == 0);
                        assert forall|j: int| 0 <= j < n implies #[trigger] in_degree@[j] == count_missing(deps_of(nodes, j), order@) by {
                            assert(!ds.subrange(deps_len as int, deps_len as int).contains(j as NodeId));
                        }
                        assert forall|k: int| 0 <= k < order@.len() implies #[trigger] order@[k] < n by {
                            if k < o0.len() {
                                assert(order@[k] == o0[k]);
                            }
                        }
                        assert(order@.no_duplicates());
                    }
                    proof {
                        // the dependents loop started from the queue without its front
                        let ds = dependents_of(nodes, u as int);
                        assert(q1 == q0.drop_first());
                        assert(ds.take(deps_len as int) == ds);
                        assert(kahn_steps(nodes, order@.len()) == kahn_pop(nodes, kahn_steps(nodes, o0.len())));
                    }
                },
            }
        }
        proof {
            assert forall|j: int|
                0 <= j < n && !order@.contains(j as NodeId) implies #[trigger] in_degree@[j] > 0 by {
                if in_degree@[j] == 0 {
                    assert(queue@.contains(j as NodeId));
                }
            }
            lemma_distinct_ids(order@, n as int);
            lemma_kahn_ended(nodes, order@.len(), n as nat);
        }
        (order, in_degree)
    }
}

/// The depth a node gets: one more than the largest depth among its
/// dependencies in the table.
fn node_depth(nodes: &Vec<DepNode>, idx: usize) -> (d: u32)
    requires
        idx < nodes@.len(),
        forall|k: int|
            0 <= k < deps_of(nodes@, idx as int).len() ==> (#[trigger] deps_of(nodes@, idx as int)[k] as int)
                < nodes@.len() && nodes@[deps_of(nodes@, idx as int)[k] as int].depth < u32::MAX,
    ensures
        d as int == max_dep_depth(nodes@, deps_of(nodes@, idx as int)) + 1,
{
    let ghost ds = deps_of(nodes@, idx as int);
    let len = nodes[idx].dependencies.len();
    if len == 0 {
        return 0;
    }
    let mut best: u32 = 0;
    let mut t: usize = 0;
    while t < len
        invariant
            idx < nodes@.len(),
            ds == deps_of(nodes@, idx as int),
            len == ds.len() > 0,
            t <= len,
            forall|k: int|
                0 <= k < ds.len() ==> (#[trigger] ds[k] as int) < nodes@.len() && nodes@[ds[k] as int].depth
                    < u32::MAX,
            best as int == if max_dep_depth(nodes@, ds.take(t as int)) > 0 {
                max_dep_depth(nodes@, ds.take(t as int))
            } else {
                0
            },
            best < u32::MAX,
        decreases len - t,
    {
        let d = nodes[idx].dependencies[t] as usize;
        assert(ds.take(t + 1).drop_last() == ds.take(t as int));
        assert(ds.take(t + 1).last() == ds[t as int]);
        if d < nodes.len() && nodes[d].depth > best {
            best = nodes[d].depth;
        }
        t = t + 1;
    }
    proof {
        assert(ds.take(len as int) == ds);
        assert forall|k: int| 0 <= k < ds.len() implies (#[trigger] ds[k] as int) < nodes@.len()
            && nodes@[ds[k] as int].depth <= u32::MAX by {}
        lemma_max_dep_depth_bound(nodes@, ds, u32::MAX as int);
    }
    best + 1
}

impl Depsgraph {
    /// Sets each node's depth along an evaluation order.
    fn assign_depths(&mut self, order: &Vec<NodeId>)
        requires
            old(self).wf(),
            is_eval_order(old(self).nodes@, order@),
        ensures
            final(self).nodes@.len() == old(self).nodes@.len(),
            forall|i: int|
                0 <= i < final(self).nodes@.len() ==> {
                    let a = #[trigger] final(self).nodes@[i];
                    let b = old(self).nodes@[i];
                    &&& same_shape(a, b)
                    &&& a.dirty_tags == b.dirty_tags
                    &&& a.evaluated == b.evaluated
                },
            depths_assigned(final(self).nodes@),
            final(self).id_lookup == old(self).id_lookup,
            final(self).current_frame == old(self).current_frame,
            final(self).needs_rebuild == old(self).needs_rebuild,
            final(self).eval_order == old(self).eval_order,
    {
        let ghost o = self.nodes@;
        let n = order.len();
        let mut k: usize = 0;
        while k < n
            invariant
                n == order@.len() == o.len() == self.nodes@.len(),
                nodes_wf(o),
                is_eval_order(o, order@),
                k <= n,
                forall|i: int|
                    0 <= i < n ==> {
                        let a = #[trigger] self.nodes@[i];
                        let b = o[i];
                        &&& same_shape(a, b)
                        &&& a.dirty_tags == b.dirty_tags
                        &&& a.evaluated == b.evaluated
                    },
                forall|m: int|
                    0 <= m < k ==> {
                        let v = #[trigger] order@[m] as int;
                        &&& self.nodes@[v].depth as int == max_dep_depth(self.nodes@, deps_of(o, v)) + 1
                        &&& self.nodes@[v].depth <= m
                    },
                self.id_lookup == old(self).id_lookup,
                self.current_frame == old(self).current_frame,
                self.needs_rebuild == old(self).needs_rebuild,
                self.eval_order == old(self).eval_order,
            decreases n - k,
        {
            let v = order[k] as usize;
            let ghost cur = self.nodes@;
            proof {
                let ds = deps_of(o, v as int);
                assert(deps_of(cur, v as int) == ds);
                assert forall|j: int| 0 <= j < ds.len() implies (#[trigger] ds[j] as int) < cur.len()
                    && cur[ds[j] as int].depth <= k - 1 && cur[ds[j] as int].depth < u32::MAX && ds[j] as int != v by {
                    assert(order@.take(k as int).contains(deps_of(o, order@[k as int] as int)[j]));
                    let m = choose|m: int| 0 <= m < order@.take(k as int).len() && order@.take(k as int)[m] == ds[j];
                    assert(order@[m] == ds[j]);
                    assert(order@[m] != order@[k as int]);
                }
                lemma_max_dep_depth_bound(cur, ds, k - 1);
            }
            let d = node_depth(&self.nodes, v);
            self.nodes[v].depth = d;
            proof {
                let new = self.nodes@;
                assert forall|m: int| 0 <= m < k + 1 implies {
                    let w = #[trigger] order@[m] as int;
                    &&& self.nodes@[w].depth as int == max_dep_depth(self.nodes@, deps_of(o, w)) + 1
                    &&& self.nodes@[w].depth <= m
                } by {
                    let w = order@[m] as int;
                    let ds = deps_of(o, w);
                    assert forall|j: int| 0 <= j < ds.len() && (#[trigger] ds[j] as int) < cur.len()
                        implies cur[ds[j] as int].depth == new[ds[j] as int].depth by {
                        assert(order@.take(m).contains(deps_of(o, order@[m] as int)[j]));
                        let p = choose|p: int| 0 <= p < order@.take(m).len() && order@.take(m)[p] == ds[j];
                        assert(order@[p] == ds[j]);
                        assert(p != k);
                        assert(ds[j] as int != v);
                    }
                    lemma_max_dep_depth_frame(cur, new, ds);
                    if m < k {
                        assert(w != v) by {
                            assert(order@[m] != order@[k as int]);
                        }
                        assert(new[w] == cur[w]);
                    } else {
                        assert(w == v);
                        assert(deps_of(cur, v as int) == ds);
                    }
                }
            }
            k = k + 1;
        }
        proof {
            lemma_distinct_ids(order@, n as int);
            assert forall|i: int| 0 <= i < self.nodes@.len() implies (#[trigger] self.nodes@[i]).depth as int
                == max_dep_depth(self.nodes@, deps_of(self.nodes@, i)) + 1 by {
                assert(order@.contains(i as NodeId));
                let m = choose|m: int| 0 <= m < order@.len() && order@[m] == i as NodeId;
                assert(order@[m] as int == i);
                assert(deps_of(self.nodes@, i) == deps_of(o, i));
            }
        }
    }

    /// A node on a cycle, found by walking from node `i` to pending
    /// dependencies as many times as there are nodes.
    fn cycle_node(&self, in_degree: &Vec<u32>, i: usize) -> (v: usize)
        requires
            self.wf(),
            in_degree@.len() == self.nodes@.len(),
            pending_closed(self.nodes@, in_degree@),
            i < self.nodes@.len(),
            in_degree@[i as int] > 0,
        ensures
            v < self.nodes@.len(),
            on_cycle(self.nodes@, v as int),
    {
        let ghost o = self.nodes@;
        let n = self.nodes.len();
        let mut v: usize = i;
        let mut k: usize = 0;
        while k < n
            invariant
                k <= n == o.len() == in_degree@.len(),
                o == self.nodes@,
                nodes_wf(o),
                pending_closed(o, in_degree@),
                (i as int) < n,
                in_degree@[i as int] > 0,
                v as int == pending_walk(o, in_degree@, i as int, k as nat),
            decreases n - k,
        {
            proof {
                lemma_pending_walk(o, in_degree@, i as int, k as nat);
                reveal(pending_closed);
                assert(in_degree@[v as int] > 0);
                assert(deps_of(o, v as int) == self.nodes@[v as int].dependencies@);
            }
            v = first_pending(&self.nodes[v].dependencies, in_degree);
            k = k + 1;
        }
        proof {
            lemma_pending_walk(o, in_degree@, i as int, n as nat);
            lemma_pending_walk_cycle(o, in_degree@, i as int);
        }
        v
    }

    /// The label of a node on a cycle (see [`Self::cycle_node`]).
    fn cycle_label(&self, in_degree: &Vec<u32>, i: usize) -> (l: String)
        requires
            self.wf(),
            in_degree@.len() == self.nodes@.len(),
            pending_closed(self.nodes@, in_degree@),
            i < self.nodes@.len(),
            in_degree@[i as int] > 0,
        ensures
            exists|j: int|
                0 <= j < self.nodes@.len() && l@ == #[trigger] self.nodes@[j].label@ && on_cycle(self.nodes@, j),
    {
        let v = self.cycle_node(in_degree, i);
        let l = self.nodes[v].label.clone();
        assert(l@ == self.nodes@[v as int].label@);
        l
    }

    /// Compute the topological evaluation order using Kahn's algorithm.
    ///
    /// On success the graph's order is the one that Kahn's scan with a
    /// first-in-first-out queue gives (see [`kahn_fifo_order`]): it lists
    /// every node once, after all of its dependencies; every node's depth is one more than the largest depth
    /// among its dependencies, and the graph no longer needs a rebuild. When
    /// some nodes depend on each other in a circle the result is
    /// `CyclicDependency` with the label of a node that could not be ordered,
    /// and the graph is left unchanged.
    ///
    /// The table must be well-formed ([`Depsgraph::wf`]), as every graph
    /// built through this type's methods is: on a malformed one the scan may
    /// never end (two nodes without dependencies that list each other as
    /// dependents are queued again and again).
    pub fn compute_eval_order(&mut self) -> (r: DepsgraphResult<()>)
        requires
            old(self).wf(),
        ensures
            r is Ok <==> !has_cycle(old(self).nodes@),
            final(self).nodes@.len() == old(self).nodes@.len(),
            forall|i: int|
                0 <= i < final(self).nodes@.len() ==> {
                    let a = #[trigger] final(self).nodes@[i];
                    let b = old(self).nodes@[i];
                    &&& same_shape(a, b)
                    &&& a.dirty_tags == b.dirty_tags
                    &&& a.evaluated == b.evaluated
                },
            final(self).wf(),
            final(self).id_lookup == old(self).id_lookup,
            final(self).current_frame == old(self).current_frame,
            r is Ok ==> {
                &&& final(self).eval_order@ == kahn_fifo_order(old(self).nodes@)
                &&& is_eval_order(final(self).nodes@, final(self).eval_order@)
                &&& depths_assigned(final(self).nodes@)
                &&& !final(self).needs_rebuild
            },
            r is Err ==> {
                &&& final(self).nodes@ == old(self).nodes@
                &&& final(self).eval_order == old(self).eval_order
                &&& final(self).needs_rebuild == old(self).needs_rebuild
            },
            r matches Err(e) ==> e matches DepsgraphError::CyclicDependency(label) && exists|i: int|
                0 <= i < old(self).nodes@.len() && label@ == #[trigger] old(self).nodes@[i].label@ && on_cycle(
                    old(self).nodes@,
                    i,
                ),
    {
        let ghost o = self.nodes@;
        let n = self.nodes.len();
        let (order, in_degree) = self.kahn_order();
        proof {
            lemma_distinct_ids(order@, n as int);
        }
        if order.len() != n {
            proof {
                lemma_pending_closed(o, order@, in_degree@);
            }
            let mut i: usize = 0;
            while i < n
                invariant
                    i <= n == o.len() == in_degree@.len(),
                    o == self.nodes@,
                    self.nodes == old(self).nodes,
                    self.eval_order == old(self).eval_order,
                    self.needs_rebuild == old(self).needs_rebuild,
                    nodes_wf(o),
                    pending_closed(o, in_degree@),
                    forall|j: int| 0 <= j < i ==> #[trigger] in_degree@[j] == 0,
                    forall|j: int|
                        0 <= j < n ==> #[trigger] in_degree@[j] == count_missing(deps_of(o, j), order@),
                    forall|j: int| 0 <= j < n && !order@.contains(j as NodeId) ==> #[trigger] in_degree@[j] > 0,
                    forall|k: int, j: int|
                        0 <= k < order@.len() && 0 <= j < deps_of(o, order@[k] as int).len()
                            ==> order@.take(k).contains(#[trigger] deps_of(o, order@[k] as int)[j]),
                    order@.len() < n,
                    order@.no_duplicates(),
                    forall|k: int| 0 <= k < order@.len() ==> #[trigger] order@[k] < n,
                decreases n - i,
            {
                if in_degree[i] > 0 {
                    proof {
                        lemma_unordered_cycle(o, order@, in_degree@, i as int);
                    }
                    let label = self.cycle_label(&in_degree, i);
                    proof {
                        let j = choose|j: int|
                            0 <= j < o.len() && label@ == #[trigger] o[j].label@ && on_cycle(o, j);
                        assert(label@ == old(self).nodes@[j].label@ && on_cycle(old(self).nodes@, j));
                    }
                    return Err(DepsgraphError::CyclicDependency(label));
                }
                i = i + 1;
            }
            proof {
                assert forall|v: NodeId| (v as int) < n implies #[trigger] order@.contains(v) by {
                    assert(in_degree@[v as int] == 0);
                }
                // all n ids are in a duplicate-free list shorter than n: impossible
                assert(false) by {
                    lemma_all_ids_present(order@, n as int);
                }
            }
            return Ok(());
        }
        proof {
            assert(is_eval_order(o, order@));
            lemma_eval_order_acyclic(o, order@);
        }
        self.assign_depths(&order);
        self.eval_order = order;
        self.needs_rebuild = false;
        proof {
            let f = self.nodes@;
            assert forall|k: int, j: int|
                0 <= k < order@.len() && 0 <= j < deps_of(f, order@[k] as int).len()
                    implies order@.take(k).contains(#[trigger] deps_of(f, order@[k] as int)[j]) by {
                assert(deps_of(f, order@[k] as int) == deps_of(o, order@[k] as int));
            }
            lemma_wf_transfer(o, f);
        }
        Ok(())
    }
}

/// Node `v` lies on a cycle of dependency edges.
pub open spec fn on_cycle(nodes: Seq<DepNode>, v: int) -> bool {
    exists|p: Seq<int>| #[trigger] is_dep_cycle(nodes, p) && p[0] == v
}

/// The first of `ds[k..]` whose pending count is positive, or -1.
spec fn first_pending_from(ds: Seq<NodeId>, indeg: Seq<u32>, k: int) -> int
    decreases ds.len() - k,
{
    if k < 0 || k >= ds.len() {
        -1
    } else if (ds[k] as int) < indeg.len() && indeg[ds[k] as int] > 0 {
        ds[k] as int
    } else {
        first_pending_from(ds, indeg, k + 1)
    }
}

/// A walk that goes, from node to node, to the first dependency whose
/// pending count is positive.
spec fn pending_walk(nodes: Seq<DepNode>, indeg: Seq<u32>, start: int, k: nat) -> int
    decreases k,
{
    if k == 0 {
        start
    } else {
        first_pending_from(deps_of(nodes, pending_walk(nodes, indeg, start, (k - 1) as nat)), indeg, 0)
    }
}

proof fn lemma_first_pending(ds: Seq<NodeId>, indeg: Seq<u32>, k: int, k0: int)
    requires
        0 <= k <= k0 < ds.len(),
        (ds[k0] as int) < indeg.len(),
        indeg[ds[k0] as int] > 0,
    ensures
        0 <= first_pending_from(ds, indeg, k) < indeg.len(),
        indeg[first_pending_from(ds, indeg, k)] > 0,
        ds.contains(first_pending_from(ds, indeg, k) as NodeId),
        first_pending_from(ds, indeg, k) <= u32::MAX,
    decreases ds.len() - k,
{
    if !((ds[k] as int) < indeg.len() && indeg[ds[k] as int] > 0) {
        lemma_first_pending(ds, indeg, k + 1, k0);
    } else {
        assert(ds[k] == ds[k] as int as NodeId);
    }
}

/// Every node with a positive pending count has a dependency with one.
#[verifier::opaque]
spec fn pending_closed(nodes: Seq<DepNode>, indeg: Seq<u32>) -> bool {
    forall|v: int|
        0 <= v < nodes.len() && #[trigger] indeg[v] > 0 ==> exists|k: int|
            0 <= k < deps_of(nodes, v).len() && (#[trigger] deps_of(nodes, v)[k] as int) < indeg.len()
                && indeg[deps_of(nodes, v)[k] as int] > 0
}

proof fn lemma_pending_walk(nodes: Seq<DepNode>, indeg: Seq<u32>, start: int, k: nat)
    requires
        nodes_wf(nodes),
        indeg.len() == nodes.len(),
        pending_closed(nodes, indeg),
        0 <= start < nodes.len(),
        indeg[start] > 0,
    ensures
        0 <= pending_walk(nodes, indeg, start, k) < nodes.len(),
        indeg[pending_walk(nodes, indeg, start, k)] > 0,
        k > 0 ==> deps_of(nodes, pending_walk(nodes, indeg, start, (k - 1) as nat)).contains(
            pending_walk(nodes, indeg, start, k) as NodeId,
        ),
    decreases k,
{
    reveal(pending_closed);
    if k > 0 {
        lemma_pending_walk(nodes, indeg, start, (k - 1) as nat);
        let v = pending_walk(nodes, indeg, start, (k - 1) as nat);
        assert(indeg[v] > 0);
        let k0 = choose|k0: int|
            0 <= k0 < deps_of(nodes, v).len() && (#[trigger] deps_of(nodes, v)[k0] as int) < indeg.len()
                && indeg[deps_of(nodes, v)[k0] as int] > 0;
        lemma_first_pending(deps_of(nodes, v), indeg, 0, k0);
    }
}

proof fn lemma_pending_walk_periodic(nodes: Seq<DepNode>, indeg: Seq<u32>, start: int, a: nat, b: nat, m: nat)
    requires
        pending_walk(nodes, indeg, start, a) == pending_walk(nodes, indeg, start, b),
    ensures
        pending_walk(nodes, indeg, start, a + m) == pending_walk(nodes, indeg, start, b + m),
    decreases m,
{
    if m > 0 {
        lemma_pending_walk_periodic(nodes, indeg, start, a, b, (m - 1) as nat);
        assert((a + m - 1) as nat + 1 == a + m);
        assert((b + m - 1) as nat + 1 == b + m);
    }
}

/// After as many steps as there are nodes, the walk stands on a cycle.
proof fn lemma_pending_walk_cycle(nodes: Seq<DepNode>, indeg: Seq<u32>, start: int)
    requires
        nodes_wf(nodes),
        indeg.len() == nodes.len(),
        pending_closed(nodes, indeg),
        0 <= start < nodes.len(),
        indeg[start] > 0,
    ensures
        on_cycle(nodes, pending_walk(nodes, indeg, start, nodes.len())),
{
    let n = nodes.len() as int;
    let w = Seq::new((n + 1) as nat, |k: int| pending_walk(nodes, indeg, start, k as nat));
    assert forall|k: int| 0 <= k < w.len() implies 0 <= #[trigger] w[k] < n by {
        lemma_pending_walk(nodes, indeg, start, k as nat);
    }
    lemma_pigeonhole(w, n);
    let (a, b) = choose|a: int, b: int| 0 <= a < b < w.len() && #[trigger] w[a] == #[trigger] w[b];
    let c = b - a;
    let p = Seq::new((c + 1) as nat, |j: int| pending_walk(nodes, indeg, start, (n + j) as nat));
    lemma_pending_walk_periodic(nodes, indeg, start, a as nat, b as nat, (n - a) as nat);
    assert(a + (n - a) == n);
    assert(p[c] == pending_walk(nodes, indeg, start, (n + c) as nat));
    assert forall|k: int| 0 <= k < p.len() implies 0 <= #[trigger] p[k] < nodes.len() by {
        lemma_pending_walk(nodes, indeg, start, (n + k) as nat);
    }
    assert forall|k: int| 0 <= k < p.len() - 1 implies deps_of(nodes, #[trigger] p[k]).contains(p[k + 1] as NodeId) by {
        lemma_pending_walk(nodes, indeg, start, (n + k + 1) as nat);
        assert(((n + k + 1) as nat - 1) as nat == (n + k) as nat);
    }
    assert(is_dep_cycle(nodes, p));
}

/// The first dependency whose pending count is positive.
fn first_pending(ds: &Vec<NodeId>, indeg: &Vec<u32>) -> (r: usize)
    requires
        exists|k: int| 0 <= k < ds@.len() && (#[trigger] ds@[k] as int) < indeg@.len() && indeg@[ds@[k] as int] > 0,
    ensures
        r as int == first_pending_from(ds@, indeg@, 0),
{
    let ghost k0 = choose|k: int| 0 <= k < ds@.len() && (#[trigger] ds@[k] as int) < indeg@.len() && indeg@[ds@[k] as int] > 0;
    let mut j: usize = 0;
    while j < ds.len()
        invariant
            j <= k0 < ds@.len(),
            (ds@[k0] as int) < indeg@.len(),
            indeg@[ds@[k0] as int] > 0,
            first_pending_from(ds@, indeg@, 0) == first_pending_from(ds@, indeg@, j as int),
        decreases ds@.len() - j,
    {
        let d = ds[j] as usize;
        if d < indeg.len() && indeg[d] > 0 {
            return d;
        }
        j = j + 1;
    }
    0
}

/// A node with unordered dependencies left lies in a set of unordered nodes
/// that each depend on another one of them, so the graph has a cycle.
proof fn lemma_unordered_cycle(o: Seq<DepNode>, order: Seq<NodeId>, in_degree: Seq<u32>, i: int)
    requires
        nodes_wf(o),
        in_degree.len() == o.len(),
        0 <= i < o.len(),
        in_degree[i] > 0,
        forall|j: int| 0 <= j < o.len() ==> #[trigger] in_degree[j] == count_missing(deps_of(o, j), order),
        forall|j: int| 0 <= j < o.len() && !order.contains(j as NodeId) ==> #[trigger] in_degree[j] > 0,
        forall|k: int, j: int|
            0 <= k < order.len() && 0 <= j < deps_of(o, order[k] as int).len()
                ==> order.take(k).contains(#[trigger] deps_of(o, order[k] as int)[j]),
    ensures
        has_cycle(o),
{
    let n = o.len() as int;
    let u = |j: int| 0 <= j < n && !order.contains(j as NodeId);
    assert(u(i)) by {
        if order.contains(i as NodeId) {
            let k = choose|k: int| 0 <= k < order.len() && order[k] == i as NodeId;
            lemma_count_missing_zero(deps_of(o, i), order);
            assert(order[k] as int == i);
            assert forall|j: int| 0 <= j < deps_of(o, i).len() implies order.contains(#[trigger] deps_of(o, i)[j]) by {
                assert(order.take(k).contains(deps_of(o, order[k] as int)[j]));
                let m = choose|m: int| 0 <= m < order.take(k).len() && order.take(k)[m] == deps_of(o, i)[j];
                assert(order[m] == deps_of(o, i)[j]);
            }
        }
    }
    assert forall|j: int| #[trigger] u(j) implies exists|d: int| #![trigger u(d)]
        u(d) && 0 <= d < o.len() && deps_of(o, j).contains(d as NodeId) by {
        lemma_count_missing_zero(deps_of(o, j), order);
        assert(in_degree[j] > 0);
        let kk = choose|kk: int| 0 <= kk < deps_of(o, j).len() && !order.contains(#[trigger] deps_of(o, j)[kk]);
        let d = deps_of(o, j)[kk];
        assert((d as int) < n);
        assert(deps_of(o, j).contains(d));
        assert(u(d as int));
    }
    lemma_closed_set_has_cycle(o, u, i);
}

/// Every node left out of the order has a dependency left out too.
proof fn lemma_pending_closed(o: Seq<DepNode>, order: Seq<NodeId>, in_degree: Seq<u32>)
    requires
        nodes_wf(o),
        in_degree.len() == o.len(),
        forall|j: int| 0 <= j < o.len() ==> #[trigger] in_degree[j] == count_missing(deps_of(o, j), order),
        forall|j: int| 0 <= j < o.len() && !order.contains(j as NodeId) ==> #[trigger] in_degree[j] > 0,
    ensures
        pending_closed(o, in_degree),
{
    reveal(pending_closed);
    assert forall|v: int| 0 <= v < o.len() && #[trigger] in_degree[v] > 0 implies exists|k: int|
        0 <= k < deps_of(o, v).len() && (#[trigger] deps_of(o, v)[k] as int) < in_degree.len()
            && in_degree[deps_of(o, v)[k] as int] > 0 by {
        lemma_count_missing_zero(deps_of(o, v), order);
        let kk = choose|kk: int| 0 <= kk < deps_of(o, v).len() && !order.contains(#[trigger] deps_of(o, v)[kk]);
        let d = deps_of(o, v)[kk];
        assert((d as int) < o.len());
        assert(d == (d as int) as NodeId);
        assert(in_degree[d as int] > 0);
    }
}

/// A duplicate-free list of ids below `n` that holds each of them has `n`
/// entries.
proof fn lemma_all_ids_present(s: Seq<NodeId>, n: int)
    requires
        0 <= n <= u32::MAX + 1,
        s.no_duplicates(),
        forall|v: NodeId| (v as int) < n ==> #[trigger] s.contains(v),
    ensures
        s.len() >= n,
{
    let ids = Seq::new(n as nat, |k: int| k as NodeId);
    assert(ids.no_duplicates());
    assert forall|k: int| 0 <= k < ids.len() implies #[trigger] as_ints_contains(s, ids[k]) by {
        assert(s.contains(ids[k]));
    }
    lemma_injection_len(ids, s);
}

spec fn as_ints_contains(s: Seq<NodeId>, v: NodeId) -> bool {
    s.contains(v)
}

/// A duplicate-free list whose entries all appear in `t` is no longer than
/// `t` when `t` has no duplicates.
proof fn lemma_injection_len(a: Seq<NodeId>, t: Seq<NodeId>)
    requires
        a.no_duplicates(),
        t.no_duplicates(),
        forall|k: int| 0 <= k < a.len() ==> #[trigger] as_ints_contains(t, a[k]),
    ensures
        a.len() <= t.len(),
{
    a.unique_seq_to_set();
    t.unique_seq_to_set();
    assert(a.to_set().subset_of(t.to_set())) by {
        assert forall|x: NodeId| a.to_set().contains(x) implies t.to_set().contains(x) by {
            let k = choose|k: int| 0 <= k < a.len() && a[k] == x;
            assert(as_ints_contains(t, a[k]));
        }
    }
    vstd::set_lib::lemma_len_subset(a.to_set(), t.to_set());
}

/// A table with the same shape as a well-formed one is well-formed.
pub proof fn lemma_wf_transfer(o: Seq<DepNode>, f: Seq<DepNode>)
    requires
        nodes_wf(o),
        o.len() == f.len(),
        forall|i: int| 0 <= i < f.len() ==> same_shape(#[trigger] f[i], o[i]),
    ensures
        nodes_wf(f),
{
    assert forall|i: int| 0 <= i < f.len() implies #[trigger] deps_of(f, i) == deps_of(o, i) && dependents_of(f, i) == dependents_of(o, i) by {
        assert(same_shape(f[i], o[i]));
    }
    assert forall|i: int| 0 <= i < f.len() implies (#[trigger] f[i]).id == i by {
        assert(same_shape(f[i], o[i]));
    }
    assert(wf_ids(f));
    assert forall|i: int, k: int|
        0 <= i < f.len() && 0 <= k < deps_of(f, i).len() implies {
            let d = #[trigger] deps_of(f, i)[k];
            &&& d < f.len()
            &&& dependents_of(f, d as int).contains(i as NodeId)
        } by {
        assert(deps_of(f, i) == deps_of(o, i));
        let d = deps_of(o, i)[k];
        assert(dependents_of(f, d as int) == dependents_of(o, d as int));
    }
    assert(wf_deps(f));
    assert forall|i: int, k: int|
        0 <= i < f.len() && 0 <= k < dependents_of(f, i).len() implies {
            let d = #[trigger] dependents_of(f, i)[k];
            &&& d < f.len()
            &&& deps_of(f, d as int).contains(i as NodeId)
        } by {
        assert(dependents_of(f, i) == dependents_of(o, i));
        let d = dependents_of(o, i)[k];
        assert(deps_of(f, d as int) == deps_of(o, d as int));
    }
    assert(wf_dependents(f));
    assert forall|i: int| 0 <= i < f.len() implies (#[trigger] deps_of(f, i)).no_duplicates()
        && dependents_of(f, i).no_duplicates() by {
        assert(deps_of(f, i) == deps_of(o, i));
        assert(deps_of(o, i).no_duplicates());
    }
    assert(wf_no_dups(f));
}

proof fn lemma_count_empty(ds: Seq<NodeId>)
    ensures
        count_missing(ds, Seq::empty()) == ds.len(),
    decreases ds.len(),
{
    if ds.len() > 0 {
        lemma_count_empty(ds.drop_last());
    }
}

} // verus!
