//! Dependency graph evaluation: traverse and evaluate dirty nodes, and tag
//! nodes for update.

use vstd::prelude::*;

use super::builder::{id_lookup_entries, same_shape, Depsgraph};
use super::node::{DepNode, DepNodeType};
use super::builder::dependents_of;
use super::kahn::{depths_assigned, kahn_fifo_order, on_cycle};
use super::order::{has_cycle, is_eval_order};
use super::propagate::{dependent_reaches, lemma_reaches_same_dependents};
use super::tag::DirtyTags;
use super::{DepsgraphError, DepsgraphResult, NodeId};
use crate::index_map::entry_lookup;

verus! {

/// The evaluator accepted node `id` with label `label`.
pub open spec fn evaluated_ok<F: Fn(NodeId, &str) -> Result<(), String>>(
    eval_fn: F,
    id: NodeId,
    label: Seq<char>,
) -> bool {
    exists|s: &str, r: Result<(), String>| s@ == label && r is Ok && #[trigger] call_ensures(eval_fn, (id, s), r)
}

/// The evaluator refused node `id` with label `label`, saying `msg`.
pub open spec fn evaluated_err<F: Fn(NodeId, &str) -> Result<(), String>>(
    eval_fn: F,
    id: NodeId,
    label: Seq<char>,
    msg: String,
) -> bool {
    exists|s: &str| s@ == label && #[trigger] call_ensures(eval_fn, (id, s), Err(msg))
}

/// The state of node `a` (formerly `b`) once the sequential walk has or
/// has not reached it.
pub open spec fn walked<F: Fn(NodeId, &str) -> Result<(), String>>(
    eval_fn: F,
    a: DepNode,
    b: DepNode,
    reached: bool,
    id: NodeId,
) -> bool {
    if reached {
        &&& a.evaluated
        &&& a.dirty_tags.0 == 0
        &&& b.dirty_tags.0 != 0 ==> evaluated_ok(eval_fn, id, b.label@)
    } else {
        !a.evaluated && a.dirty_tags == b.dirty_tags
    }
}

/// The walk along `order` stopped at its position `m` with error `e`: the
/// node there lies in the table, is dirty, is met there for the first time,
/// and the evaluator refused it with the message carried by `e`, whose label
/// is the node's. Every node of `o` now stands as the walk over the first `m`
/// positions of the order leaves it (`f` is the table after the walk).
pub open spec fn stopped_at<F: Fn(NodeId, &str) -> Result<(), String>>(
    eval_fn: F,
    o: Seq<DepNode>,
    order: Seq<NodeId>,
    f: Seq<DepNode>,
    m: int,
    e: DepsgraphError,
) -> bool {
    &&& 0 <= m < order.len()
    &&& (order[m] as int) < o.len()
    &&& o[order[m] as int].dirty_tags.0 != 0
    &&& !order.take(m).contains(order[m])
    &&& e matches DepsgraphError::EvalFailed(label, msg) && label@ == o[order[m] as int].label@
        && evaluated_err(eval_fn, order[m], label@, msg)
    &&& forall|i: int|
        0 <= i < o.len() ==> walked(
            eval_fn,
            #[trigger] f[i],
            o[i],
            order.take(m).contains(i as NodeId),
            i as NodeId,
        )
}

/// What the sequential walk along `order` makes of the table `o` (giving
/// `f`) and returns (`r`): on success every node stands as the walk over the
/// whole order leaves it; on failure the walk stopped at some position of
/// the order.
pub open spec fn sequential_outcome<F: Fn(NodeId, &str) -> Result<(), String>>(
    eval_fn: F,
    o: Seq<DepNode>,
    order: Seq<NodeId>,
    f: Seq<DepNode>,
    r: DepsgraphResult<()>,
) -> bool {
    &&& f.len() == o.len()
    &&& match r {
        Ok(_) => forall|i: int|
            0 <= i < o.len() ==> walked(
                eval_fn,
                #[trigger] f[i],
                o[i],
                order.contains(i as NodeId),
                i as NodeId,
            ),
        Err(e) => exists|m: int| #[trigger] stopped_at(eval_fn, o, order, f, m, e),
    }
}

/// Evaluate the graph sequentially in the graph's evaluation order.
///
/// Every node is first reset to unevaluated. Then, along the order, a node
/// without dirty tags is marked evaluated, and a dirty node is handed to
/// `eval_fn` (its id and label): on success it is marked clean and
/// evaluated, on failure evaluation stops with `EvalFailed(label, message)`.
/// Ids of the order that lie outside the graph are skipped.
pub fn evaluate_sequential<F: Fn(NodeId, &str) -> Result<(), String>>(
    graph: &mut Depsgraph,
    eval_fn: &F,
) -> (r: DepsgraphResult<()>)
    requires
        old(graph).nodes@.len() <= u32::MAX,
        forall|id: NodeId, s: &str| call_requires(*eval_fn, (id, s)),
    ensures
        final(graph).nodes@.len() == old(graph).nodes@.len(),
        forall|i: int|
            0 <= i < final(graph).nodes@.len() ==> same_shape(
                #[trigger] final(graph).nodes@[i],
                old(graph).nodes@[i],
            ) && final(graph).nodes@[i].depth == old(graph).nodes@[i].depth,
        final(graph).eval_order == old(graph).eval_order,
        final(graph).id_lookup == old(graph).id_lookup,
        final(graph).current_frame == old(graph).current_frame,
        final(graph).needs_rebuild == old(graph).needs_rebuild,
        sequential_outcome(*eval_fn, old(graph).nodes@, old(graph).eval_order@, final(graph).nodes@, r),
{
    let ghost o = graph.nodes@;
    graph.reset_evaluated();
    let n = graph.nodes.len();
    let order = graph.eval_order.clone();
    let mut k: usize = 0;
    while k < order.len()
        invariant
            n == graph.nodes@.len() == o.len(),
            n <= u32::MAX,
            o == old(graph).nodes@,
            order@ == old(graph).eval_order@,
            graph.eval_order == old(graph).eval_order,
            graph.id_lookup == old(graph).id_lookup,
            graph.current_frame == old(graph).current_frame,
            graph.needs_rebuild == old(graph).needs_rebuild,
            forall|id: NodeId, s: &str| call_requires(*eval_fn, (id, s)),
            k <= order@.len(),
            forall|i: int|
                0 <= i < n ==> {
                    let a = #[trigger] graph.nodes@[i];
                    let b = o[i];
                    &&& same_shape(a, b)
                    &&& a.depth == b.depth
                    &&& walked(*eval_fn, a, b, order@.take(k as int).contains(i as NodeId), i as NodeId)
                },
        decreases order@.len() - k,
    {
        let node_id = order[k];
        let idx = node_id as usize;
        let ghost before = graph.nodes@;
        proof {
            let t1 = order@.take(k + 1);
            let t0 = order@.take(k as int);
            assert forall|x: NodeId| t1.contains(x) <==> (t0.contains(x) || x == node_id) by {
                if t1.contains(x) {
                    let m = choose|m: int| 0 <= m < t1.len() && t1[m] == x;
                    if m < k {
                        assert(t0[m] == x);
                    }
                }
                if t0.contains(x) {
                    let m = choose|m: int| 0 <= m < t0.len() && t0[m] == x;
                    assert(t1[m] == x);
                }
                if x == node_id {
                    assert(t1[k as int] == x);
                }
            }
        }
        if idx >= n {
            assert forall|i: int| 0 <= i < n implies {
                let a = #[trigger] graph.nodes@[i];
                &&& same_shape(a, o[i])
                &&& a.depth == o[i].depth
                &&& walked(*eval_fn, a, o[i], order@.take(k + 1).contains(i as NodeId), i as NodeId)
            } by {
                assert(i as NodeId != node_id);
            }
            k = k + 1;
            continue;
        }
        if graph.nodes[idx].dirty_tags.is_empty() {
            graph.nodes[idx].evaluated = true;
            assert forall|i: int| 0 <= i < n implies {
                let a = #[trigger] graph.nodes@[i];
                &&& same_shape(a, o[i])
                &&& a.depth == o[i].depth
                &&& walked(*eval_fn, a, o[i], order@.take(k + 1).contains(i as NodeId), i as NodeId)
            } by {
                if i != idx {
                    assert(i as NodeId != node_id);
                    assert(graph.nodes@[i] == before[i]);
                } else {
                    assert(order@.take(k + 1).contains(i as NodeId));
                    if !order@.take(k as int).contains(node_id) {
                        assert(before[i].dirty_tags == o[i].dirty_tags);
                    }
                }
            }
            k = k + 1;
            continue;
        }
        let label = graph.nodes[idx].label.clone();
        proof {
            // a dirty node has not been reached yet
            assert(!order@.take(k as int).contains(node_id));
        }
        let label_str = label.as_str();
        let res = eval_fn(node_id, label_str);
        proof {
            assert(call_ensures(*eval_fn, (node_id, label_str), res));
        }
        match res {
            Ok(()) => {
                proof {
                    assert(label_str@ == o[idx as int].label@);
                    assert(res is Ok);
                    assert(evaluated_ok(*eval_fn, node_id, o[idx as int].label@));
                }
                graph.nodes[idx].mark_clean();
                assert forall|i: int| 0 <= i < n implies {
                    let a = #[trigger] graph.nodes@[i];
                    &&& same_shape(a, o[i])
                    &&& a.depth == o[i].depth
                    &&& walked(*eval_fn, a, o[i], order@.take(k + 1).contains(i as NodeId), i as NodeId)
                } by {
                    if i != idx {
                        assert(i as NodeId != node_id);
                        assert(graph.nodes@[i] == before[i]);
                    } else {
                        assert(order@.take(k + 1).contains(i as NodeId));
                    }
                }
            },
            Err(msg) => {
                let err = DepsgraphError::EvalFailed(label, msg);
                proof {
                    assert(label_str@ == o[idx as int].label@);
                    assert(res == Err::<(), String>(msg));
                    assert(evaluated_err(*eval_fn, node_id, o[idx as int].label@, msg));
                    assert(order@[k as int] == node_id);
                    assert(stopped_at(*eval_fn, o, order@, graph.nodes@, k as int, err));
                }
                return Err(err);
            },
        }
        k = k + 1;
    }
    proof {
        assert(order@.take(order@.len() as int) == order@);
    }
    Ok(())
}

/// The walk's outcome depends on the table only through each node's label
/// and dirty tags.
proof fn lemma_outcome_same_tags<F: Fn(NodeId, &str) -> Result<(), String>>(
    eval_fn: F,
    o1: Seq<DepNode>,
    o2: Seq<DepNode>,
    order: Seq<NodeId>,
    f: Seq<DepNode>,
    r: DepsgraphResult<()>,
)
    requires
        o1.len() == o2.len(),
        forall|i: int|
            0 <= i < o1.len() ==> (#[trigger] o1[i]).label == o2[i].label && o1[i].dirty_tags
                == o2[i].dirty_tags,
        sequential_outcome(eval_fn, o1, order, f, r),
    ensures
        sequential_outcome(eval_fn, o2, order, f, r),
{
    match r {
        Ok(_) => {
            assert forall|i: int| 0 <= i < o2.len() implies walked(
                eval_fn,
                #[trigger] f[i],
                o2[i],
                order.contains(i as NodeId),
                i as NodeId,
            ) by {
                assert(walked(eval_fn, f[i], o1[i], order.contains(i as NodeId), i as NodeId));
            }
        },
        Err(e) => {
            let m = choose|m: int| #[trigger] stopped_at(eval_fn, o1, order, f, m, e);
            assert forall|i: int| 0 <= i < o2.len() implies walked(
                eval_fn,
                #[trigger] f[i],
                o2[i],
                order.take(m).contains(i as NodeId),
                i as NodeId,
            ) by {
                assert(walked(eval_fn, f[i], o1[i], order.take(m).contains(i as NodeId), i as NodeId));
            }
            let x = order[m] as int;
            assert(o1[x].label == o2[x].label);
            assert(stopped_at(eval_fn, o2, order, f, m, e));
        },
    }
}

/// Evaluate the dependency graph: rebuild the evaluation order first when
/// the graph needs it, then evaluate sequentially.
///
/// A rebuild of a cyclic graph fails with `CyclicDependency`, naming a node
/// on a cycle, and leaves the graph as it was; the evaluator is then never
/// called. Otherwise the evaluation order is, after a rebuild, a fresh
/// topological order, and the walk along it evaluates the graph as
/// [`evaluate_sequential`] does; with no dirty node it cannot fail.
pub fn evaluate_graph<F: Fn(NodeId, &str) -> Result<(), String>>(
    graph: &mut Depsgraph,
    eval_fn: &F,
) -> (r: DepsgraphResult<()>)
    requires
        old(graph).wf(),
        forall|id: NodeId, s: &str| call_requires(*eval_fn, (id, s)),
    ensures
        final(graph).wf(),
        final(graph).nodes@.len() == old(graph).nodes@.len(),
        final(graph).id_lookup == old(graph).id_lookup,
        final(graph).current_frame == old(graph).current_frame,
        final(graph).needs_rebuild == (old(graph).needs_rebuild && has_cycle(old(graph).nodes@)),
        r matches Err(DepsgraphError::CyclicDependency(_)) <==> old(graph).needs_rebuild && has_cycle(
            old(graph).nodes@,
        ),
        r matches Err(DepsgraphError::CyclicDependency(label)) ==> {
            &&& final(graph).nodes@ == old(graph).nodes@
            &&& final(graph).eval_order == old(graph).eval_order
            &&& exists|i: int|
                0 <= i < old(graph).nodes@.len() && label@ == #[trigger] old(graph).nodes@[i].label@
                    && on_cycle(old(graph).nodes@, i)
        },
        !(old(graph).needs_rebuild && has_cycle(old(graph).nodes@)) ==> {
            &&& old(graph).needs_rebuild ==> final(graph).eval_order@ == kahn_fifo_order(old(graph).nodes@)
                && is_eval_order(final(graph).nodes@, final(graph).eval_order@) && depths_assigned(
                final(graph).nodes@,
            )
            &&& !old(graph).needs_rebuild ==> final(graph).eval_order == old(graph).eval_order
            &&& forall|i: int|
                0 <= i < final(graph).nodes@.len() ==> same_shape(
                    #[trigger] final(graph).nodes@[i],
                    old(graph).nodes@[i],
                )
            &&& sequential_outcome(
                *eval_fn,
                old(graph).nodes@,
                final(graph).eval_order@,
                final(graph).nodes@,
                r,
            )
        },
        !(old(graph).needs_rebuild && has_cycle(old(graph).nodes@)) && (forall|i: int|
            0 <= i < old(graph).nodes@.len() ==> (#[trigger] old(graph).nodes@[i]).dirty_tags.0 == 0)
            ==> r is Ok,
{
    if graph.needs_rebuild {
        graph.compute_eval_order()?;
    }
    let ghost mid = graph.nodes@;
    let r = evaluate_sequential(graph, eval_fn);
    proof {
        super::kahn::lemma_wf_transfer(mid, graph.nodes@);
        if old(graph).needs_rebuild {
            super::kahn::lemma_depths_transfer(mid, graph.nodes@);
        }
        lemma_outcome_same_tags(*eval_fn, mid, old(graph).nodes@, graph.eval_order@, graph.nodes@, r);
        if r is Err {
            let e = r->Err_0;
            let m = choose|m: int| #[trigger] stopped_at(*eval_fn, old(graph).nodes@, graph.eval_order@, graph.nodes@, m, e);
            let x = graph.eval_order@[m] as int;
            assert(old(graph).nodes@[x].dirty_tags.0 != 0);
        }
    }
    r
}

/// Node `i` is a time source of `nodes` or reached from one through
/// dependent edges.
pub open spec fn time_reached(nodes: Seq<DepNode>, i: int) -> bool {
    exists|j: int|
        0 <= j < nodes.len() && nodes[j].node_type == DepNodeType::TimeSource && #[trigger] dependent_reaches(
            nodes,
            nodes[j].id,
            i,
        )
}

/// `x` is the id of a time source among the first `i` nodes.
spec fn source_before(o: Seq<DepNode>, i: int, x: NodeId) -> bool {
    exists|j: int| 0 <= j < i && o[j].node_type == DepNodeType::TimeSource && #[trigger] o[j].id == x
}

/// Node `i` is reached from one of `srcs`.
spec fn reached_by(nodes: Seq<DepNode>, srcs: Seq<NodeId>, i: int) -> bool {
    exists|m: int| 0 <= m < srcs.len() && #[trigger] dependent_reaches(nodes, srcs[m], i)
}

/// `g` is `o` after tagging each of `srcs` in turn with `TIME | ANIMATION`.
spec fn tagged_from(g: Seq<DepNode>, o: Seq<DepNode>, srcs: Seq<NodeId>) -> bool {
    &&& g.len() == o.len()
    &&& forall|i: int|
        0 <= i < o.len() ==> {
            let a = #[trigger] g[i];
            let b = o[i];
            &&& same_shape(a, b)
            &&& a.depth == b.depth
            &&& if reached_by(o, srcs, i) {
                a.dirty_tags.0 == b.dirty_tags.0 | 12 && !a.evaluated
            } else {
                a.dirty_tags == b.dirty_tags && a.evaluated == b.evaluated
            }
        }
}

/// Tag every time source node (and, through it, its dependents) with
/// `TIME | ANIMATION`: each time source and every node reached from one
/// through dependent edges gets both flags added and becomes unevaluated;
/// every other node is left as it was.
pub fn tag_time_update(graph: &mut Depsgraph)
    ensures
        final(graph).nodes@.len() == old(graph).nodes@.len(),
        forall|i: int|
            0 <= i < final(graph).nodes@.len() ==> {
                let a = #[trigger] final(graph).nodes@[i];
                let b = old(graph).nodes@[i];
                &&& same_shape(a, b)
                &&& a.depth == b.depth
                &&& if time_reached(old(graph).nodes@, i) {
                    a.dirty_tags.0 == b.dirty_tags.0 | 12 && !a.evaluated
                } else {
                    a.dirty_tags == b.dirty_tags && a.evaluated == b.evaluated
                }
            },
        final(graph).id_lookup == old(graph).id_lookup,
        final(graph).current_frame == old(graph).current_frame,
        final(graph).needs_rebuild == old(graph).needs_rebuild,
        final(graph).eval_order == old(graph).eval_order,
{
    let tags = DirtyTags::time() | DirtyTags::animation();
    assert(8u32 | 4u32 == 12u32) by (bit_vector);
    assert(tags == DirtyTags(12));
    let n = graph.nodes.len();
    let ghost o = graph.nodes@;
    let mut time_sources: Vec<NodeId> = Vec::new();
    let mut i: usize = 0;
    while i < n
        invariant
            i <= n == graph.nodes@.len(),
            graph.nodes@ == o,
            forall|j: int| 0 <= j < i && o[j].node_type == DepNodeType::TimeSource ==> time_sources@.contains(
                #[trigger] o[j].id,
            ),
            forall|m: int| 0 <= m < time_sources@.len() ==> source_before(o, i as int, #[trigger] time_sources@[m]),
        decreases n - i,
    {
        if graph.nodes[i].node_type == DepNodeType::TimeSource {
            let ghost t0 = time_sources@;
            time_sources.push(graph.nodes[i].id);
            proof {
                assert(time_sources@[t0.len() as int] == o[i as int].id);
                assert forall|j: int| 0 <= j < i + 1 && o[j].node_type == DepNodeType::TimeSource implies time_sources@.contains(
                    #[trigger] o[j].id,
                ) by {
                    if j < i {
                        let k = choose|k: int| 0 <= k < t0.len() && t0[k] == o[j].id;
                        assert(time_sources@[k] == t0[k]);
                    }
                }
                assert forall|m: int| 0 <= m < time_sources@.len() implies source_before(
                    o,
                    i + 1,
                    #[trigger] time_sources@[m],
                ) by {
                    if m < t0.len() {
                        assert(time_sources@[m] == t0[m]);
                        assert(source_before(o, i as int, t0[m]));
                    } else {
                        assert(time_sources@[m] == o[i as int].id);
                    }
                }
            }
        } else {
            proof {
                assert forall|m: int| 0 <= m < time_sources@.len() implies source_before(
                    o,
                    i + 1,
                    #[trigger] time_sources@[m],
                ) by {
                    assert(source_before(o, i as int, time_sources@[m]));
                }
            }
        }
        i = i + 1;
    }
    proof {
        assert(tagged_from(graph.nodes@, o, time_sources@.take(0)));
    }
    let mut k: usize = 0;
    while k < time_sources.len()
        invariant
            n == graph.nodes@.len() == o.len(),
            k <= time_sources@.len(),
            tags == DirtyTags(12),
            o == old(graph).nodes@,
            tagged_from(graph.nodes@, o, time_sources@.take(k as int)),
            graph.id_lookup == old(graph).id_lookup,
            graph.current_frame == old(graph).current_frame,
            graph.needs_rebuild == old(graph).needs_rebuild,
            graph.eval_order == old(graph).eval_order,
        decreases time_sources@.len() - k,
    {
        let ghost before = graph.nodes@;
        let ghost s0 = time_sources@.take(k as int);
        let ghost s1 = time_sources@.take(k + 1);
        let id = time_sources[k];
        graph.tag_dirty(id, tags);
        proof {
            assert forall|i: int| 0 <= i < n implies reached_by(o, s1, i) == (reached_by(o, s0, i) || dependent_reaches(
                o,
                id,
                i,
            )) by {
                if reached_by(o, s1, i) {
                    let m = choose|m: int| 0 <= m < s1.len() && #[trigger] dependent_reaches(o, s1[m], i);
                    if m < k {
                        assert(s0[m] == s1[m]);
                    }
                }
                if reached_by(o, s0, i) {
                    let m = choose|m: int| 0 <= m < s0.len() && #[trigger] dependent_reaches(o, s0[m], i);
                    assert(s1[m] == s0[m]);
                }
                if dependent_reaches(o, id, i) {
                    assert(s1[k as int] == id);
                }
            }
            assert forall|i: int| 0 <= i < n implies {
                let a = #[trigger] graph.nodes@[i];
                let b = o[i];
                &&& same_shape(a, b)
                &&& a.depth == b.depth
                &&& if reached_by(o, s1, i) {
                    a.dirty_tags.0 == b.dirty_tags.0 | 12 && !a.evaluated
                } else {
                    a.dirty_tags == b.dirty_tags && a.evaluated == b.evaluated
                }
            } by {
                assert forall|v: int| 0 <= v < o.len() implies #[trigger] dependents_of(before, v) == dependents_of(o, v) by {
                    assert(same_shape(before[v], o[v]));
                }
                lemma_reaches_same_dependents(before, o, id, i);
                let x = o[i].dirty_tags.0;
                assert((x | 12) | 12 == x | 12) by (bit_vector);
            }
        }
        k = k + 1;
    }
    proof {
        let ts = time_sources@;
        assert(ts.take(ts.len() as int) == ts);
        assert forall|i: int| 0 <= i < n implies #[trigger] reached_by(o, ts, i) == time_reached(o, i) by {
            if reached_by(o, ts, i) {
                let m = choose|m: int| 0 <= m < ts.len() && #[trigger] dependent_reaches(o, ts[m], i);
                assert(source_before(o, n as int, ts[m]));
                let j = choose|j: int| 0 <= j < n && o[j].node_type == DepNodeType::TimeSource && #[trigger] o[j].id == ts[m];
                assert(dependent_reaches(o, o[j].id, i));
            }
            if time_reached(o, i) {
                let j = choose|j: int|
                    0 <= j < o.len() && o[j].node_type == DepNodeType::TimeSource && #[trigger] dependent_reaches(
                        o,
                        o[j].id,
                        i,
                    );
                assert(ts.contains(o[j].id));
                let m = choose|m: int| 0 <= m < ts.len() && ts[m] == o[j].id;
                assert(dependent_reaches(o, ts[m], i));
            }
        }
    }
}

/// Tag the ID node registered under `id_name` (and its dependents) as dirty;
/// an unknown name changes nothing.
pub fn tag_id_update(graph: &mut Depsgraph, id_name: &str, tags: DirtyTags)
    ensures
        entry_lookup(id_lookup_entries(old(graph).id_lookup), id_name@) is None ==> final(graph).nodes@
            == old(graph).nodes@,
        entry_lookup(id_lookup_entries(old(graph).id_lookup), id_name@) matches Some(start) ==> {
            &&& final(graph).nodes@.len() == old(graph).nodes@.len()
            &&& forall|i: int|
                0 <= i < final(graph).nodes@.len() ==> {
                    let a = #[trigger] final(graph).nodes@[i];
                    let b = old(graph).nodes@[i];
                    &&& same_shape(a, b)
                    &&& if dependent_reaches(old(graph).nodes@, start, i) {
                        a.dirty_tags.0 == b.dirty_tags.0 | tags.0 && !a.evaluated
                    } else {
                        a.dirty_tags == b.dirty_tags && a.evaluated == b.evaluated
                    }
                }
        },
        final(graph).id_lookup == old(graph).id_lookup,
        final(graph).eval_order == old(graph).eval_order,
{
    if let Some(node_id) = graph.find_id(id_name) {
        graph.tag_dirty(node_id, tags);
    }
}

} // verus!
