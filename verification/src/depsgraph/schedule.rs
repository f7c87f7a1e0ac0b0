//! The decisions of level-by-level evaluation: nodes of equal depth do not
//! depend on each other, so each depth level can be evaluated as one batch
//! (by any number of workers); before a batch its clean nodes count as
//! evaluated, and after a batch that succeeded its nodes are marked clean.

use vstd::prelude::*;

use super::builder::{same_shape, Depsgraph};
use super::node::DepNode;
use super::{DepsgraphError, DepsgraphResult, NodeId};

verus! {

/// The dirty nodes of depth `depth`, in table order, each as its id and
/// label.
pub open spec fn level_batch(nodes: Seq<DepNode>, depth: u32) -> Seq<(NodeId, Seq<char>)>
    decreases nodes.len(),
{
    if nodes.len() == 0 {
        Seq::empty()
    } else {
        let rest = level_batch(nodes.drop_last(), depth);
        let n = nodes.last();
        if n.depth == depth && n.dirty_tags.0 != 0 {
            rest.push((n.id, n.label@))
        } else {
            rest
        }
    }
}

/// The ids and labels of a batch.
pub open spec fn batch_view(batch: Seq<(NodeId, String)>) -> Seq<(NodeId, Seq<char>)> {
    batch.map_values(|e: (NodeId, String)| (e.0, e.1@))
}

/// The greatest depth of any node; 0 for a graph without nodes.
pub fn max_depth(graph: &Depsgraph) -> (d: u32)
    ensures
        forall|i: int| 0 <= i < graph.nodes@.len() ==> (#[trigger] graph.nodes@[i]).depth <= d,
        graph.nodes@.len() > 0 ==> exists|i: int| 0 <= i < graph.nodes@.len() && (#[trigger] graph.nodes@[i]).depth == d,
        graph.nodes@.len() == 0 ==> d == 0,
{
    let mut d: u32 = 0;
    let mut i: usize = 0;
    while i < graph.nodes.len()
        invariant
            i <= graph.nodes@.len(),
            forall|k: int| 0 <= k < i ==> (#[trigger] graph.nodes@[k]).depth <= d,
            i > 0 ==> exists|k: int| 0 <= k < i && (#[trigger] graph.nodes@[k]).depth == d,
            i == 0 ==> d == 0,
        decreases graph.nodes@.len() - i,
    {
        if i == 0 || graph.nodes[i].depth > d {
            d = graph.nodes[i].depth;
        }
        i = i + 1;
    }
    d
}

/// Prepares a depth level: its clean nodes are marked evaluated (so that
/// later dependency checks pass), and its dirty nodes are returned, in
/// table order, as the batch to evaluate.
pub fn start_level(graph: &mut Depsgraph, depth: u32) -> (batch: Vec<(NodeId, String)>)
    ensures
        batch_view(batch@) == level_batch(old(graph).nodes@, depth),
        final(graph).nodes@.len() == old(graph).nodes@.len(),
        forall|i: int|
            0 <= i < final(graph).nodes@.len() ==> {
                let a = #[trigger] final(graph).nodes@[i];
                let b = old(graph).nodes@[i];
                &&& same_shape(a, b)
                &&& a.dirty_tags == b.dirty_tags
                &&& a.depth == b.depth
                &&& a.evaluated == (b.evaluated || (b.depth == depth && b.dirty_tags.0 == 0))
            },
        final(graph).id_lookup == old(graph).id_lookup,
        final(graph).current_frame == old(graph).current_frame,
        final(graph).needs_rebuild == old(graph).needs_rebuild,
        final(graph).eval_order == old(graph).eval_order,
{
    let ghost start = graph.nodes@;
    let mut batch: Vec<(NodeId, String)> = Vec::new();
    let mut i: usize = 0;
    assert(batch_view(batch@) =~= level_batch(start.take(0), depth));
    while i < graph.nodes.len()
        invariant
            i <= graph.nodes@.len() == start.len(),
            start == old(graph).nodes@,
            batch_view(batch@) == level_batch(start.take(i as int), depth),
            forall|k: int|
                0 <= k < start.len() ==> {
                    let a = #[trigger] graph.nodes@[k];
                    let b = start[k];
                    &&& same_shape(a, b)
                    &&& a.dirty_tags == b.dirty_tags
                    &&& a.depth == b.depth
                    &&& a.evaluated == (b.evaluated || (k < i && b.depth == depth && b.dirty_tags.0 == 0))
                },
            graph.id_lookup == old(graph).id_lookup,
            graph.current_frame == old(graph).current_frame,
            graph.needs_rebuild == old(graph).needs_rebuild,
            graph.eval_order == old(graph).eval_order,
        decreases start.len() - i,
    {
        assert(start.take(i + 1).drop_last() =~= start.take(i as int));
        assert(start.take(i + 1).last() == start[i as int]);
        if graph.nodes[i].depth == depth {
            if graph.nodes[i].dirty_tags.is_empty() {
                graph.nodes[i].evaluated = true;
            } else {
                let ghost before = batch_view(batch@);
                let entry = (graph.nodes[i].id, graph.nodes[i].label.clone());
                batch.push(entry);
                assert(batch_view(batch@) =~= before.push((start[i as int].id, start[i as int].label@)));
            }
        }
        i = i + 1;
    }
    assert(start.take(start.len() as int) =~= start);
    batch
}

/// Whether `id` is the id of an entry of the batch.
pub open spec fn in_batch(batch: Seq<(NodeId, String)>, id: int) -> bool {
    exists|k: int| 0 <= k < batch.len() && #[trigger] batch[k].0 == id
}

/// Marks the nodes of a batch that succeeded clean: their dirty tags are
/// cleared and they count as evaluated. Entries that name no node are
/// ignored.
pub fn finish_level(graph: &mut Depsgraph, batch: &Vec<(NodeId, String)>)
    ensures
        final(graph).nodes@.len() == old(graph).nodes@.len(),
        forall|i: int|
            0 <= i < final(graph).nodes@.len() ==> {
                let a = #[trigger] final(graph).nodes@[i];
                let b = old(graph).nodes@[i];
                &&& same_shape(a, b)
                &&& a.depth == b.depth
                &&& if in_batch(batch@, i) {
                    a.dirty_tags.0 == 0 && a.evaluated
                } else {
                    a.dirty_tags == b.dirty_tags && a.evaluated == b.evaluated
                }
            },
        final(graph).id_lookup == old(graph).id_lookup,
        final(graph).current_frame == old(graph).current_frame,
        final(graph).needs_rebuild == old(graph).needs_rebuild,
        final(graph).eval_order == old(graph).eval_order,
{
    let ghost start = graph.nodes@;
    let mut k: usize = 0;
    while k < batch.len()
        invariant
            k <= batch@.len(),
            start == old(graph).nodes@,
            graph.nodes@.len() == start.len(),
            forall|i: int|
                0 <= i < start.len() ==> {
                    let a = #[trigger] graph.nodes@[i];
                    let b = start[i];
                    &&& same_shape(a, b)
                    &&& a.depth == b.depth
                    &&& if in_batch(batch@.take(k as int), i) {
                        a.dirty_tags.0 == 0 && a.evaluated
                    } else {
                        a.dirty_tags == b.dirty_tags && a.evaluated == b.evaluated
                    }
                },
            graph.id_lookup == old(graph).id_lookup,
            graph.current_frame == old(graph).current_frame,
            graph.needs_rebuild == old(graph).needs_rebuild,
            graph.eval_order == old(graph).eval_order,
        decreases batch@.len() - k,
    {
        let idx = batch[k].0 as usize;
        if idx < graph.nodes.len() {
            graph.nodes[idx].mark_clean();
        }
        proof {
            assert forall|i: int| 0 <= i < start.len() implies (in_batch(batch@.take(k + 1), i) <==> (in_batch(
                batch@.take(k as int),
                i,
            ) || batch@[k as int].0 == i)) by {
                if in_batch(batch@.take(k + 1), i) {
                    let x = choose|x: int| 0 <= x < batch@.take(k + 1).len() && #[trigger] batch@.take(k + 1)[x].0 == i;
                    if x < k {
                        assert(batch@.take(k as int)[x] == batch@.take(k + 1)[x]);
                    }
                }
                if in_batch(batch@.take(k as int), i) {
                    let x = choose|x: int| 0 <= x < batch@.take(k as int).len() && #[trigger] batch@.take(k as int)[x].0 == i;
                    assert(batch@.take(k + 1)[x] == batch@.take(k as int)[x]);
                }
                if batch@[k as int].0 == i {
                    assert(batch@.take(k + 1)[k as int] == batch@[k as int]);
                }
            }
        }
        k = k + 1;
    }
    assert(batch@.take(batch@.len() as int) =~= batch@);
}


/// Closes a level whose batch has been evaluated: when some evaluations
/// failed, the first error reported stops evaluation with `EvalFailed`
/// (label and message) and the graph is left as it was; otherwise the
/// batch's nodes are marked clean (see [`finish_level`]).
pub fn close_level(
    graph: &mut Depsgraph,
    batch: &Vec<(NodeId, String)>,
    errors: &Vec<(String, String)>,
) -> (r: DepsgraphResult<()>)
    ensures
        errors@.len() > 0 ==> (r matches Err(DepsgraphError::EvalFailed(l, m)) && l == errors@[0].0 && m
            == errors@[0].1),
        errors@.len() > 0 ==> *final(graph) == *old(graph),
        errors@.len() == 0 ==> r is Ok && final(graph).nodes@.len() == old(graph).nodes@.len() && (forall|i: int|
            0 <= i < final(graph).nodes@.len() ==> {
                let a = #[trigger] final(graph).nodes@[i];
                let b = old(graph).nodes@[i];
                &&& same_shape(a, b)
                &&& a.depth == b.depth
                &&& if in_batch(batch@, i) {
                    a.dirty_tags.0 == 0 && a.evaluated
                } else {
                    a.dirty_tags == b.dirty_tags && a.evaluated == b.evaluated
                }
            }) && final(graph).id_lookup == old(graph).id_lookup && final(graph).current_frame
            == old(graph).current_frame && final(graph).needs_rebuild == old(graph).needs_rebuild
            && final(graph).eval_order == old(graph).eval_order,
{
    if errors.len() > 0 {
        let (label, msg) = &errors[0];
        return Err(DepsgraphError::EvalFailed(label.clone(), msg.clone()));
    }
    finish_level(graph, batch);
    Ok(())
}

} // verus!
