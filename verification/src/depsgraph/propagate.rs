//! Dirty-tag propagation through the dependents of a node.

use vstd::prelude::*;

use super::builder::{dependents_of, same_shape, Depsgraph};
use super::node::DepNode;
use super::tag::DirtyTags;
use super::NodeId;

verus! {

/// A path of nodes of the table, each a dependent of the one before.
pub open spec fn is_dep_path(nodes: Seq<DepNode>, p: Seq<NodeId>) -> bool {
    &&& p.len() > 0
    &&& forall|k: int| 0 <= k < p.len() ==> (#[trigger] p[k] as int) < nodes.len()
    &&& forall|k: int|
        0 <= k < p.len() - 1 ==> dependents_of(nodes, #[trigger] p[k] as int).contains(p[k + 1])
}

/// Node `v` is `start` or one of its dependents, directly or through other
/// dependents: some path of dependent edges leads from `start` to `v`.
pub open spec fn dependent_reaches(nodes: Seq<DepNode>, start: NodeId, v: int) -> bool {
    exists|p: Seq<NodeId>| #[trigger] is_dep_path(nodes, p) && p[0] == start && p.last() as int == v
}

/// Two tables with the same dependents reach the same nodes.
pub proof fn lemma_reaches_same_dependents(a: Seq<DepNode>, b: Seq<DepNode>, start: NodeId, v: int)
    requires
        a.len() == b.len(),
        forall|i: int| 0 <= i < a.len() ==> #[trigger] dependents_of(a, i) == dependents_of(b, i),
    ensures
        dependent_reaches(a, start, v) == dependent_reaches(b, start, v),
{
    if dependent_reaches(a, start, v) {
        let p = choose|p: Seq<NodeId>| #[trigger] is_dep_path(a, p) && p[0] == start && p.last() as int == v;
        assert forall|k: int| 0 <= k < p.len() - 1 implies dependents_of(b, #[trigger] p[k] as int).contains(
            p[k + 1],
        ) by {
            assert(dependents_of(a, p[k] as int) == dependents_of(b, p[k] as int));
        }
        assert(is_dep_path(b, p));
    }
    if dependent_reaches(b, start, v) {
        let p = choose|p: Seq<NodeId>| #[trigger] is_dep_path(b, p) && p[0] == start && p.last() as int == v;
        assert forall|k: int| 0 <= k < p.len() - 1 implies dependents_of(a, #[trigger] p[k] as int).contains(
            p[k + 1],
        ) by {
            assert(dependents_of(a, p[k] as int) == dependents_of(b, p[k] as int));
        }
        assert(is_dep_path(a, p));
    }
}

proof fn lemma_path_extend(nodes: Seq<DepNode>, start: NodeId, u: int, w: NodeId)
    requires
        dependent_reaches(nodes, start, u),
        dependents_of(nodes, u).contains(w),
        (w as int) < nodes.len(),
    ensures
        dependent_reaches(nodes, start, w as int),
{
    let p = choose|p: Seq<NodeId>| #[trigger] is_dep_path(nodes, p) && p[0] == start && p.last() as int == u;
    let q = p.push(w);
    assert(q[q.len() - 2] == p.last());
    assert(is_dep_path(nodes, q));
}

/// Every node on a path is marked when the start is marked and the marked
/// set is closed under dependent edges inside the table.
proof fn lemma_marked_closed(nodes: Seq<DepNode>, marked: spec_fn(int) -> bool, p: Seq<NodeId>, k: int)
    requires
        is_dep_path(nodes, p),
        marked(p[0] as int),
        forall|u: int, w: NodeId|
            marked(u) && #[trigger] dependents_of(nodes, u).contains(w) && (w as int) < nodes.len() ==> marked(
                w as int,
            ),
        0 <= k < p.len(),
    ensures
        marked(p[k] as int),
    decreases k,
{
    if k > 0 {
        lemma_marked_closed(nodes, marked, p, k - 1);
        assert(dependents_of(nodes, p[k - 1] as int).contains(p[k]));
        assert((p[k] as int) < nodes.len());
    }
}

/// Number of the first `m` entries of `seen` that are false.
spec fn count_unseen(seen: Seq<bool>, m: int) -> nat
    decreases m,
{
    if m <= 0 {
        0
    } else {
        count_unseen(seen, m - 1) + if !seen[m - 1] {
            1nat
        } else {
            0nat
        }
    }
}

/// Setting an unseen entry lowers the count by one.
proof fn lemma_count_unseen_set(seen: Seq<bool>, s: int, m: int)
    requires
        0 <= s < m <= seen.len(),
        !seen[s],
    ensures
        count_unseen(seen.update(s, true), m) + 1 == count_unseen(seen, m),
    decreases m,
{
    if m - 1 > s {
        lemma_count_unseen_set(seen, s, m - 1);
    } else {
        lemma_count_unseen_same(seen, seen.update(s, true), m - 1);
    }
}

proof fn lemma_count_unseen_same(a: Seq<bool>, b: Seq<bool>, m: int)
    requires
        0 <= m <= a.len(),
        m <= b.len(),
        forall|i: int| 0 <= i < m ==> a[i] == b[i],
    ensures
        count_unseen(b, m) == count_unseen(a, m),
    decreases m,
{
    if m > 0 {
        lemma_count_unseen_same(a, b, m - 1);
    }
}

impl Depsgraph {
    /// Mark a node and its dependents as dirty.
    ///
    /// The node and every node reached from it through dependent edges
    /// (directly or through other dependents) get `tags` added and become
    /// unevaluated; every other node is left as it was. An id outside the
    /// graph changes nothing.
    pub fn tag_dirty(&mut self, node_id: NodeId, tags: DirtyTags)
        ensures
            final(self).nodes@.len() == old(self).nodes@.len(),
            forall|i: int|
                0 <= i < final(self).nodes@.len() ==> {
                    let a = #[trigger] final(self).nodes@[i];
                    let b = old(self).nodes@[i];
                    &&& same_shape(a, b)
                    &&& a.depth == b.depth
                    &&& if dependent_reaches(old(self).nodes@, node_id, i) {
                        a.dirty_tags.0 == b.dirty_tags.0 | tags.0 && !a.evaluated
                    } else {
                        a.dirty_tags == b.dirty_tags && a.evaluated == b.evaluated
                    }
                },
            final(self).id_lookup == old(self).id_lookup,
            final(self).current_frame == old(self).current_frame,
            final(self).needs_rebuild == old(self).needs_rebuild,
            final(self).eval_order == old(self).eval_order,
    {
        let ghost o = self.nodes@;
        let n = self.nodes.len();
        let mut seen: Vec<bool> = Vec::new();
        let mut z: usize = 0;
        while z < n
            invariant
                z <= n,
                seen@.len() == z,
                forall|i: int| 0 <= i < z ==> !seen@[i],
            decreases n - z,
        {
            seen.push(false);
            z = z + 1;
        }
        let mut stack: Vec<NodeId> = Vec::new();
        stack.push(node_id);
        assert(stack@[0] == node_id);
        proof {
            if (node_id as int) < n {
                let p = seq![node_id];
                assert(is_dep_path(o, p));
            }
        }
        loop
            invariant
                n == self.nodes@.len() == o.len() == seen@.len(),
                o == old(self).nodes@,
                self.id_lookup == old(self).id_lookup,
                self.current_frame == old(self).current_frame,
                self.needs_rebuild == old(self).needs_rebuild,
                self.eval_order == old(self).eval_order,
                forall|i: int|
                    0 <= i < n ==> {
                        let a = #[trigger] self.nodes@[i];
                        let b = o[i];
                        &&& same_shape(a, b)
                        &&& a.depth == b.depth
                        &&& if seen@[i] {
                            &&& a.dirty_tags.0 == b.dirty_tags.0 | tags.0
                            &&& !a.evaluated
                            &&& dependent_reaches(o, node_id, i)
                        } else {
                            a.dirty_tags == b.dirty_tags && a.evaluated == b.evaluated
                        }
                    },
                forall|k: int|
                    0 <= k < stack@.len() && (#[trigger] stack@[k] as int) < n ==> dependent_reaches(
                        o,
                        node_id,
                        stack@[k] as int,
                    ),
                (node_id as int) < n && !seen@[node_id as int] ==> stack@.contains(node_id),
                forall|u: int, w: NodeId|
                    0 <= u < n && seen@[u] && #[trigger] dependents_of(o, u).contains(w) && (w as int) < n
                        && !seen@[w as int] ==> stack@.contains(w),
            ensures
                stack@.len() == 0,
            decreases count_unseen(seen@, n as int), stack@.len(),
        {
            let ghost seen_before = seen@;
            let ghost stack_before = stack@;
            match stack.pop() {
                None => {
                    break;
                },
                Some(id) => {
                    let idx = id as usize;
                    if idx >= n || seen[idx] {
                        assert forall|u: int, w: NodeId|
                            0 <= u < n && seen@[u] && #[trigger] dependents_of(o, u).contains(w) && (w as int) < n
                                && !seen@[w as int] implies stack@.contains(w) by {
                            assert(stack_before.contains(w));
                            let k = choose|k: int| 0 <= k < stack_before.len() && stack_before[k] == w;
                            assert(k != stack_before.len() - 1);
                            assert(stack@[k] == w);
                        }
                        assert(forall|k: int| 0 <= k < stack@.len() ==> stack@[k] == stack_before[k]);
                        proof {
                            if (node_id as int) < n && !seen@[node_id as int] {
                                let k = choose|k: int| 0 <= k < stack_before.len() && stack_before[k] == node_id;
                                assert(k != stack_before.len() - 1);
                                assert(stack@[k] == node_id);
                            }
                        }
                        continue;
                    }
                    assert(stack_before[stack_before.len() - 1] == id);
                    assert(dependent_reaches(o, node_id, idx as int));
                    self.nodes[idx].mark_dirty(tags);
                    seen.set(idx, true);
                    proof {
                        lemma_count_unseen_set(seen_before, idx as int, n as int);
                    }
                    let ghost stack_mid = stack@;
                    assert(stack_mid == stack_before.drop_last());
                    let deps_len = self.nodes[idx].dependents.len();
                    let mut j: usize = 0;
                    while j < deps_len
                        invariant
                            n == self.nodes@.len() == o.len(),
                            idx < n,
                            deps_len == dependents_of(self.nodes@, idx as int).len(),
                            dependents_of(self.nodes@, idx as int) == dependents_of(o, idx as int),
                            j <= deps_len,
                            stack@.len() == stack_mid.len() + j,
                            forall|k: int| 0 <= k < stack_mid.len() ==> stack@[k] == stack_mid[k],
                            forall|k: int|
                                0 <= k < j ==> stack@[stack_mid.len() + k] == dependents_of(o, idx as int)[k],
                        decreases deps_len - j,
                    {
                        let w = self.nodes[idx].dependents[j];
                        stack.push(w);
                        j = j + 1;
                    }
                    proof {
                        assert forall|k: int|
                            0 <= k < stack@.len() && (#[trigger] stack@[k] as int) < n implies dependent_reaches(
                                o,
                                node_id,
                                stack@[k] as int,
                            ) by {
                            if k < stack_mid.len() {
                                assert(stack_mid[k] == stack_before[k]);
                                assert(stack@[k] == stack_before[k]);
                            } else {
                                let w = stack@[k];
                                assert(w == dependents_of(o, idx as int)[k - stack_mid.len()]);
                                assert(dependents_of(o, idx as int).contains(w));
                                lemma_path_extend(o, node_id, idx as int, w);
                            }
                        }
                        assert forall|u: int, w: NodeId|
                            0 <= u < n && seen@[u] && #[trigger] dependents_of(o, u).contains(w) && (w as int) < n
                                && !seen@[w as int] implies stack@.contains(w) by {
                            if u == idx {
                                let k = choose|k: int|
                                    0 <= k < dependents_of(o, idx as int).len() && dependents_of(o, idx as int)[k] == w;
                                assert(stack@[stack_mid.len() + k] == w);
                            } else {
                                assert(seen_before[u]);
                                assert(!seen_before[w as int]);
                                assert(stack_before.contains(w));
                                let k = choose|k: int| 0 <= k < stack_before.len() && stack_before[k] == w;
                                if k == stack_before.len() - 1 {
                                    assert(w == id);
                                    assert(false);
                                }
                                assert(stack_mid[k] == stack_before[k]);
                                assert(stack@[k] == w);
                            }
                        }
                        if (node_id as int) < n && !seen@[node_id as int] {
                            let k = choose|k: int| 0 <= k < stack_before.len() && stack_before[k] == node_id;
                            assert(k != stack_before.len() - 1);
                            assert(stack_mid[k] == stack_before[k]);
                            assert(stack@[k] == node_id);
                        }
                    }
                },
            }
        }
        proof {
            let s = seen@;
            let marked = |v: int| 0 <= v < n && s[v];
            assert forall|i: int| 0 <= i < n && dependent_reaches(o, node_id, i) implies s[i] by {
                let p = choose|p: Seq<NodeId>| #[trigger] is_dep_path(o, p) && p[0] == node_id && p.last() as int == i;
                assert((p[0] as int) < n);
                assert forall|u: int, w: NodeId|
                    marked(u) && #[trigger] dependents_of(o, u).contains(w) && (w as int) < o.len() implies marked(
                        w as int,
                    ) by {
                    if !s[w as int] {
                        assert(stack@.contains(w));
                    }
                }
                if !s[node_id as int] {
                    assert(stack@.contains(node_id));
                }
                lemma_marked_closed(o, marked, p, p.len() - 1);
            }
        }
    }
}

} // verus!
