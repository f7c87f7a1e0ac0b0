//! Evaluation orders, cycles, and the counting facts behind Kahn's
//! algorithm.

use vstd::prelude::*;
use vstd::set_lib::{lemma_int_range, lemma_len_subset, lemma_subset_equality, set_int_range};

use super::builder::deps_of;
use super::node::DepNode;
use super::NodeId;

verus! {

/// `p` is a cycle of dependency edges: it starts and ends at the same node
/// and each node depends on the next one.
pub open spec fn is_dep_cycle(nodes: Seq<DepNode>, p: Seq<int>) -> bool {
    &&& p.len() >= 2
    &&& p[0] == p.last()
    &&& forall|k: int| 0 <= k < p.len() ==> 0 <= #[trigger] p[k] < nodes.len()
    &&& forall|k: int|
        0 <= k < p.len() - 1 ==> deps_of(nodes, #[trigger] p[k]).contains(p[k + 1] as NodeId)
}

/// Some nodes depend on each other in a circle.
pub open spec fn has_cycle(nodes: Seq<DepNode>) -> bool {
    exists|p: Seq<int>| #[trigger] is_dep_cycle(nodes, p)
}

/// `order` lists every node exactly once, and each node after all of its
/// dependencies.
pub open spec fn is_eval_order(nodes: Seq<DepNode>, order: Seq<NodeId>) -> bool {
    &&& order.len() == nodes.len()
    &&& order.no_duplicates()
    &&& forall|k: int| 0 <= k < order.len() ==> #[trigger] order[k] < nodes.len()
    &&& forall|k: int, j: int|
        0 <= k < order.len() && 0 <= j < deps_of(nodes, order[k] as int).len() ==> order.take(
            k,
        ).contains(#[trigger] deps_of(nodes, order[k] as int)[j])
}

/// How many of `ds` are not in `done`.
pub open spec fn count_missing(ds: Seq<NodeId>, done: Seq<NodeId>) -> nat
    decreases ds.len(),
{
    if ds.len() == 0 {
        0
    } else {
        count_missing(ds.drop_last(), done) + if done.contains(ds.last()) {
            0nat
        } else {
            1nat
        }
    }
}

pub proof fn lemma_count_missing_zero(ds: Seq<NodeId>, done: Seq<NodeId>)
    ensures
        count_missing(ds, done) == 0 <==> forall|k: int| 0 <= k < ds.len() ==> done.contains(#[trigger] ds[k]),
        count_missing(ds, done) <= ds.len(),
    decreases ds.len(),
{
    if ds.len() > 0 {
        lemma_count_missing_zero(ds.drop_last(), done);
        assert forall|k: int| 0 <= k < ds.len() - 1 implies #[trigger] ds.drop_last()[k] == ds[k] by {}
        if count_missing(ds, done) == 0 {
            assert forall|k: int| 0 <= k < ds.len() implies done.contains(#[trigger] ds[k]) by {
                if k < ds.len() - 1 {
                    assert(ds.drop_last()[k] == ds[k]);
                }
            }
        }
        if forall|k: int| 0 <= k < ds.len() ==> done.contains(#[trigger] ds[k]) {
            assert(done.contains(ds[ds.len() - 1]));
            assert forall|k: int| 0 <= k < ds.len() - 1 implies done.contains(#[trigger] ds.drop_last()[k]) by {
                assert(ds.drop_last()[k] == ds[k]);
            }
        }
    }
}

pub proof fn lemma_count_missing_push(ds: Seq<NodeId>, done: Seq<NodeId>, x: NodeId)
    requires
        ds.no_duplicates(),
        !done.contains(x),
    ensures
        ds.contains(x) ==> count_missing(ds, done.push(x)) + 1 == count_missing(ds, done),
        !ds.contains(x) ==> count_missing(ds, done.push(x)) == count_missing(ds, done),
    decreases ds.len(),
{
    if ds.len() > 0 {
        let r = ds.drop_last();
        assert(r.no_duplicates());
        lemma_count_missing_push(r, done, x);
        assert(forall|y: NodeId| done.push(x).contains(y) <==> (done.contains(y) || y == x)) by {
            assert forall|y: NodeId| done.push(x).contains(y) implies (done.contains(y) || y == x) by {
                let k = choose|k: int| 0 <= k < done.push(x).len() && done.push(x)[k] == y;
                if k < done.len() {
                    assert(done[k] == y);
                }
            }
            assert forall|y: NodeId| (done.contains(y) || y == x) implies done.push(x).contains(y) by {
                if y == x {
                    assert(done.push(x)[done.len() as int] == x);
                } else {
                    let k = choose|k: int| 0 <= k < done.len() && done[k] == y;
                    assert(done.push(x)[k] == y);
                }
            }
        }
        if ds.last() == x {
            assert(!r.contains(x)) by {
                if r.contains(x) {
                    let k = choose|k: int| 0 <= k < r.len() && r[k] == x;
                    assert(ds[k] == ds[ds.len() - 1]);
                }
            }
            assert(ds.contains(x)) by {
                assert(ds[ds.len() - 1] == x);
            }
        } else {
            assert(ds.contains(x) == r.contains(x)) by {
                if ds.contains(x) {
                    let k = choose|k: int| 0 <= k < ds.len() && ds[k] == x;
                    assert(r[k] == x);
                }
                if r.contains(x) {
                    let k = choose|k: int| 0 <= k < r.len() && r[k] == x;
                    assert(ds[k] == x);
                }
            }
        }
    }
}

/// A sequence longer than `n` whose entries lie in `[0, n)` repeats an entry.
pub proof fn lemma_pigeonhole(w: Seq<int>, n: int)
    requires
        0 <= n < w.len(),
        forall|k: int| 0 <= k < w.len() ==> 0 <= #[trigger] w[k] < n,
    ensures
        exists|a: int, b: int| 0 <= a < b < w.len() && #[trigger] w[a] == #[trigger] w[b],
{
    if !(exists|a: int, b: int| 0 <= a < b < w.len() && #[trigger] w[a] == #[trigger] w[b]) {
        assert(w.no_duplicates()) by {
            assert forall|a: int, b: int| 0 <= a < w.len() && 0 <= b < w.len() && a != b implies w[a] != w[b] by {
                if a < b {
                    assert(!(w[a] == w[b]));
                } else {
                    assert(!(w[b] == w[a]));
                }
            }
        }
        w.unique_seq_to_set();
        lemma_int_range(0, n);
        assert(w.to_set().subset_of(set_int_range(0, n)));
        lemma_len_subset(w.to_set(), set_int_range(0, n));
    }
}

/// The entries of `s`, as integers.
pub open spec fn as_ints(s: Seq<NodeId>) -> Seq<int> {
    s.map_values(|x: NodeId| x as int)
}

/// A duplicate-free list of ids below `n` holds at most `n` of them, and
/// holds all of them when it has exactly `n`.
pub proof fn lemma_distinct_ids(s: Seq<NodeId>, n: int)
    requires
        0 <= n,
        s.no_duplicates(),
        forall|k: int| 0 <= k < s.len() ==> #[trigger] s[k] < n,
    ensures
        s.len() <= n,
        s.len() == n ==> forall|v: NodeId| (v as int) < n ==> #[trigger] s.contains(v),
{
    let w = as_ints(s);
    assert(w.no_duplicates()) by {
        assert forall|a: int, b: int| 0 <= a < w.len() && 0 <= b < w.len() && a != b implies w[a] != w[b] by {
            assert(s[a] != s[b]);
        }
    }
    w.unique_seq_to_set();
    lemma_int_range(0, n);
    assert(w.to_set().subset_of(set_int_range(0, n))) by {
        assert forall|x: int| w.to_set().contains(x) implies set_int_range(0, n).contains(x) by {
            let k = choose|k: int| 0 <= k < w.len() && w[k] == x;
            assert(s[k] < n);
        }
    }
    lemma_len_subset(w.to_set(), set_int_range(0, n));
    if s.len() == n {
        lemma_subset_equality(w.to_set(), set_int_range(0, n));
        assert forall|v: NodeId| (v as int) < n implies #[trigger] s.contains(v) by {
            assert(set_int_range(0, n).contains(v as int));
            assert(w.to_set().contains(v as int));
            let k = choose|k: int| 0 <= k < w.len() && w[k] == v as int;
            assert(s[k] == v);
        }
    }
}

/// The next node of the walk used by `lemma_closed_set_has_cycle`.
spec fn walk_next(nodes: Seq<DepNode>, u: spec_fn(int) -> bool, j: int) -> int {
    choose|d: int| #[trigger] u(d) && 0 <= d < nodes.len() && deps_of(nodes, j).contains(d as NodeId)
}

spec fn walk(nodes: Seq<DepNode>, u: spec_fn(int) -> bool, start: int, k: nat) -> int
    decreases k,
{
    if k == 0 {
        start
    } else {
        walk_next(nodes, u, walk(nodes, u, start, (k - 1) as nat))
    }
}

proof fn lemma_walk_in_set(nodes: Seq<DepNode>, u: spec_fn(int) -> bool, start: int, k: nat)
    requires
        u(start),
        forall|j: int|
            #[trigger] u(j) ==> exists|d: int| #![trigger u(d)]
                u(d) && 0 <= d < nodes.len() && deps_of(nodes, j).contains(d as NodeId),
    ensures
        u(walk(nodes, u, start, k)),
        k > 0 ==> 0 <= walk(nodes, u, start, k) < nodes.len() && deps_of(
            nodes,
            walk(nodes, u, start, (k - 1) as nat),
        ).contains(walk(nodes, u, start, k) as NodeId),
    decreases k,
{
    if k > 0 {
        lemma_walk_in_set(nodes, u, start, (k - 1) as nat);
        let j = walk(nodes, u, start, (k - 1) as nat);
        assert(u(j));
    }
}

/// When every node of a non-empty set of nodes depends on another node of
/// the set, the graph has a cycle.
pub proof fn lemma_closed_set_has_cycle(nodes: Seq<DepNode>, u: spec_fn(int) -> bool, start: int)
    requires
        u(start),
        0 <= start < nodes.len(),
        forall|j: int|
            #[trigger] u(j) ==> exists|d: int| #![trigger u(d)]
                u(d) && 0 <= d < nodes.len() && deps_of(nodes, j).contains(d as NodeId),
    ensures
        has_cycle(nodes),
{
    let n = nodes.len() as int;
    let w = Seq::new((n + 1) as nat, |k: int| walk(nodes, u, start, k as nat));
    assert forall|k: int| 0 <= k < w.len() implies 0 <= #[trigger] w[k] < n by {
        lemma_walk_in_set(nodes, u, start, k as nat);
    }
    lemma_pigeonhole(w, n);
    let (a, b) = choose|a: int, b: int| 0 <= a < b < w.len() && #[trigger] w[a] == #[trigger] w[b];
    let p = w.subrange(a, b + 1);
    assert forall|k: int| 0 <= k < p.len() - 1 implies deps_of(nodes, #[trigger] p[k]).contains(
        p[k + 1] as NodeId,
    ) by {
        lemma_walk_in_set(nodes, u, start, (a + k + 1) as nat);
        assert(p[k] == w[a + k]);
        assert(p[k + 1] == w[a + k + 1]);
    }
    assert forall|k: int| 0 <= k < p.len() implies 0 <= #[trigger] p[k] < nodes.len() by {
        assert(p[k] == w[a + k]);
    }
    assert(is_dep_cycle(nodes, p));
}

/// A graph that has an evaluation order has no cycle.
pub proof fn lemma_eval_order_acyclic(nodes: Seq<DepNode>, order: Seq<NodeId>)
    requires
        is_eval_order(nodes, order),
        nodes.len() <= u32::MAX,
    ensures
        !has_cycle(nodes),
{
    if has_cycle(nodes) {
        let p = choose|p: Seq<int>| #[trigger] is_dep_cycle(nodes, p);
        lemma_distinct_ids(order, nodes.len() as int);
        // position of each node of the cycle in the order
        let pos = |v: int| order.index_of(v as NodeId);
        assert forall|k: int| 0 <= k < p.len() implies 0 <= #[trigger] pos(p[k]) < order.len() && order[pos(p[k])] == p[k] as NodeId by {
            assert(order.contains(p[k] as NodeId));
        }
        assert forall|k: int| 0 <= k < p.len() - 1 implies #[trigger] pos(p[k + 1]) < pos(p[k]) by {
            let v = p[k];
            let d = p[k + 1] as NodeId;
            let i = pos(v);
            assert(order[i] == v as NodeId);
            assert(0 <= p[k] < nodes.len());
            assert(order[i] as int == v);
            assert(deps_of(nodes, v).contains(d));
            let j = choose|j: int| 0 <= j < deps_of(nodes, v).len() && deps_of(nodes, v)[j] == d;
            assert(deps_of(nodes, order[i] as int)[j] == d);
            assert(order.take(i).contains(d));
            let m = choose|m: int| 0 <= m < order.take(i).len() && order.take(i)[m] == d;
            assert(order[m] == d);
            assert(order[pos(p[k + 1])] == d);
            assert(pos(p[k + 1]) == m);
        }
        lemma_descending(p, pos, (p.len() - 1) as int);
        assert(false);
    }
}

proof fn lemma_descending(p: Seq<int>, pos: spec_fn(int) -> int, k: int)
    requires
        1 <= k < p.len(),
        forall|i: int| 0 <= i < p.len() - 1 ==> #[trigger] pos(p[i + 1]) < pos(p[i]),
    ensures
        pos(p[k]) < pos(p[0]),
    decreases k,
{
    if k > 1 {
        lemma_descending(p, pos, k - 1);
        assert(pos(p[(k - 1) + 1]) < pos(p[k - 1]));
    } else {
        assert(pos(p[0int + 1]) < pos(p[0int]));
    }
}

} // verus!
