//! The dependency graph itself and its construction.

use indexmap::IndexMap;
use vstd::prelude::*;
use vstd::string::*;

use super::node::{DepNode, DepNodeType, IdType};
use super::tag::DirtyTags;
use super::{DepsgraphError, DepsgraphResult, NodeId};
use crate::index_map::{entries_insert, entry_lookup};

verus! {

/// The entries of the name-to-node table, in insertion order.
pub uninterp spec fn id_lookup_entries(m: IndexMap<String, NodeId>) -> Seq<(Seq<char>, NodeId)>;

/// `IndexMap::new`: an empty table.
#[verifier::external_body]
fn id_lookup_new() -> (m: IndexMap<String, NodeId>)
    ensures
        id_lookup_entries(m) == Seq::<(Seq<char>, NodeId)>::empty(),
{
    IndexMap::new()
}

/// `IndexMap::insert`: an existing key keeps its place and gets the new
/// value; a new key is appended last.
#[verifier::external_body]
fn id_lookup_insert(m: &mut IndexMap<String, NodeId>, key: String, value: NodeId)
    ensures
        id_lookup_entries(*final(m)) == entries_insert(id_lookup_entries(*old(m)), key@, value),
{
    m.insert(key, value);
}

/// `IndexMap::get`: the value stored under the key, if any.
#[verifier::external_body]
fn id_lookup_get(m: &IndexMap<String, NodeId>, key: &str) -> (r: Option<NodeId>)
    ensures
        r == entry_lookup(id_lookup_entries(*m), key@),
{
    m.get(key).copied()
}

/// The dependency graph: a directed graph of evaluation nodes.
#[derive(Debug)]
pub struct Depsgraph {
    /// All nodes in the graph, indexed by NodeId.
    pub nodes: Vec<DepNode>,
    /// Name-to-NodeId lookup for ID nodes.
    pub id_lookup: IndexMap<String, NodeId>,
    /// Current evaluation frame, as the bit pattern of an `f32`.
    pub current_frame: u32,
    /// Whether the graph needs a full rebuild.
    pub needs_rebuild: bool,
    /// Topologically sorted evaluation order.
    pub eval_order: Vec<NodeId>,
}

/// The dependencies of node `i`.
pub open spec fn deps_of(nodes: Seq<DepNode>, i: int) -> Seq<NodeId> {
    nodes[i].dependencies@
}

/// The dependents of node `i`.
pub open spec fn dependents_of(nodes: Seq<DepNode>, i: int) -> Seq<NodeId> {
    nodes[i].dependents@
}

/// Ids are positions in the table.
pub open spec fn wf_ids(nodes: Seq<DepNode>) -> bool {
    &&& nodes.len() <= u32::MAX
    &&& forall|i: int| 0 <= i < nodes.len() ==> (#[trigger] nodes[i]).id == i
}

/// Every dependency points inside the table and is recorded as a dependent
/// on its other end.
pub open spec fn wf_deps(nodes: Seq<DepNode>) -> bool {
    forall|i: int, k: int|
        0 <= i < nodes.len() && 0 <= k < deps_of(nodes, i).len() ==> {
            let d = #[trigger] deps_of(nodes, i)[k];
            &&& d < nodes.len()
            &&& dependents_of(nodes, d as int).contains(i as NodeId)
        }
}

/// Every dependent points inside the table and records the edge as a
/// dependency on its other end.
pub open spec fn wf_dependents(nodes: Seq<DepNode>) -> bool {
    forall|i: int, k: int|
        0 <= i < nodes.len() && 0 <= k < dependents_of(nodes, i).len() ==> {
            let d = #[trigger] dependents_of(nodes, i)[k];
            &&& d < nodes.len()
            &&& deps_of(nodes, d as int).contains(i as NodeId)
        }
}

/// No edge list repeats an id.
pub open spec fn wf_no_dups(nodes: Seq<DepNode>) -> bool {
    forall|i: int|
        0 <= i < nodes.len() ==> (#[trigger] deps_of(nodes, i)).no_duplicates()
            && dependents_of(nodes, i).no_duplicates()
}

/// A well-formed node table: ids are positions, every edge is recorded on
/// both of its ends and points inside the table, and no list repeats an id.
pub open spec fn nodes_wf(nodes: Seq<DepNode>) -> bool {
    &&& wf_ids(nodes)
    &&& wf_deps(nodes)
    &&& wf_dependents(nodes)
    &&& wf_no_dups(nodes)
}

/// The shape of a node (everything but its evaluation state) is unchanged.
pub open spec fn same_shape(a: DepNode, b: DepNode) -> bool {
    &&& a.id == b.id
    &&& a.label == b.label
    &&& a.node_type == b.node_type
    &&& a.dependencies == b.dependencies
    &&& a.dependents == b.dependents
}

/// `s` with `x` appended, unless it already holds `x`.
pub open spec fn push_if_absent(s: Seq<NodeId>, x: NodeId) -> Seq<NodeId> {
    if s.contains(x) {
        s
    } else {
        s.push(x)
    }
}

pub proof fn lemma_push_if_absent(s: Seq<NodeId>, x: NodeId)
    requires
        s.no_duplicates(),
    ensures
        push_if_absent(s, x).no_duplicates(),
        push_if_absent(s, x).contains(x),
        forall|y: NodeId| s.contains(y) ==> push_if_absent(s, x).contains(y),
{
    if !s.contains(x) {
        let t = s.push(x);
        assert(t[s.len() as int] == x);
        assert forall|y: NodeId| s.contains(y) implies t.contains(y) by {
            let k = choose|k: int| 0 <= k < s.len() && s[k] == y;
            assert(t[k] == y);
        }
    }
}

proof fn lemma_add_edge_no_dups(o: Seq<DepNode>, n: Seq<DepNode>, from: NodeId, to: NodeId)
    requires
        wf_no_dups(o),
        o.len() == n.len(),
        forall|i: int|
            0 <= i < n.len() ==> #[trigger] deps_of(n, i) == (if i == from {
                push_if_absent(deps_of(o, i), to)
            } else {
                deps_of(o, i)
            }) && dependents_of(n, i) == (if i == to {
                push_if_absent(dependents_of(o, i), from)
            } else {
                dependents_of(o, i)
            }),
    ensures
        wf_no_dups(n),
{
    assert forall|i: int| 0 <= i < n.len() implies (#[trigger] deps_of(n, i)).no_duplicates()
        && dependents_of(n, i).no_duplicates() by {
        assert(deps_of(o, i).no_duplicates());
        assert(dependents_of(o, i).no_duplicates());
        lemma_push_if_absent(deps_of(o, i), to);
        lemma_push_if_absent(dependents_of(o, i), from);
        if i == from {
            assert(deps_of(n, i) == push_if_absent(deps_of(o, i), to));
        } else {
            assert(deps_of(n, i) == deps_of(o, i));
        }
        if i == to {
            assert(dependents_of(n, i) == push_if_absent(dependents_of(o, i), from));
        } else {
            assert(dependents_of(n, i) == deps_of(o, i) || dependents_of(n, i) == dependents_of(o, i));
        }
    }
}

/// Whether `v` holds `x`.
pub fn vec_contains(v: &Vec<NodeId>, x: NodeId) -> (b: bool)
    ensures
        b == v@.contains(x),
{
    let mut i: usize = 0;
    while i < v.len()
        invariant
            i <= v.len(),
            forall|k: int| 0 <= k < i ==> v@[k] != x,
        decreases v.len() - i,
    {
        if v[i] == x {
            return true;
        }
        i = i + 1;
    }
    false
}

/// Node `i` is well formed: its id is its position, each of its edges
/// points inside the table and is recorded on the other end, and neither
/// list repeats an id.
pub open spec fn node_wf(nodes: Seq<DepNode>, i: int) -> bool {
    &&& nodes[i].id == i
    &&& forall|k: int|
        0 <= k < deps_of(nodes, i).len() ==> {
            let d = #[trigger] deps_of(nodes, i)[k];
            &&& d < nodes.len()
            &&& dependents_of(nodes, d as int).contains(i as NodeId)
        }
    &&& forall|k: int|
        0 <= k < dependents_of(nodes, i).len() ==> {
            let d = #[trigger] dependents_of(nodes, i)[k];
            &&& d < nodes.len()
            &&& deps_of(nodes, d as int).contains(i as NodeId)
        }
    &&& deps_of(nodes, i).no_duplicates()
    &&& dependents_of(nodes, i).no_duplicates()
}

/// Whether no id occurs twice in `v`.
fn vec_no_duplicates(v: &Vec<NodeId>) -> (b: bool)
    ensures
        b == v@.no_duplicates(),
{
    let mut j: usize = 0;
    while j < v.len()
        invariant
            j <= v.len(),
            forall|a: int, b: int| 0 <= a < b < j ==> v@[a] != v@[b],
        decreases v.len() - j,
    {
        let mut a: usize = 0;
        while a < j
            invariant
                a <= j < v.len(),
                forall|x: int| 0 <= x < a ==> v@[x] != v@[j as int],
            decreases j - a,
        {
            if v[a] == v[j] {
                return false;
            }
            a = a + 1;
        }
        j = j + 1;
    }
    true
}

/// Whether every id of `edges` is a node of `nodes` whose `back` list
/// (dependents when `back_is_dependents`, else dependencies) holds `i`.
fn edges_recorded(nodes: &Vec<DepNode>, i: NodeId, edges: &Vec<NodeId>, back_is_dependents: bool) -> (b: bool)
    ensures
        b == forall|k: int|
            0 <= k < edges@.len() ==> {
                let d = #[trigger] edges@[k];
                &&& d < nodes@.len()
                &&& if back_is_dependents {
                    dependents_of(nodes@, d as int).contains(i)
                } else {
                    deps_of(nodes@, d as int).contains(i)
                }
            },
{
    let mut k: usize = 0;
    while k < edges.len()
        invariant
            k <= edges@.len(),
            forall|x: int|
                0 <= x < k ==> {
                    let d = #[trigger] edges@[x];
                    &&& d < nodes@.len()
                    &&& if back_is_dependents {
                        dependents_of(nodes@, d as int).contains(i)
                    } else {
                        deps_of(nodes@, d as int).contains(i)
                    }
                },
        decreases edges@.len() - k,
    {
        let d = edges[k] as usize;
        if d >= nodes.len() {
            return false;
        }
        let found = if back_is_dependents {
            vec_contains(&nodes[d].dependents, i)
        } else {
            vec_contains(&nodes[d].dependencies, i)
        };
        if !found {
            return false;
        }
        k = k + 1;
    }
    true
}

/// `f` is `o` with the dependency `from` on `to` added: recorded on both
/// ends, at most once, when both ends are in the graph; otherwise nothing
/// changes.
pub open spec fn dependency_added(o_g: Depsgraph, f_g: Depsgraph, from: NodeId, to: NodeId) -> bool {
    &&& f_g.nodes@.len() == o_g.nodes@.len()
    &&& f_g.id_lookup == o_g.id_lookup
    &&& f_g.current_frame == o_g.current_frame
    &&& f_g.needs_rebuild == o_g.needs_rebuild
    &&& f_g.eval_order == o_g.eval_order
    &&& (from as int) < o_g.nodes@.len() && (to as int) < o_g.nodes@.len() ==> {
        let o = o_g.nodes@;
        let n = f_g.nodes@;
        &&& deps_of(n, from as int) == push_if_absent(deps_of(o, from as int), to)
        &&& dependents_of(n, to as int) == push_if_absent(dependents_of(o, to as int), from)
        &&& from != to ==> dependents_of(n, from as int) == dependents_of(o, from as int)
        &&& from != to ==> deps_of(n, to as int) == deps_of(o, to as int)
        &&& forall|i: int|
            0 <= i < n.len() ==> {
                &&& (#[trigger] n[i]).id == o[i].id
                &&& n[i].label == o[i].label
                &&& n[i].node_type == o[i].node_type
                &&& n[i].dirty_tags == o[i].dirty_tags
                &&& n[i].evaluated == o[i].evaluated
                &&& n[i].depth == o[i].depth
                &&& (i != from && i != to ==> n[i] == o[i])
            }
    }
    &&& !((from as int) < o_g.nodes@.len() && (to as int) < o_g.nodes@.len())
        ==> f_g.nodes@ == o_g.nodes@
}

impl Depsgraph {
    pub open spec fn wf(&self) -> bool {
        nodes_wf(self.nodes@)
    }

    /// Create a new empty dependency graph.
    pub fn new() -> (g: Depsgraph)
        ensures
            g.nodes@.len() == 0,
            id_lookup_entries(g.id_lookup).len() == 0,
            g.current_frame == 0,
            g.needs_rebuild,
            g.eval_order@.len() == 0,
            g.wf(),
    {
        Depsgraph {
            nodes: Vec::new(),
            id_lookup: id_lookup_new(),
            current_frame: 0,
            needs_rebuild: true,
            eval_order: Vec::new(),
        }
    }

    /// Add a node to the graph, returning its ID.
    pub fn add_node(&mut self, label: &str, node_type: DepNodeType) -> (id: NodeId)
        requires
            old(self).nodes@.len() < u32::MAX,
        ensures
            id == old(self).nodes@.len(),
            final(self).nodes@.len() == old(self).nodes@.len() + 1,
            forall|i: int| 0 <= i < id ==> final(self).nodes@[i] == old(self).nodes@[i],
            final(self).nodes@[id as int].id == id,
            final(self).nodes@[id as int].label@ == label@,
            final(self).nodes@[id as int].node_type == node_type,
            final(self).nodes@[id as int].dependencies@.len() == 0,
            final(self).nodes@[id as int].dependents@.len() == 0,
            final(self).nodes@[id as int].dirty_tags.0 == 0,
            !final(self).nodes@[id as int].evaluated,
            final(self).nodes@[id as int].depth == 0,
            final(self).id_lookup == old(self).id_lookup,
            final(self).current_frame == old(self).current_frame,
            final(self).needs_rebuild == old(self).needs_rebuild,
            final(self).eval_order == old(self).eval_order,
            old(self).wf() ==> final(self).wf(),
    {
        let id = self.nodes.len() as NodeId;
        let node = DepNode::new(id, label, node_type);
        self.nodes.push(node);
        proof {
            let n = self.nodes@;
            if nodes_wf(old(self).nodes@) {
                assert forall|i: int, k: int|
                    0 <= i < n.len() && 0 <= k < deps_of(n, i).len() implies {
                        let d = #[trigger] deps_of(n, i)[k];
                        &&& d < n.len()
                        &&& dependents_of(n, d as int).contains(i as NodeId)
                    } by {
                    assert(deps_of(n, i)[k] == deps_of(old(self).nodes@, i)[k]);
                }
                assert forall|i: int, k: int|
                    0 <= i < n.len() && 0 <= k < dependents_of(n, i).len() implies {
                        let d = #[trigger] dependents_of(n, i)[k];
                        &&& d < n.len()
                        &&& deps_of(n, d as int).contains(i as NodeId)
                    } by {
                    assert(dependents_of(n, i)[k] == dependents_of(old(self).nodes@, i)[k]);
                }
                assert forall|i: int| 0 <= i < n.len() implies (#[trigger] deps_of(n, i)).no_duplicates()
                    && dependents_of(n, i).no_duplicates() by {
                    if i < n.len() - 1 {
                        assert(deps_of(n, i) == deps_of(old(self).nodes@, i));
                    }
                }
            }
        }
        id
    }

    /// Add an ID node, labelled `ID:<name>`, and register it in the lookup
    /// table.
    pub fn add_id_node(&mut self, name: &str, id_type: IdType) -> (id: NodeId)
        requires
            old(self).nodes@.len() < u32::MAX,
        ensures
            id == old(self).nodes@.len(),
            final(self).nodes@.len() == old(self).nodes@.len() + 1,
            forall|i: int| 0 <= i < id ==> final(self).nodes@[i] == old(self).nodes@[i],
            final(self).nodes@[id as int].id == id,
            final(self).nodes@[id as int].label@ == "ID:"@ + name@,
            final(self).nodes@[id as int].node_type == DepNodeType::Id(id_type),
            final(self).nodes@[id as int].dependencies@.len() == 0,
            final(self).nodes@[id as int].dependents@.len() == 0,
            final(self).nodes@[id as int].dirty_tags.0 == 0,
            !final(self).nodes@[id as int].evaluated,
            final(self).nodes@[id as int].depth == 0,
            id_lookup_entries(final(self).id_lookup) == entries_insert(
                id_lookup_entries(old(self).id_lookup),
                name@,
                id,
            ),
            final(self).current_frame == old(self).current_frame,
            final(self).needs_rebuild == old(self).needs_rebuild,
            final(self).eval_order == old(self).eval_order,
            old(self).wf() ==> final(self).wf(),
    {
        let mut label = String::from_str("ID:");
        label.append(name);
        let id = self.add_node(label.as_str(), DepNodeType::Id(id_type));
        id_lookup_insert(&mut self.id_lookup, name.to_string(), id);
        id
    }

    /// Add a dependency edge: `from` depends on `to` (`to` must be evaluated
    /// first). The edge is recorded on both ends, at most once; an edge with
    /// an end outside the graph is ignored.
    pub fn add_dependency(&mut self, from: NodeId, to: NodeId)
        ensures
            dependency_added(*old(self), *final(self), from, to),
            old(self).wf() ==> final(self).wf(),
    {
        let from_idx = from as usize;
        let to_idx = to as usize;
        if from_idx < self.nodes.len() && to_idx < self.nodes.len() {
            if !vec_contains(&self.nodes[from_idx].dependencies, to) {
                self.nodes[from_idx].dependencies.push(to);
            }
            if !vec_contains(&self.nodes[to_idx].dependents, from) {
                self.nodes[to_idx].dependents.push(from);
            }
            proof {
                let o = old(self).nodes@;
                let n = self.nodes@;
                if nodes_wf(o) {
                    assert forall|i: int, x: NodeId| 0 <= i < n.len() && #[trigger] deps_of(o, i).contains(x)
                        implies deps_of(n, i).contains(x) by {
                        let k = choose|k: int| 0 <= k < deps_of(o, i).len() && deps_of(o, i)[k] == x;
                        assert(deps_of(n, i)[k] == x);
                    }
                    assert forall|i: int, x: NodeId| 0 <= i < n.len() && #[trigger] dependents_of(o, i).contains(x)
                        implies dependents_of(n, i).contains(x) by {
                        let k = choose|k: int| 0 <= k < dependents_of(o, i).len() && dependents_of(o, i)[k] == x;
                        assert(dependents_of(n, i)[k] == x);
                    }
                    assert(deps_of(n, from as int).contains(to)) by {
                        if !deps_of(o, from as int).contains(to) {
                            assert(deps_of(n, from as int)[deps_of(n, from as int).len() - 1] == to);
                        }
                    }
                    assert(dependents_of(n, to as int).contains(from)) by {
                        if !dependents_of(o, to as int).contains(from) {
                            assert(dependents_of(n, to as int)[dependents_of(n, to as int).len() - 1] == from);
                        }
                    }
                    assert forall|i: int, k: int|
                        0 <= i < n.len() && 0 <= k < deps_of(n, i).len() implies {
                            let d = #[trigger] deps_of(n, i)[k];
                            &&& d < n.len()
                            &&& dependents_of(n, d as int).contains(i as NodeId)
                        } by {
                        let d = deps_of(n, i)[k];
                        if k < deps_of(o, i).len() {
                            assert(deps_of(o, i)[k] == d);
                            assert(dependents_of(o, d as int).contains(i as NodeId));
                        } else {
                            assert(i == from && d == to);
                            assert(dependents_of(n, to as int).contains(from));
                        }
                    }
                    assert forall|i: int, k: int|
                        0 <= i < n.len() && 0 <= k < dependents_of(n, i).len() implies {
                            let d = #[trigger] dependents_of(n, i)[k];
                            &&& d < n.len()
                            &&& deps_of(n, d as int).contains(i as NodeId)
                        } by {
                        let d = dependents_of(n, i)[k];
                        if k < dependents_of(o, i).len() {
                            assert(dependents_of(o, i)[k] == d);
                            assert(deps_of(o, d as int).contains(i as NodeId));
                        } else {
                            assert(i == to && d == from);
                            assert(deps_of(n, from as int).contains(to));
                        }
                    }
                    assert forall|i: int| 0 <= i < n.len() implies #[trigger] deps_of(n, i) == (if i == from {
                        push_if_absent(deps_of(o, i), to)
                    } else {
                        deps_of(o, i)
                    }) && dependents_of(n, i) == (if i == to {
                        push_if_absent(dependents_of(o, i), from)
                    } else {
                        dependents_of(o, i)
                    }) by {}
                    lemma_add_edge_no_dups(o, n, from, to);
                    assert forall|i: int| 0 <= i < n.len() implies (#[trigger] n[i]).id == i by {
                        assert(o[i].id == i);
                    }
                    assert(wf_ids(n));
                    assert(wf_deps(n));
                    assert(wf_dependents(n));
                    assert(wf_no_dups(n));
                }
            }
        }
    }

    /// Whether the graph is well formed: node ids are positions, every
    /// edge points inside the graph and is recorded on both of its ends,
    /// and no edge list repeats an id. Graphs built through this type's
    /// methods always are.
    pub fn is_well_formed(&self) -> (b: bool)
        ensures
            b == self.wf(),
    {
        let n = self.nodes.len();
        if n > 0xFFFF_FFFFusize {
            return false;
        }
        let mut i: usize = 0;
        while i < n
            invariant
                i <= n == self.nodes@.len() <= u32::MAX,
                forall|j: int| 0 <= j < i ==> #[trigger] node_wf(self.nodes@, j),
            decreases n - i,
        {
            let node = &self.nodes[i];
            if node.id as usize != i {
                return false;
            }
            let id = i as NodeId;
            if !edges_recorded(&self.nodes, id, &node.dependencies, true) {
                proof {
                    if wf_deps(self.nodes@) {
                        assert forall|k: int| 0 <= k < node.dependencies@.len() implies {
                            let d = #[trigger] node.dependencies@[k];
                            &&& d < self.nodes@.len()
                            &&& dependents_of(self.nodes@, d as int).contains(id)
                        } by {
                            assert(deps_of(self.nodes@, i as int)[k] == node.dependencies@[k]);
                        }
                    }
                }
                return false;
            }
            if !edges_recorded(&self.nodes, id, &node.dependents, false) {
                proof {
                    if wf_dependents(self.nodes@) {
                        assert forall|k: int| 0 <= k < node.dependents@.len() implies {
                            let d = #[trigger] node.dependents@[k];
                            &&& d < self.nodes@.len()
                            &&& deps_of(self.nodes@, d as int).contains(id)
                        } by {
                            assert(dependents_of(self.nodes@, i as int)[k] == node.dependents@[k]);
                        }
                    }
                }
                return false;
            }
            if !vec_no_duplicates(&node.dependencies) || !vec_no_duplicates(&node.dependents) {
                return false;
            }
            assert(node_wf(self.nodes@, i as int));
            i = i + 1;
        }
        proof {
            let ns = self.nodes@;
            assert forall|j: int| 0 <= j < ns.len() implies (#[trigger] ns[j]).id == j by {
                assert(node_wf(ns, j));
            }
            assert forall|j: int, k: int| 0 <= j < ns.len() && 0 <= k < deps_of(ns, j).len() implies {
                let d = #[trigger] deps_of(ns, j)[k];
                &&& d < ns.len()
                &&& dependents_of(ns, d as int).contains(j as NodeId)
            } by {
                assert(node_wf(ns, j));
            }
            assert forall|j: int, k: int| 0 <= j < ns.len() && 0 <= k < dependents_of(ns, j).len() implies {
                let d = #[trigger] dependents_of(ns, j)[k];
                &&& d < ns.len()
                &&& deps_of(ns, d as int).contains(j as NodeId)
            } by {
                assert(node_wf(ns, j));
            }
            assert forall|j: int| 0 <= j < ns.len() implies (#[trigger] deps_of(ns, j)).no_duplicates()
                && dependents_of(ns, j).no_duplicates() by {
                assert(node_wf(ns, j));
            }
        }
        true
    }

    /// Look up an ID node by name.
    pub fn find_id(&self, name: &str) -> (r: Option<NodeId>)
        ensures
            r == entry_lookup(id_lookup_entries(self.id_lookup), name@),
    {
        id_lookup_get(&self.id_lookup, name)
    }

    /// Number of nodes in the graph.
    pub fn node_count(&self) -> (n: usize)
        ensures
            n == self.nodes@.len(),
    {
        self.nodes.len()
    }

    /// Reset all nodes to unevaluated state.
    pub fn reset_evaluated(&mut self)
        ensures
            final(self).nodes@.len() == old(self).nodes@.len(),
            forall|i: int|
                0 <= i < final(self).nodes@.len() ==> {
                    let a = #[trigger] final(self).nodes@[i];
                    let b = old(self).nodes@[i];
                    &&& same_shape(a, b)
                    &&& a.dirty_tags == b.dirty_tags
                    &&& a.depth == b.depth
                    &&& !a.evaluated
                },
            final(self).id_lookup == old(self).id_lookup,
            final(self).current_frame == old(self).current_frame,
            final(self).needs_rebuild == old(self).needs_rebuild,
            final(self).eval_order == old(self).eval_order,
    {
        let n = self.nodes.len();
        let mut i: usize = 0;
        while i < n
            invariant
                i <= n == self.nodes@.len() == old(self).nodes@.len(),
                forall|j: int|
                    0 <= j < n ==> {
                        let a = #[trigger] self.nodes@[j];
                        let b = old(self).nodes@[j];
                        &&& same_shape(a, b)
                        &&& a.dirty_tags == b.dirty_tags
                        &&& a.depth == b.depth
                        &&& (j < i ==> !a.evaluated)
                    },
                self.id_lookup == old(self).id_lookup,
                self.current_frame == old(self).current_frame,
                self.needs_rebuild == old(self).needs_rebuild,
                self.eval_order == old(self).eval_order,
            decreases n - i,
        {
            self.nodes[i].evaluated = false;
            i = i + 1;
        }
    }
}

impl Default for Depsgraph {
    fn default() -> (g: Depsgraph)
        ensures
            g.nodes@.len() == 0,
            id_lookup_entries(g.id_lookup).len() == 0,
            g.current_frame == 0,
            g.needs_rebuild,
            g.eval_order@.len() == 0,
    {
        Depsgraph::new()
    }
}

} // verus!
