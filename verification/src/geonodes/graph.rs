//! Node graph: the directed acyclic graph of nodes and links.

use ahash::AHashMap;
use vstd::prelude::*;

use super::nodes::Node;
use super::sockets::{socket_type_text, SocketType};
use vstd::string::*;
use super::{GeoNodeError, GeoNodeResult};

verus! {

/// Unique node identifier within a graph.
pub type NodeId = u64;

/// Whether an output socket of type `from` may feed an input of type `to`:
/// equal types, numeric types (Float, Int, Bool) among themselves, Vector
/// and Color both ways, and Float broadcast to Vector or Color.
pub open spec fn compatible(from: SocketType, to: SocketType) -> bool {
    ||| from == to
    ||| ((from is Float || from is Int || from is Bool) && (to is Float || to is Int || to is Bool))
    ||| (from is Vector && to is Color)
    ||| (from is Color && to is Vector)
    ||| (from is Float && (to is Vector || to is Color))
}

/// A numeric socket type: Float, Int or Bool.
pub open spec fn is_numeric(t: SocketType) -> bool {
    t == SocketType::Float || t == SocketType::Int || t == SocketType::Bool
}

/// A socket type of several components: Vector or Color.
pub open spec fn is_spatial(t: SocketType) -> bool {
    t == SocketType::Vector || t == SocketType::Color
}

/// Which links are accepted: every type feeds itself, numeric types feed
/// each other, Vector and Color feed each other both ways, and Float feeds
/// Vector and Color.
pub proof fn lemma_compatible_accepts(from: SocketType, to: SocketType)
    ensures
        from == to ==> compatible(from, to),
        is_numeric(from) && is_numeric(to) ==> compatible(from, to) && compatible(to, from),
        is_spatial(from) && is_spatial(to) ==> compatible(from, to) && compatible(to, from),
        from == SocketType::Float && is_spatial(to) ==> compatible(from, to),
{
}

/// Nothing else is accepted: a link between two different types joins two
/// numeric types, two spatial types, or Float to a spatial type; so the
/// relation is symmetric but for that broadcast, and Geometry and the
/// reference types link only to themselves.
pub proof fn lemma_compatible_rejects(from: SocketType, to: SocketType)
    ensures
        compatible(from, to) && from != to ==> (is_numeric(from) && is_numeric(to)) || (is_spatial(from)
            && is_spatial(to)) || (from == SocketType::Float && is_spatial(to)),
        compatible(from, to) && !compatible(to, from) ==> from == SocketType::Float && is_spatial(to),
{
}

/// Whether an output socket type is compatible with an input socket type.
///
/// Geometry sockets only accept Geometry. Numeric types (Float, Int, Bool)
/// are implicitly convertible to each other. Vector and Color are
/// interchangeable, and Float broadcasts to both. All other combinations are
/// rejected.
pub fn sockets_compatible(from: SocketType, to: SocketType) -> (b: bool)
    ensures
        b == compatible(from, to),
{
    if from == to {
        return true;
    }
    match (from, to) {
        // Implicit numeric conversions.
        (
            SocketType::Float | SocketType::Int | SocketType::Bool,
            SocketType::Float | SocketType::Int | SocketType::Bool,
        ) => true,
        // Vector <-> Color (alpha filled / dropped).
        (SocketType::Vector, SocketType::Color) | (SocketType::Color, SocketType::Vector) => true,
        // Float can broadcast to Vector.
        (SocketType::Float, SocketType::Vector) | (SocketType::Float, SocketType::Color) => true,
        _ => false,
    }
}

/// A directed link between an output socket and an input socket.
#[derive(Debug, Clone, Copy, PartialEq, Eq, Hash, Structural)]
pub struct Link {
    /// Source node.
    pub from_node: NodeId,
    /// Index of the output socket on the source node.
    pub from_socket: usize,
    /// Destination node.
    pub to_node: NodeId,
    /// Index of the input socket on the destination node.
    pub to_socket: usize,
}

// ---------------------------------------------------------------------------
// The node table.
// ---------------------------------------------------------------------------

/// The nodes held by the table, by id.
pub uninterp spec fn node_table(m: AHashMap<NodeId, Node>) -> Map<NodeId, Node>;

/// The table without nodes.
pub open spec fn no_nodes() -> Map<NodeId, Node> {
    Map::empty()
}

/// `AHashMap::new`: an empty table.
#[verifier::external_body]
fn nodes_new() -> (m: AHashMap<NodeId, Node>)
    ensures
        node_table(m) == no_nodes(),
{
    AHashMap::new()
}

/// `AHashMap::insert`: the key now maps to the value.
#[verifier::external_body]
fn nodes_insert(m: &mut AHashMap<NodeId, Node>, key: NodeId, value: Node)
    ensures
        node_table(*final(m)) == node_table(*old(m)).insert(key, value),
{
    m.insert(key, value);
}

/// `AHashMap::remove`: the entry is removed and its value handed back.
#[verifier::external_body]
fn nodes_remove(m: &mut AHashMap<NodeId, Node>, key: NodeId) -> (r: Option<Node>)
    ensures
        node_table(*final(m)) == node_table(*old(m)).remove(key),
        r == if node_table(*old(m)).contains_key(key) {
            Some(node_table(*old(m))[key])
        } else {
            None::<Node>
        },
{
    m.remove(&key)
}

/// `AHashMap::get`: the value stored under the key.
#[verifier::external_body]
fn nodes_get(m: &AHashMap<NodeId, Node>, key: NodeId) -> (r: Option<&Node>)
    ensures
        match r {
            Some(n) => node_table(*m).contains_key(key) && node_table(*m)[key] == *n,
            None => !node_table(*m).contains_key(key),
        },
{
    m.get(&key)
}

/// `HashMap::get_mut`: a mutable reference to the value stored under the
/// key; what is written through it becomes that key's value.
#[verifier::external_body]
fn nodes_get_mut(m: &mut AHashMap<NodeId, Node>, key: NodeId) -> (r: Option<&mut Node>)
    ensures
        match r {
            Some(n) => {
                &&& node_table(*old(m)).contains_key(key)
                &&& node_table(*old(m))[key] == *n
                &&& node_table(*final(m)) == node_table(*old(m)).insert(key, *final(n))
            },
            None => !node_table(*old(m)).contains_key(key) && *final(m) == *old(m),
        },
{
    m.get_mut(&key)
}

/// `HashMap::len`: the number of entries.
#[verifier::external_body]
fn nodes_len(m: &AHashMap<NodeId, Node>) -> (n: usize)
    ensures
        n == node_table(*m).len(),
{
    m.len()
}

/// `HashMap::keys`, copied: every key once, in the order in which the table
/// is walked, which is left open.
#[verifier::external_body]
fn nodes_keys(m: &AHashMap<NodeId, Node>) -> (r: Vec<NodeId>)
    ensures
        r@.no_duplicates(),
        r@.to_set() == node_table(*m).dom(),
{
    m.keys().copied().collect()
}

// ---------------------------------------------------------------------------
// The graph.
// ---------------------------------------------------------------------------

/// Links that touch neither end at `id`.
pub open spec fn avoids(id: NodeId) -> spec_fn(Link) -> bool {
    |l: Link| l.from_node != id && l.to_node != id
}

/// Links other than `link`.
pub open spec fn differs(link: Link) -> spec_fn(Link) -> bool {
    |l: Link| l != link
}

/// Links into `id`.
pub open spec fn into_node(id: NodeId) -> spec_fn(Link) -> bool {
    |l: Link| l.to_node == id
}

/// Links out of `id`.
pub open spec fn out_of_node(id: NodeId) -> spec_fn(Link) -> bool {
    |l: Link| l.from_node == id
}

/// The geometry node graph.
#[derive(Debug)]
pub struct NodeGraph {
    /// All nodes keyed by their ID.
    nodes: AHashMap<NodeId, Node>,
    /// All links.
    links: Vec<Link>,
    /// Next auto-increment ID.
    next_id: NodeId,
    /// The group input node (entry point).
    pub group_input: Option<NodeId>,
    /// The group output nodes (exit points); the evaluator collects results
    /// from all of them.
    pub group_outputs: Vec<NodeId>,
}

/// The ids of a list of (id, node) entries.
pub open spec fn entry_ids<'a>(r: Seq<(NodeId, &'a Node)>) -> Seq<NodeId> {
    r.map_values(|e: (NodeId, &'a Node)| e.0)
}

impl NodeGraph {
    /// The nodes, by id.
    pub closed spec fn node_map(&self) -> Map<NodeId, Node> {
        node_table(self.nodes)
    }

    /// The links, in insertion order.
    pub closed spec fn link_seq(&self) -> Seq<Link> {
        self.links@
    }

    /// The id the next added node gets.
    pub closed spec fn next(&self) -> NodeId {
        self.next_id
    }

    /// The group input node.
    pub closed spec fn input_node(&self) -> Option<NodeId> {
        self.group_input
    }

    /// The group output nodes.
    pub closed spec fn output_nodes(&self) -> Seq<NodeId> {
        self.group_outputs@
    }

    /// The table holds finitely many nodes.
    pub closed spec fn wf(&self) -> bool {
        node_table(self.nodes).dom().finite()
    }

    /// An empty node graph; the first node gets id 1.
    pub fn new() -> (g: NodeGraph)
        ensures
            g.wf(),
            g.node_map() == no_nodes(),
            g.link_seq() == Seq::<Link>::empty(),
            g.next() == 1,
            g.input_node() is None,
            g.output_nodes() == Seq::<NodeId>::empty(),
    {
        NodeGraph {
            nodes: nodes_new(),
            links: Vec::new(),
            next_id: 1,
            group_input: None,
            group_outputs: Vec::new(),
        }
    }

    /// Adds a node under the next id, which it returns.
    pub fn add_node(&mut self, node: Node) -> (id: NodeId)
        requires
            old(self).next() < u64::MAX,
        ensures
            id == old(self).next(),
            final(self).next() == id + 1,
            final(self).node_map() == old(self).node_map().insert(id, Node { id, ..node }),
            final(self).link_seq() == old(self).link_seq(),
            final(self).input_node() == old(self).input_node(),
            final(self).output_nodes() == old(self).output_nodes(),
            old(self).wf() ==> final(self).wf(),
    {
        let id = self.next_id;
        self.next_id = self.next_id + 1;
        let mut node = node;
        node.id = id;
        nodes_insert(&mut self.nodes, id, node);
        id
    }

    /// Removes a node and all its links, returning the node.
    pub fn remove_node(&mut self, id: NodeId) -> (r: Option<Node>)
        ensures
            final(self).node_map() == old(self).node_map().remove(id),
            r == if old(self).node_map().contains_key(id) {
                Some(old(self).node_map()[id])
            } else {
                None::<Node>
            },
            final(self).link_seq() == old(self).link_seq().filter(avoids(id)),
            final(self).next() == old(self).next(),
            final(self).input_node() == old(self).input_node(),
            final(self).output_nodes() == old(self).output_nodes(),
            old(self).wf() ==> final(self).wf(),
    {
        let mut kept: Vec<Link> = Vec::new();
        let mut i: usize = 0;
        while i < self.links.len()
            invariant
                i <= self.links@.len(),
                self.links@ == old(self).links@,
                kept@ == self.links@.take(i as int).filter(avoids(id)),
            decreases self.links@.len() - i,
        {
            let l = self.links[i];
            assert(self.links@.take(i + 1).drop_last() =~= self.links@.take(i as int));
            proof {
                reveal(Seq::filter);
            }
            if l.from_node != id && l.to_node != id {
                kept.push(l);
            }
            i = i + 1;
        }
        assert(self.links@.take(self.links@.len() as int) =~= self.links@);
        self.links = kept;
        nodes_remove(&mut self.nodes, id)
    }

    /// The node with the given id.
    pub fn get_node(&self, id: NodeId) -> (r: Option<&Node>)
        ensures
            match r {
                Some(n) => self.node_map().contains_key(id) && self.node_map()[id] == *n,
                None => !self.node_map().contains_key(id),
            },
    {
        nodes_get(&self.nodes, id)
    }

    /// A mutable reference to the node with the given id; what is written
    /// through it becomes that node.
    pub fn get_node_mut(&mut self, id: NodeId) -> (r: Option<&mut Node>)
        ensures
            match r {
                Some(n) => {
                    &&& old(self).node_map().contains_key(id)
                    &&& old(self).node_map()[id] == *n
                    &&& final(self).node_map() == old(self).node_map().insert(id, *final(n))
                },
                None => !old(self).node_map().contains_key(id) && final(self).node_map() == old(self).node_map(),
            },
            final(self).link_seq() == old(self).link_seq(),
            final(self).next() == old(self).next(),
            final(self).input_node() == old(self).input_node(),
            final(self).output_nodes() == old(self).output_nodes(),
            old(self).wf() ==> r is Some ==> final(self).wf(),
            old(self).wf() ==> r is None ==> final(self).wf(),
    {
        nodes_get_mut(&mut self.nodes, id)
    }

    /// Removes every link equal to `link`.
    pub fn remove_link(&mut self, link: &Link)
        ensures
            final(self).link_seq() == old(self).link_seq().filter(differs(*link)),
            final(self).node_map() == old(self).node_map(),
            final(self).next() == old(self).next(),
            final(self).input_node() == old(self).input_node(),
            final(self).output_nodes() == old(self).output_nodes(),
            old(self).wf() ==> final(self).wf(),
    {
        let mut kept: Vec<Link> = Vec::new();
        let mut i: usize = 0;
        while i < self.links.len()
            invariant
                i <= self.links@.len(),
                self.links@ == old(self).links@,
                kept@ == self.links@.take(i as int).filter(differs(*link)),
            decreases self.links@.len() - i,
        {
            let l = self.links[i];
            assert(self.links@.take(i + 1).drop_last() =~= self.links@.take(i as int));
            proof {
                reveal(Seq::filter);
            }
            if l != *link {
                kept.push(l);
            }
            i = i + 1;
        }
        assert(self.links@.take(self.links@.len() as int) =~= self.links@);
        self.links = kept;
    }

    /// The links into the node, in order.
    pub fn input_links(&self, node_id: NodeId) -> (r: Vec<Link>)
        ensures
            r@ == self.link_seq().filter(into_node(node_id)),
    {
        let mut r: Vec<Link> = Vec::new();
        let mut i: usize = 0;
        while i < self.links.len()
            invariant
                i <= self.links@.len(),
                r@ == self.links@.take(i as int).filter(into_node(node_id)),
            decreases self.links@.len() - i,
        {
            let l = self.links[i];
            assert(self.links@.take(i + 1).drop_last() =~= self.links@.take(i as int));
            proof {
                reveal(Seq::filter);
            }
            if l.to_node == node_id {
                r.push(l);
            }
            i = i + 1;
        }
        assert(self.links@.take(self.links@.len() as int) =~= self.links@);
        r
    }

    /// The links out of the node, in order.
    pub fn output_links(&self, node_id: NodeId) -> (r: Vec<Link>)
        ensures
            r@ == self.link_seq().filter(out_of_node(node_id)),
    {
        let mut r: Vec<Link> = Vec::new();
        let mut i: usize = 0;
        while i < self.links.len()
            invariant
                i <= self.links@.len(),
                r@ == self.links@.take(i as int).filter(out_of_node(node_id)),
            decreases self.links@.len() - i,
        {
            let l = self.links[i];
            assert(self.links@.take(i + 1).drop_last() =~= self.links@.take(i as int));
            proof {
                reveal(Seq::filter);
            }
            if l.from_node == node_id {
                r.push(l);
            }
            i = i + 1;
        }
        assert(self.links@.take(self.links@.len() as int) =~= self.links@);
        r
    }

    /// The ids of all nodes, each once, in no particular order.
    pub fn node_ids(&self) -> (r: Vec<NodeId>)
        ensures
            r@.no_duplicates(),
            r@.to_set() == self.node_map().dom(),
    {
        nodes_keys(&self.nodes)
    }

    /// All nodes with their ids, each once, in no particular order.
    pub fn nodes(&self) -> (r: Vec<(NodeId, &Node)>)
        ensures
            entry_ids(r@).no_duplicates(),
            entry_ids(r@).to_set() == self.node_map().dom(),
            forall|k: int| 0 <= k < r@.len() ==> *(#[trigger] r@[k]).1 == self.node_map()[r@[k].0],
    {
        let ids = self.node_ids();
        let mut r: Vec<(NodeId, &Node)> = Vec::new();
        let mut i: usize = 0;
        while i < ids.len()
            invariant
                i <= ids@.len(),
                ids@.no_duplicates(),
                ids@.to_set() == self.node_map().dom(),
                entry_ids(r@) == ids@.take(i as int),
                forall|k: int| 0 <= k < r@.len() ==> *(#[trigger] r@[k]).1 == self.node_map()[r@[k].0],
            decreases ids@.len() - i,
        {
            let id = ids[i];
            assert(ids@.to_set().contains(id));
            match self.get_node(id) {
                Some(n) => {
                    let ghost before = r@;
                    assert(entry_ids(before).len() == before.len());
                    assert(before.len() == i);
                    r.push((id, n));
                    assert(r@ == before.push((id, n)));
                    assert forall|k: int| 0 <= k < i + 1 implies #[trigger] entry_ids(r@)[k]
                        == ids@.take(i + 1)[k] by {
                        if k < i {
                            assert(entry_ids(before)[k] == ids@.take(i as int)[k]);
                            assert(r@[k] == before[k]);
                        }
                    }
                    assert(entry_ids(r@) =~= ids@.take(i + 1));
                },
                None => {
                    assert(false);
                },
            }
            i = i + 1;
        }
        assert(ids@.take(ids@.len() as int) =~= ids@);
        r
    }

    /// The group output nodes.
    pub fn group_output_ids(&self) -> (r: &Vec<NodeId>)
        ensures
            r@ == self.output_nodes(),
    {
        &self.group_outputs
    }

    /// All links.
    pub fn links(&self) -> (r: &[Link])
        ensures
            r@ == self.link_seq(),
    {
        self.links.as_slice()
    }

    /// The number of nodes.
    pub fn node_count(&self) -> (n: usize)
        ensures
            n == self.node_map().len(),
    {
        nodes_len(&self.nodes)
    }
}

impl Default for NodeGraph {
    fn default() -> (g: NodeGraph)
        ensures
            g.wf(),
            g.node_map() == no_nodes(),
            g.link_seq() == Seq::<Link>::empty(),
            g.next() == 1,
    {
        NodeGraph::new()
    }
}

// ---------------------------------------------------------------------------
// Topological order.
// ---------------------------------------------------------------------------

/// The in-degree counts, by node id.
pub uninterp spec fn degree_table(m: AHashMap<NodeId, usize>) -> Map<NodeId, usize>;

/// The table without counts.
pub open spec fn no_degrees() -> Map<NodeId, usize> {
    Map::empty()
}

/// `AHashMap::new`: an empty table.
#[verifier::external_body]
fn degrees_new() -> (m: AHashMap<NodeId, usize>)
    ensures
        degree_table(m) == no_degrees(),
{
    AHashMap::new()
}

/// `AHashMap::insert`: the key now maps to the value.
#[verifier::external_body]
fn degrees_insert(m: &mut AHashMap<NodeId, usize>, key: NodeId, value: usize)
    ensures
        degree_table(*final(m)) == degree_table(*old(m)).insert(key, value),
{
    m.insert(key, value);
}

/// `AHashMap::get`: the value stored under the key, copied.
#[verifier::external_body]
fn degrees_get(m: &AHashMap<NodeId, usize>, key: NodeId) -> (r: Option<usize>)
    ensures
        r == if degree_table(*m).contains_key(key) {
            Some(degree_table(*m)[key])
        } else {
            None::<usize>
        },
{
    m.get(&key).copied()
}

/// The ids that take part in the ordering: the nodes, and the targets of
/// links (a link may name a node that is not in the graph).
pub open spec fn vertices(nodes: Set<NodeId>, links: Seq<Link>) -> Set<NodeId> {
    nodes + Set::new(|v: NodeId| exists|i: int| 0 <= i < links.len() && #[trigger] links[i].to_node == v)
}

/// `v` can come next after `done`: it takes part, is not done yet, and
/// every link into it comes from a done node.
pub open spec fn ready(vs: Set<NodeId>, links: Seq<Link>, done: Set<NodeId>, v: NodeId) -> bool {
    &&& vs.contains(v)
    &&& !done.contains(v)
    &&& forall|i: int| 0 <= i < links.len() && #[trigger] links[i].to_node == v ==> done.contains(links[i].from_node)
}

/// Each id of `order` is the smallest that can come next after the ones
/// before it.
pub open spec fn smallest_first(vs: Set<NodeId>, links: Seq<Link>, order: Seq<NodeId>) -> bool {
    forall|i: int|
        0 <= i < order.len() ==> {
            &&& ready(vs, links, order.take(i).to_set(), #[trigger] order[i])
            &&& forall|v: NodeId| ready(vs, links, order.take(i).to_set(), v) ==> order[i] <= v
        }
}

/// No id can come next after `order`.
pub open spec fn stuck(vs: Set<NodeId>, links: Seq<Link>, order: Seq<NodeId>) -> bool {
    forall|v: NodeId| !ready(vs, links, order.to_set(), v)
}

/// The number of links into `v` whose source is not in `done` (not
/// counting those out of `id` before position `j`).
pub open spec fn pending(links: Seq<Link>, v: NodeId, done: Set<NodeId>, id: NodeId, j: int) -> nat
    decreases links.len(),
{
    if links.len() == 0 {
        0
    } else {
        let k = links.len() - 1;
        let l = links[k];
        pending(links.drop_last(), v, done, id, j) + if l.to_node == v && !done.contains(l.from_node) && !(
        l.from_node == id && k < j) {
            1nat
        } else {
            0nat
        }
    }
}

proof fn lemma_pending_bound(links: Seq<Link>, v: NodeId, done: Set<NodeId>, id: NodeId, j: int)
    ensures
        pending(links, v, done, id, j) <= links.len(),
    decreases links.len(),
{
    if links.len() > 0 {
        lemma_pending_bound(links.drop_last(), v, done, id, j);
    }
}

/// No pending link into `v` exactly when every link into `v` comes from a
/// done node.
proof fn lemma_pending_zero(links: Seq<Link>, v: NodeId, done: Set<NodeId>, id: NodeId)
    ensures
        (pending(links, v, done, id, 0) == 0) <==> (forall|i: int|
            0 <= i < links.len() && #[trigger] links[i].to_node == v ==> done.contains(links[i].from_node)),
    decreases links.len(),
{
    if links.len() > 0 {
        let dl = links.drop_last();
        let k = links.len() - 1;
        lemma_pending_zero(dl, v, done, id);
        if pending(links, v, done, id, 0) == 0 {
            assert forall|i: int| 0 <= i < links.len() && #[trigger] links[i].to_node == v implies done.contains(
                links[i].from_node,
            ) by {
                if i < k {
                    assert(dl[i] == links[i]);
                    assert(dl[i].to_node == v);
                }
            }
        }
        if forall|i: int| 0 <= i < links.len() && #[trigger] links[i].to_node == v ==> done.contains(links[i].from_node) {
            assert forall|i: int| 0 <= i < dl.len() && #[trigger] dl[i].to_node == v implies done.contains(
                dl[i].from_node,
            ) by {
                assert(dl[i] == links[i]);
                assert(links[i].to_node == v);
            }
            assert(links[k].to_node == v ==> done.contains(links[k].from_node));
        }
    }
}

/// Skipping one more link out of `id`.
proof fn lemma_pending_step(links: Seq<Link>, v: NodeId, done: Set<NodeId>, id: NodeId, j: int)
    requires
        0 <= j < links.len(),
    ensures
        pending(links, v, done, id, j + 1) == pending(links, v, done, id, j) - if links[j].to_node == v
            && !done.contains(id) && links[j].from_node == id {
            1int
        } else {
            0int
        },
    decreases links.len(),
{
    if links.len() > 0 {
        if j < links.len() - 1 {
            lemma_pending_step(links.drop_last(), v, done, id, j);
            assert(links.drop_last()[j] == links[j]);
        } else {
            assert(pending(links.drop_last(), v, done, id, j + 1) == pending(links.drop_last(), v, done, id, j)) by {
                lemma_pending_prefix(links.drop_last(), v, done, id, j, j + 1);
            }
        }
    }
}

/// Positions past the end of the list make no difference.
proof fn lemma_pending_prefix(links: Seq<Link>, v: NodeId, done: Set<NodeId>, id: NodeId, j1: int, j2: int)
    requires
        links.len() <= j1 <= j2,
    ensures
        pending(links, v, done, id, j1) == pending(links, v, done, id, j2),
    decreases links.len(),
{
    if links.len() > 0 {
        lemma_pending_prefix(links.drop_last(), v, done, id, j1, j2);
    }
}

/// Skipping every link out of `id` is the same as counting `id` as done.
proof fn lemma_pending_done(links: Seq<Link>, v: NodeId, done: Set<NodeId>, id: NodeId, other: NodeId)
    ensures
        pending(links, v, done, id, links.len() as int) == pending(links, v, done.insert(id), other, 0),
    decreases links.len(),
{
    if links.len() > 0 {
        lemma_pending_done(links.drop_last(), v, done, id, other);
        lemma_pending_prefix(links.drop_last(), v, done, id, links.len() - 1, links.len() as int);
    }
}

/// Counting links into `v` over a longer prefix of the list.
proof fn lemma_pending_push(links: Seq<Link>, k: int, v: NodeId, done: Set<NodeId>, id: NodeId)
    requires
        0 <= k < links.len(),
    ensures
        pending(links.take(k + 1), v, done, id, 0) == pending(links.take(k), v, done, id, 0) + if links[k].to_node == v
            && !done.contains(links[k].from_node) {
            1nat
        } else {
            0nat
        },
{
    assert(links.take(k + 1).drop_last() =~= links.take(k));
    assert(links.take(k + 1).last() == links[k]);
}

/// The skipped source makes no difference before the first position.
proof fn lemma_pending_any_id(links: Seq<Link>, v: NodeId, done: Set<NodeId>, a: NodeId, b: NodeId)
    ensures
        pending(links, v, done, a, 0) == pending(links, v, done, b, 0),
    decreases links.len(),
{
    if links.len() > 0 {
        lemma_pending_any_id(links.drop_last(), v, done, a, b);
    }
}

/// The smallest id held by a non-empty list, and its position.
fn min_position(v: &Vec<NodeId>) -> (r: usize)
    requires
        v@.len() > 0,
    ensures
        r < v@.len(),
        forall|k: int| 0 <= k < v@.len() ==> v@[r as int] <= #[trigger] v@[k],
{
    let mut best: usize = 0;
    let mut i: usize = 1;
    while i < v.len()
        invariant
            1 <= i <= v@.len(),
            best < i,
            forall|k: int| 0 <= k < i ==> v@[best as int] <= #[trigger] v@[k],
        decreases v@.len() - i,
    {
        if v[i] < v[best] {
            best = i;
        }
        i = i + 1;
    }
    best
}

/// Appending `x` adds exactly `x`.
proof fn lemma_push_contains(s: Seq<NodeId>, x: NodeId)
    ensures
        forall|v: NodeId| #[trigger] s.push(x).contains(v) <==> (s.contains(v) || v == x),
        s.push(x).to_set() == s.to_set().insert(x),
{
    assert forall|v: NodeId| #[trigger] s.push(x).contains(v) <==> (s.contains(v) || v == x) by {
        if s.push(x).contains(v) {
            let i = choose|i: int| 0 <= i < s.push(x).len() && s.push(x)[i] == v;
            if i < s.len() {
                assert(s[i] == v);
            }
        }
        if s.contains(v) {
            let i = choose|i: int| 0 <= i < s.len() && s[i] == v;
            assert(s.push(x)[i] == v);
        }
        if v == x {
            assert(s.push(x)[s.len() as int] == x);
        }
    }
    assert(s.push(x).to_set() =~= s.to_set().insert(x));
}

/// Appending a new element keeps a list free of repeats.
proof fn lemma_push_no_dup(s: Seq<NodeId>, x: NodeId)
    requires
        s.no_duplicates(),
        !s.contains(x),
    ensures
        s.push(x).no_duplicates(),
{
    assert forall|i: int, j: int| 0 <= i < s.push(x).len() && 0 <= j < s.push(x).len() && i != j implies s.push(x)[i]
        != s.push(x)[j] by {
        if i == s.len() {
            assert(s[j] == s.push(x)[j]);
        } else if j == s.len() {
            assert(s[i] == s.push(x)[i]);
        }
    }
}

/// Removing position `m` of a list without repeats removes exactly its
/// element.
proof fn lemma_remove_contains(s: Seq<NodeId>, m: int)
    requires
        0 <= m < s.len(),
        s.no_duplicates(),
    ensures
        forall|v: NodeId| #[trigger] s.remove(m).contains(v) <==> (s.contains(v) && v != s[m]),
        s.remove(m).no_duplicates(),
{
    let r = s.remove(m);
    assert forall|v: NodeId| #[trigger] r.contains(v) <==> (s.contains(v) && v != s[m]) by {
        if r.contains(v) {
            let i = choose|i: int| 0 <= i < r.len() && r[i] == v;
            if i < m {
                assert(s[i] == v);
            } else {
                assert(s[i + 1] == v);
            }
        }
        if s.contains(v) && v != s[m] {
            let i = choose|i: int| 0 <= i < s.len() && s[i] == v;
            if i < m {
                assert(r[i] == v);
            } else {
                assert(i != m);
                assert(r[i - 1] == v);
            }
        }
    }
    assert forall|i: int, j: int| 0 <= i < r.len() && 0 <= j < r.len() && i != j implies r[i] != r[j] by {
        let si = if i < m { i } else { i + 1 };
        let sj = if j < m { j } else { j + 1 };
        assert(r[i] == s[si] && r[j] == s[sj]);
    }
}

impl NodeGraph {
    /// A topological ordering of the node ids, for evaluation (Kahn's
    /// algorithm). Ids take part if they are nodes or the targets of links;
    /// among the ids that are ready (all links into them come from ids
    /// already placed) the smallest goes first, which makes the order
    /// deterministic. The order ends when no id is ready; it is returned
    /// when it is as long as the graph has nodes, and is a
    /// `CycleDetected` error otherwise.
    pub fn topological_order(&self) -> (r: GeoNodeResult<Vec<NodeId>>)
        requires
            self.wf(),
        ensures
            ({
                let vs = vertices(self.node_map().dom(), self.link_seq());
                match r {
                    Ok(order) => {
                        &&& smallest_first(vs, self.link_seq(), order@)
                        &&& stuck(vs, self.link_seq(), order@)
                        &&& order@.len() == self.node_map().len()
                    },
                    Err(e) => {
                        &&& e is CycleDetected
                        &&& exists|o: Seq<NodeId>|
                            #[trigger] smallest_first(vs, self.link_seq(), o) && stuck(vs, self.link_seq(), o) && o.len()
                                != self.node_map().len()
                    },
                }
            }),
    {
        let ghost links = self.links@;
        let ghost nodes = node_table(self.nodes).dom();
        let ghost vs = vertices(nodes, links);
        let ghost nothing = Set::<NodeId>::empty();
        let ids = nodes_keys(&self.nodes);
        let mut deg = degrees_new();
        // Every node starts with no incoming links.
        let mut i: usize = 0;
        assert(degree_table(deg).dom() =~= ids@.take(0).to_set());
        while i < ids.len()
            invariant
                i <= ids@.len(),
                ids@.to_set() == nodes,
                degree_table(deg).dom() == ids@.take(i as int).to_set(),
                forall|v: NodeId| #[trigger] degree_table(deg).contains_key(v) ==> degree_table(deg)[v] == 0,
            decreases ids@.len() - i,
        {
            degrees_insert(&mut deg, ids[i], 0);
            proof {
                assert(ids@.take(i + 1) =~= ids@.take(i as int).push(ids@[i as int]));
                lemma_push_contains(ids@.take(i as int), ids@[i as int]);
            }
            i = i + 1;
        }
        assert(ids@.take(ids@.len() as int) =~= ids@);
        // Count the links into each id.
        let mut k: usize = 0;
        assert(degree_table(deg).dom() =~= nodes + Set::new(
            |v: NodeId| exists|i: int| 0 <= i < 0 && #[trigger] links[i].to_node == v,
        ));
        while k < self.links.len()
            invariant
                k <= links.len(),
                nothing == Set::<NodeId>::empty(),
                links == self.links@,
                ids@.to_set() == nodes,
                nodes == node_table(self.nodes).dom(),
                degree_table(deg).dom() == nodes + Set::new(
                    |v: NodeId| exists|i: int| 0 <= i < k && #[trigger] links[i].to_node == v,
                ),
                forall|v: NodeId| #[trigger]
                    degree_table(deg).contains_key(v) ==> degree_table(deg)[v] == pending(links.take(k as int), v, nothing, 0, 0),
            decreases links.len() - k,
        {
            let to = self.links[k].to_node;
            let ghost before = degree_table(deg);
            let cur = match degrees_get(&deg, to) {
                Some(d) => d,
                None => 0,
            };
            proof {
                lemma_pending_bound(links.take(k as int), to, nothing, 0, 0);
                if !before.contains_key(to) {
                    lemma_pending_zero(links.take(k as int), to, nothing, 0);
                    assert forall|i: int| 0 <= i < links.take(k as int).len() implies #[trigger] links.take(k as int)[i].to_node
                        != to by {
                        assert(links.take(k as int)[i] == links[i]);
                        if links[i].to_node == to {
                            assert(before.dom().contains(to));
                        }
                    }
                }
            }
            degrees_insert(&mut deg, to, cur + 1);
            proof {
                assert forall|v: NodeId| #[trigger] degree_table(deg).contains_key(v) implies degree_table(deg)[v] == pending(
                    links.take(k + 1),
                    v,
                    nothing,
                    0,
                    0,
                ) by {
                    lemma_pending_push(links, k as int, v, nothing, 0);
                    assert(links[k as int].to_node == to);
                    assert(pending(links.take(k + 1), v, nothing, 0, 0) == pending(links.take(k as int), v, nothing, 0, 0)
                        + if links[k as int].to_node == v {
                        1nat
                    } else {
                        0nat
                    });
                    if v != to {
                        assert(before.contains_key(v));
                        assert(degree_table(deg)[v] == before[v]);
                    } else {
                        assert(degree_table(deg)[v] == cur + 1);
                        assert(cur == pending(links.take(k as int), v, nothing, 0, 0));
                    }
                }
                assert(degree_table(deg).dom() =~= nodes + Set::new(
                    |v: NodeId| exists|i: int| 0 <= i < k + 1 && #[trigger] links[i].to_node == v,
                )) by {
                    assert(links[k as int].to_node == to);
                }
            }
            k = k + 1;
        }
        assert(links.take(links.len() as int) =~= links);
        assert(degree_table(deg).dom() =~= vs);
        proof {
            let targets = Set::new(|v: NodeId| exists|i: int| 0 <= i < links.len() && #[trigger] links[i].to_node == v);
            let tseq = links.map_values(|l: Link| l.to_node);
            assert(targets =~= tseq.to_set()) by {
                assert forall|v: NodeId| targets.contains(v) implies tseq.to_set().contains(v) by {
                    let i = choose|i: int| 0 <= i < links.len() && #[trigger] links[i].to_node == v;
                    assert(tseq[i] == v);
                }
                assert forall|v: NodeId| tseq.to_set().contains(v) implies targets.contains(v) by {
                    let i = choose|i: int| 0 <= i < tseq.len() && tseq[i] == v;
                    assert(links[i].to_node == v);
                }
            }
            tseq.lemma_cardinality_of_set();
            assert(vs.finite());
        }
        // Seed with the ids that have no incoming links.
        let mut ready_ids: Vec<NodeId> = Vec::new();
        let mut q: usize = 0;
        while q < ids.len()
            invariant
                q <= ids@.len(),
                nothing == Set::<NodeId>::empty(),
                links == self.links@,
                ids@.to_set() == nodes,
                ids@.no_duplicates(),
                vs == vertices(nodes, links),
                degree_table(deg).dom() == vs,
                forall|v: NodeId| #[trigger]
                    degree_table(deg).contains_key(v) ==> degree_table(deg)[v] == pending(links, v, nothing, 0, 0),
                ready_ids@.no_duplicates(),
                forall|v: NodeId|
                    #[trigger] ready_ids@.contains(v) <==> (ids@.take(q as int).contains(v) && ready(vs, links, nothing, v)),
            decreases ids@.len() - q,
        {
            let id = ids[q];
            let ghost seen = ids@.take(q as int);
            proof {
                lemma_pending_zero(links, id, nothing, 0);
                assert(nodes.contains(id));
                assert(ids@.take(q + 1) =~= seen.push(id));
                lemma_push_contains(seen, id);
                if seen.contains(id) {
                    let x = choose|x: int| 0 <= x < seen.len() && seen[x] == id;
                    assert(ids@[x] == ids@[q as int]);
                }
            }
            assert(!seen.contains(id));
            assert(!ready_ids@.contains(id));
            let d = degrees_get(&deg, id);
            if d == Some(0usize) {
                proof {
                    lemma_push_contains(ready_ids@, id);
                    lemma_push_no_dup(ready_ids@, id);
                }
                ready_ids.push(id);
            }
            q = q + 1;
        }
        assert(ids@.take(ids@.len() as int) =~= ids@);
        proof {
            assert forall|v: NodeId| #[trigger] ready_ids@.contains(v) <==> ready(vs, links, nothing, v) by {
                if ready(vs, links, nothing, v) && !nodes.contains(v) {
                    let i = choose|i: int| 0 <= i < links.len() && #[trigger] links[i].to_node == v;
                    assert(!nothing.contains(links[i].from_node));
                }
            }
        }
        let mut order: Vec<NodeId> = Vec::new();
        assert(order@.to_set() =~= nothing);
        while ready_ids.len() > 0
            invariant
                links == self.links@,
                vs == vertices(node_table(self.nodes).dom(), links),
                vs.finite(),
                degree_table(deg).dom() == vs,
                smallest_first(vs, links, order@),
                order@.no_duplicates(),
                order@.to_set().subset_of(vs),
                forall|v: NodeId| #[trigger]
                    degree_table(deg).contains_key(v) ==> degree_table(deg)[v] == pending(links, v, order@.to_set(), 0, 0),
                ready_ids@.no_duplicates(),
                forall|v: NodeId| #[trigger] ready_ids@.contains(v) <==> ready(vs, links, order@.to_set(), v),
            decreases vs.len() - order@.len(),
        {
            let ghost done = order@.to_set();
            let ghost before = order@;
            let m = min_position(&ready_ids);
            let ghost ready_before = ready_ids@;
            let id = ready_ids.remove(m);
            proof {
                assert(ready_before[m as int] == id);
                assert(ready_before.contains(id));
                assert(ready(vs, links, done, id));
                lemma_remove_contains(ready_before, m as int);
                before.unique_seq_to_set();
                vstd::set_lib::lemma_len_subset(done.insert(id), vs);
                assert(done.insert(id).len() == done.len() + 1);
                lemma_push_contains(before, id);
            }
            order.push(id);
            proof {
                assert(order@.to_set() == done.insert(id));
                assert(order@.no_duplicates()) by {
                    assert forall|x: int, y: int| 0 <= x < order@.len() && 0 <= y < order@.len() && x != y implies order@[x]
                        != order@[y] by {
                        if y == before.len() {
                            assert(before.contains(order@[x]) || x == y);
                        }
                        if x == before.len() {
                            assert(before.contains(order@[y]) || x == y);
                        }
                    }
                }
                assert forall|i: int| 0 <= i < order@.len() implies {
                    &&& ready(vs, links, order@.take(i).to_set(), #[trigger] order@[i])
                    &&& forall|v: NodeId| ready(vs, links, order@.take(i).to_set(), v) ==> order@[i] <= v
                } by {
                    if i < before.len() {
                        assert(order@.take(i) =~= before.take(i));
                    } else {
                        assert(order@.take(i) =~= before);
                        assert forall|v: NodeId| ready(vs, links, done, v) implies id <= v by {
                            assert(ready_before.contains(v));
                            let x = choose|x: int| 0 <= x < ready_before.len() && ready_before[x] == v;
                            assert(ready_before[m as int] <= ready_before[x]);
                        }
                    }
                }
                assert forall|v: NodeId| #[trigger] degree_table(deg).contains_key(v) implies degree_table(deg)[v]
                    == pending(links, v, done, id, 0) by {
                    lemma_pending_any_id(links, v, done, 0, id);
                }
                assert forall|v: NodeId| #[trigger] ready_ids@.contains(v) <==> (vs.contains(v) && !done.insert(id).contains(
                    v,
                ) && degree_table(deg)[v] == 0) by {
                    if vs.contains(v) {
                        lemma_pending_zero(links, v, done, id);
                    }
                }
            }
            // Release the links out of `id`.
            let mut j: usize = 0;
            while j < self.links.len()
                invariant
                    j <= links.len(),
                    links == self.links@,
                    vs == vertices(node_table(self.nodes).dom(), links),
                    degree_table(deg).dom() == vs,
                    smallest_first(vs, links, before),
                    order@ == before.push(id),
                    done == before.to_set(),
                    order@.to_set() == done.insert(id),
                    ready(vs, links, done, id),
                    forall|v: NodeId| #[trigger]
                        degree_table(deg).contains_key(v) ==> degree_table(deg)[v] == pending(links, v, done, id, j as int),
                    ready_ids@.no_duplicates(),
                    forall|v: NodeId|
                        #[trigger] ready_ids@.contains(v) <==> (vs.contains(v) && !done.insert(id).contains(v)
                            && degree_table(deg)[v] == 0),
                decreases links.len() - j,
            {
                let link = self.links[j];
                let ghost dm = degree_table(deg);
                proof {
                    assert forall|v: NodeId| #[trigger] dm.contains_key(v) implies pending(links, v, done, id, j + 1)
                        == pending(links, v, done, id, j as int) - if links[j as int].to_node == v && !done.contains(id)
                        && links[j as int].from_node == id {
                        1int
                    } else {
                        0int
                    } by {
                        lemma_pending_step(links, v, done, id, j as int);
                    }
                    assert(!done.contains(id));
                }
                if link.from_node == id {
                    match degrees_get(&deg, link.to_node) {
                        Some(d) => {
                            let to = link.to_node;
                            assert(dm.contains_key(to));
                            let nd = d - 1;
                            degrees_insert(&mut deg, to, nd);
                            if nd == 0 {
                                proof {
                                    // `to` is neither placed nor `id` itself: every link into a
                                    // placed id comes from a placed id, and `id` is not placed.
                                    if to == id {
                                        assert(links[j as int].to_node == id);
                                        assert(done.contains(links[j as int].from_node));
                                    }
                                    if done.contains(to) {
                                        let p = choose|p: int| 0 <= p < before.len() && before[p] == to;
                                        assert(ready(vs, links, before.take(p).to_set(), before[p]));
                                        assert(links[j as int].to_node == before[p]);
                                        assert(before.take(p).to_set().contains(id));
                                        let x = choose|x: int| 0 <= x < before.take(p).len() && before.take(p)[x] == id;
                                        assert(before[x] == id);
                                        assert(done.contains(id));
                                    }
                                    assert(!ready_ids@.contains(to));
                                    lemma_push_contains(ready_ids@, to);
                                    lemma_push_no_dup(ready_ids@, to);
                                }
                                ready_ids.push(to);
                            }
                            proof {
                                assert forall|v: NodeId| #[trigger] degree_table(deg).contains_key(v) implies degree_table(deg)[v]
                                    == pending(links, v, done, id, j + 1) by {}
                            }
                        },
                        None => {},
                    }
                }
                j = j + 1;
            }
            proof {
                assert forall|v: NodeId| #[trigger] degree_table(deg).contains_key(v) implies degree_table(deg)[v]
                    == pending(links, v, order@.to_set(), 0, 0) by {
                    lemma_pending_done(links, v, done, id, 0);
                }
                assert forall|v: NodeId| #[trigger] ready_ids@.contains(v) <==> ready(vs, links, order@.to_set(), v) by {
                    if vs.contains(v) {
                        lemma_pending_zero(links, v, order@.to_set(), 0);
                    }
                }
            }
        }
        proof {
            assert forall|v: NodeId| !ready(vs, links, order@.to_set(), v) by {
                if ready(vs, links, order@.to_set(), v) {
                    assert(ready_ids@.contains(v));
                }
            }
            assert(self.link_seq() == links);
            assert(vs == vertices(self.node_map().dom(), self.link_seq()));
            assert(stuck(vertices(self.node_map().dom(), self.link_seq()), self.link_seq(), order@));
            assert(smallest_first(vertices(self.node_map().dom(), self.link_seq()), self.link_seq(), order@));
        }
        if order.len() != nodes_len(&self.nodes) {
            Err(GeoNodeError::CycleDetected)
        } else {
            Ok(order)
        }
    }

    /// Whether the graph has a cycle (no full topological order).
    fn has_cycle(&self) -> (b: bool)
        requires
            self.wf(),
        ensures
            ({
                let vs = vertices(self.node_map().dom(), self.link_seq());
                exists|o: Seq<NodeId>|
                    #[trigger] smallest_first(vs, self.link_seq(), o) && stuck(vs, self.link_seq(), o) && (b <==> o.len()
                        != self.node_map().len())
            }),
    {
        match self.topological_order() {
            Ok(order) => {
                assert(smallest_first(vertices(self.node_map().dom(), self.link_seq()), self.link_seq(), order@));
                false
            },
            Err(_) => true,
        }
    }
}

// ---------------------------------------------------------------------------
// Adding links.
// ---------------------------------------------------------------------------

/// The link joins an existing output socket to an existing input socket of
/// incompatible types.
pub open spec fn mismatched(nodes: Map<NodeId, Node>, link: Link) -> bool {
    &&& nodes.contains_key(link.from_node)
    &&& nodes.contains_key(link.to_node)
    &&& link.from_socket < nodes[link.from_node].outputs@.len()
    &&& link.to_socket < nodes[link.to_node].inputs@.len()
    &&& !compatible(
        nodes[link.from_node].outputs@[link.from_socket as int].socket_type,
        nodes[link.to_node].inputs@[link.to_socket as int].socket_type,
    )
}

/// Links that do not end at the same input socket as `link`.
pub open spec fn other_input(link: Link) -> spec_fn(Link) -> bool {
    |l: Link| !(l.to_node == link.to_node && l.to_socket == link.to_socket)
}

/// The smallest-first order of the graph covers as many ids as it has
/// nodes.
pub open spec fn fully_ordered(nodes: Map<NodeId, Node>, links: Seq<Link>) -> bool {
    let vs = vertices(nodes.dom(), links);
    exists|o: Seq<NodeId>| #[trigger] smallest_first(vs, links, o) && stuck(vs, links, o) && o.len() == nodes.len()
}

impl NodeGraph {
    /// Adds a link. A link between existing sockets of incompatible types
    /// is refused with `TypeMismatch`. Otherwise the link replaces any link
    /// into the same input socket and is appended; if the graph then has no
    /// full topological order, the new link is taken out again (the
    /// replaced one stays removed) and `CycleDetected` is returned.
    pub fn add_link(&mut self, link: Link) -> (r: GeoNodeResult<()>)
        requires
            old(self).wf(),
        ensures
            final(self).wf(),
            final(self).node_map() == old(self).node_map(),
            final(self).next() == old(self).next(),
            final(self).input_node() == old(self).input_node(),
            final(self).output_nodes() == old(self).output_nodes(),
            mismatched(old(self).node_map(), link) ==> {
                let nodes = old(self).node_map();
                let out_type = nodes[link.from_node].outputs@[link.from_socket as int].socket_type;
                let in_socket = nodes[link.to_node].inputs@[link.to_socket as int];
                &&& r matches Err(GeoNodeError::TypeMismatch { socket, expected, actual }) && socket@ == in_socket.name@
                    && expected@ == socket_type_text(in_socket.socket_type) && actual@ == socket_type_text(out_type)
                &&& final(self).link_seq() == old(self).link_seq()
            },
            !mismatched(old(self).node_map(), link) ==> {
                let kept = old(self).link_seq().filter(other_input(link));
                if fully_ordered(old(self).node_map(), kept.push(link)) {
                    r is Ok && final(self).link_seq() == kept.push(link)
                } else {
                    r matches Err(e) && e is CycleDetected && final(self).link_seq() == kept
                }
            },
    {
        // Validate socket type compatibility.
        match (nodes_get(&self.nodes, link.from_node), nodes_get(&self.nodes, link.to_node)) {
            (Some(from_node), Some(to_node)) => {
                if link.from_socket < from_node.outputs.len() && link.to_socket < to_node.inputs.len() {
                    let out_socket = &from_node.outputs[link.from_socket];
                    let in_socket = &to_node.inputs[link.to_socket];
                    if !sockets_compatible(out_socket.socket_type, in_socket.socket_type) {
                        return Err(GeoNodeError::TypeMismatch {
                            socket: in_socket.name.clone(),
                            expected: in_socket.socket_type.name(),
                            actual: out_socket.socket_type.name(),
                        });
                    }
                }
            },
            _ => {},
        }
        // Remove any existing link to the same input socket.
        let mut kept: Vec<Link> = Vec::new();
        let mut i: usize = 0;
        while i < self.links.len()
            invariant
                i <= self.links@.len(),
                self.links@ == old(self).links@,
                kept@ == self.links@.take(i as int).filter(other_input(link)),
            decreases self.links@.len() - i,
        {
            let l = self.links[i];
            assert(self.links@.take(i + 1).drop_last() =~= self.links@.take(i as int));
            proof {
                reveal(Seq::filter);
            }
            if !(l.to_node == link.to_node && l.to_socket == link.to_socket) {
                kept.push(l);
            }
            i = i + 1;
        }
        assert(self.links@.take(self.links@.len() as int) =~= self.links@);
        self.links = kept;
        self.links.push(link);
        if self.has_cycle() {
            self.links.pop();
            proof {
                lemma_full_order_unique(self.node_map(), old(self).link_seq().filter(other_input(link)).push(link));
            }
            Err(GeoNodeError::CycleDetected)
        } else {
            proof {
                lemma_full_order_unique(self.node_map(), self.link_seq());
            }
            Ok(())
        }
    }
}

/// Two smallest-first orders agree on their common length.
proof fn lemma_same_prefix(vs: Set<NodeId>, links: Seq<Link>, o1: Seq<NodeId>, o2: Seq<NodeId>, i: int)
    requires
        0 <= i <= o1.len(),
        i <= o2.len(),
        smallest_first(vs, links, o1),
        smallest_first(vs, links, o2),
    ensures
        o1.take(i) == o2.take(i),
    decreases i,
{
    if i == 0 {
        assert(o1.take(0) =~= o2.take(0));
    } else {
        lemma_same_prefix(vs, links, o1, o2, i - 1);
        let a = o1[i - 1];
        let b = o2[i - 1];
        assert(ready(vs, links, o1.take(i - 1).to_set(), a));
        assert(ready(vs, links, o2.take(i - 1).to_set(), b));
        assert(a <= b);
        assert(b <= a);
        assert(o1.take(i) =~= o1.take(i - 1).push(a));
        assert(o2.take(i) =~= o2.take(i - 1).push(b));
    }
}

/// Two smallest-first orders that both end stuck are the same order.
pub proof fn lemma_order_unique(vs: Set<NodeId>, links: Seq<Link>, o1: Seq<NodeId>, o2: Seq<NodeId>)
    requires
        smallest_first(vs, links, o1),
        stuck(vs, links, o1),
        smallest_first(vs, links, o2),
        stuck(vs, links, o2),
    ensures
        o1 == o2,
{
    let n: int = if o1.len() < o2.len() { o1.len() as int } else { o2.len() as int };
    lemma_same_prefix(vs, links, o1, o2, n);
    if o1.len() < o2.len() {
        assert(o1.take(n) =~= o1);
        assert(ready(vs, links, o2.take(n).to_set(), o2[n]));
        assert(!ready(vs, links, o1.to_set(), o2[n]));
    } else if o2.len() < o1.len() {
        assert(o2.take(n) =~= o2);
        assert(ready(vs, links, o1.take(n).to_set(), o1[n]));
        assert(!ready(vs, links, o2.to_set(), o1[n]));
    } else {
        assert(o1 =~= o1.take(n));
        assert(o2 =~= o2.take(n));
    }
}

/// Whether the graph is fully ordered does not depend on which
/// smallest-first order is looked at.
pub proof fn lemma_full_order_unique(nodes: Map<NodeId, Node>, links: Seq<Link>)
    ensures
        forall|o: Seq<NodeId>|
            #[trigger] smallest_first(vertices(nodes.dom(), links), links, o) && stuck(vertices(nodes.dom(), links), links, o)
                ==> (fully_ordered(nodes, links) <==> o.len() == nodes.len()),
{
    let vs = vertices(nodes.dom(), links);
    assert forall|o: Seq<NodeId>|
        #[trigger] smallest_first(vs, links, o) && stuck(vs, links, o) implies (fully_ordered(nodes, links) <==> o.len()
            == nodes.len()) by {
        if fully_ordered(nodes, links) {
            let w = choose|w: Seq<NodeId>| #[trigger] smallest_first(vs, links, w) && stuck(vs, links, w) && w.len() == nodes.len();
            lemma_order_unique(vs, links, o, w);
        }
    }
}

/// In a smallest-first order every link into a placed id comes from an id
/// placed before it: the order is topological.
pub proof fn lemma_order_respects_links(vs: Set<NodeId>, links: Seq<Link>, o: Seq<NodeId>, i: int, k: int)
    requires
        smallest_first(vs, links, o),
        0 <= i < o.len(),
        0 <= k < links.len(),
        links[k].to_node == o[i],
    ensures
        exists|j: int| 0 <= j < i && o[j] == links[k].from_node,
{
    assert(ready(vs, links, o.take(i).to_set(), o[i]));
    assert(o.take(i).to_set().contains(links[k].from_node));
    let j = choose|j: int| 0 <= j < o.take(i).len() && o.take(i)[j] == links[k].from_node;
    assert(o[j] == links[k].from_node);
}

} // verus!
