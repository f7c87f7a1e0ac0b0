//! Evaluation engine: traverses the node graph in topological order and
//! computes socket values. Node evaluation passes each node's inputs
//! through to its outputs.

use ahash::AHashMap;
use vstd::prelude::*;
use vstd::string::*;

use super::graph::{into_node, lemma_order_unique, smallest_first, stuck, vertices, NodeGraph, NodeId};
use super::nodes::{Node, NodeType};
use super::sockets::{Socket, SocketValue};
use super::{GeoNodeError, GeoNodeResult};
use crate::text::{decimal, push_decimal64};

verus! {

// ---------------------------------------------------------------------------
// Socket value tables.
// ---------------------------------------------------------------------------

/// The values held by a socket table, by socket index.
pub uninterp spec fn socket_table(m: AHashMap<usize, SocketValue>) -> Map<usize, SocketValue>;

pub open spec fn no_values() -> Map<usize, SocketValue> {
    Map::empty()
}

/// `AHashMap::new`: an empty table.
#[verifier::external_body]
fn values_new() -> (m: AHashMap<usize, SocketValue>)
    ensures
        socket_table(m) == no_values(),
{
    AHashMap::new()
}

/// `AHashMap::insert`: the key now maps to the value.
#[verifier::external_body]
fn values_insert(m: &mut AHashMap<usize, SocketValue>, key: usize, value: SocketValue)
    ensures
        socket_table(*final(m)) == socket_table(*old(m)).insert(key, value),
{
    m.insert(key, value);
}

/// `HashMap::entry(key).or_insert(value)`: the value is stored unless the
/// key already has one.
#[verifier::external_body]
fn values_insert_absent(m: &mut AHashMap<usize, SocketValue>, key: usize, value: SocketValue)
    ensures
        socket_table(*final(m)) == if socket_table(*old(m)).contains_key(key) {
            socket_table(*old(m))
        } else {
            socket_table(*old(m)).insert(key, value)
        },
{
    m.entry(key).or_insert(value);
}

/// `AHashMap::get`: the value stored under the key.
#[verifier::external_body]
fn values_get(m: &AHashMap<usize, SocketValue>, key: usize) -> (r: Option<&SocketValue>)
    ensures
        match r {
            Some(v) => socket_table(*m).contains_key(key) && socket_table(*m)[key] == *v,
            None => !socket_table(*m).contains_key(key),
        },
{
    m.get(&key)
}

/// `HashMap::clone`: a table with the same entries; each value is copied
/// by [`SocketValue::clone`], which gives an equal value.
#[verifier::external_body]
fn values_clone(m: &AHashMap<usize, SocketValue>) -> (r: AHashMap<usize, SocketValue>)
    ensures
        socket_table(r) == socket_table(*m),
{
    m.clone()
}

/// `HashMap::extend`: every entry of `src` is inserted into `dst`,
/// replacing a value under the same key.
#[verifier::external_body]
fn values_extend(dst: &mut AHashMap<usize, SocketValue>, src: AHashMap<usize, SocketValue>)
    ensures
        socket_table(*final(dst)) == socket_table(*old(dst)).union_prefer_right(socket_table(src)),
{
    dst.extend(src);
}

/// The outputs cached per node.
pub uninterp spec fn cache_table(m: AHashMap<NodeId, AHashMap<usize, SocketValue>>) -> Map<NodeId, Map<usize, SocketValue>>;

pub open spec fn no_outputs() -> Map<NodeId, Map<usize, SocketValue>> {
    Map::empty()
}

/// `AHashMap::new`: an empty cache.
#[verifier::external_body]
fn cache_new() -> (m: AHashMap<NodeId, AHashMap<usize, SocketValue>>)
    ensures
        cache_table(m) == no_outputs(),
{
    AHashMap::new()
}

/// `AHashMap::insert`: the node's outputs are now the given table.
#[verifier::external_body]
fn cache_insert(m: &mut AHashMap<NodeId, AHashMap<usize, SocketValue>>, key: NodeId, value: AHashMap<usize, SocketValue>)
    ensures
        cache_table(*final(m)) == cache_table(*old(m)).insert(key, socket_table(value)),
{
    m.insert(key, value);
}

/// `AHashMap::get`: the outputs cached for the node.
#[verifier::external_body]
fn cache_get(m: &AHashMap<NodeId, AHashMap<usize, SocketValue>>, key: NodeId) -> (r: Option<&AHashMap<usize, SocketValue>>)
    ensures
        match r {
            Some(v) => cache_table(*m).contains_key(key) && cache_table(*m)[key] == socket_table(*v),
            None => !cache_table(*m).contains_key(key),
        },
{
    m.get(&key)
}

/// `AHashMap::remove`: the node's outputs are taken out of the cache.
#[verifier::external_body]
fn cache_remove(m: &mut AHashMap<NodeId, AHashMap<usize, SocketValue>>, key: NodeId) -> (r: Option<AHashMap<usize, SocketValue>>)
    ensures
        cache_table(*final(m)) == cache_table(*old(m)).remove(key),
        match r {
            Some(v) => cache_table(*old(m)).contains_key(key) && cache_table(*old(m))[key] == socket_table(v),
            None => !cache_table(*old(m)).contains_key(key),
        },
{
    m.remove(&key)
}

/// `HashMap::clear`: empties the cache.
#[verifier::external_body]
fn cache_clear(m: &mut AHashMap<NodeId, AHashMap<usize, SocketValue>>)
    ensures
        cache_table(*final(m)) == no_outputs(),
{
    m.clear();
}

// ---------------------------------------------------------------------------
// Per-node context.
// ---------------------------------------------------------------------------

/// Per-node evaluation context.
#[derive(Debug)]
pub struct EvalContext {
    /// Resolved input values for the current node, keyed by socket index.
    pub inputs: AHashMap<usize, SocketValue>,
    /// Output values produced by the current node, keyed by socket index.
    pub outputs: AHashMap<usize, SocketValue>,
    /// Current frame time, as `f32` bits.
    pub frame: u32,
}

impl EvalContext {
    /// A context for a frame (given as `f32` bits) with no inputs or
    /// outputs.
    pub fn new(frame: u32) -> (c: EvalContext)
        ensures
            socket_table(c.inputs) == no_values(),
            socket_table(c.outputs) == no_values(),
            c.frame == frame,
    {
        EvalContext { inputs: values_new(), outputs: values_new(), frame }
    }

    /// The input value of a socket.
    pub fn input(&self, index: usize) -> (r: Option<&SocketValue>)
        ensures
            match r {
                Some(v) => socket_table(self.inputs).contains_key(index) && socket_table(self.inputs)[index] == *v,
                None => !socket_table(self.inputs).contains_key(index),
            },
    {
        values_get(&self.inputs, index)
    }

    /// The input of a socket read as a vector (see
    /// [`SocketValue::as_vector`]), or `default`.
    pub fn input_vector(&self, index: usize, default: [u32; 3]) -> (r: [u32; 3])
        ensures
            r == if socket_table(self.inputs).contains_key(index) {
                match socket_table(self.inputs)[index] {
                    SocketValue::Vector(v) => v,
                    SocketValue::Float(f) => [f, f, f],
                    _ => default,
                }
            } else {
                default
            },
    {
        match values_get(&self.inputs, index) {
            Some(v) => match v.as_vector() {
                Some(x) => x,
                None => default,
            },
            None => default,
        }
    }

    /// Sets an output value.
    pub fn set_output(&mut self, index: usize, value: SocketValue)
        ensures
            socket_table(final(self).outputs) == socket_table(old(self).outputs).insert(index, value),
            socket_table(final(self).inputs) == socket_table(old(self).inputs),
            final(self).frame == old(self).frame,
    {
        values_insert(&mut self.outputs, index, value);
    }
}

// ---------------------------------------------------------------------------
// What evaluation computes.
// ---------------------------------------------------------------------------

/// The values arriving over `links` (in order) from the outputs cached so
/// far, by input socket index.
pub open spec fn gathered(links: Seq<super::graph::Link>, cache: Map<NodeId, Map<usize, SocketValue>>) -> Map<usize, SocketValue>
    decreases links.len(),
{
    if links.len() == 0 {
        no_values()
    } else {
        let m = gathered(links.drop_last(), cache);
        let l = links.last();
        if cache.contains_key(l.from_node) && cache[l.from_node].contains_key(l.from_socket) {
            m.insert(l.to_socket, cache[l.from_node][l.from_socket])
        } else {
            m
        }
    }
}

/// `m` with each socket's default value under its index where `m` has no
/// value.
pub open spec fn filled(m: Map<usize, SocketValue>, sockets: Seq<Socket>) -> Map<usize, SocketValue>
    decreases sockets.len(),
{
    if sockets.len() == 0 {
        m
    } else {
        let f = filled(m, sockets.drop_last());
        let i = (sockets.len() - 1) as usize;
        if f.contains_key(i) {
            f
        } else {
            f.insert(i, sockets.last().default_value)
        }
    }
}

/// The inputs of node `id`: the linked values, then the defaults.
pub open spec fn node_inputs(nodes: Map<NodeId, Node>, links: Seq<super::graph::Link>, id: NodeId, cache: Map<NodeId, Map<usize, SocketValue>>) -> Map<usize, SocketValue> {
    filled(gathered(links.filter(into_node(id)), cache), nodes[id].inputs@)
}

/// Defaults never overwrite a value that is already there.
proof fn lemma_filled_keeps(m: Map<usize, SocketValue>, sockets: Seq<Socket>, k: usize)
    requires
        m.contains_key(k),
    ensures
        filled(m, sockets).contains_key(k),
        filled(m, sockets)[k] == m[k],
    decreases sockets.len(),
{
    if sockets.len() > 0 {
        lemma_filled_keeps(m, sockets.drop_last(), k);
    }
}

/// The value that link `links[j]` carries into node `id` is still the one
/// under its input socket after the links that follow it.
proof fn lemma_gathered_link(
    links: Seq<super::graph::Link>,
    id: NodeId,
    cache: Map<NodeId, Map<usize, SocketValue>>,
    j: int,
)
    requires
        0 <= j < links.len(),
        links[j].to_node == id,
        cache.contains_key(links[j].from_node),
        cache[links[j].from_node].contains_key(links[j].from_socket),
        forall|k: int|
            j < k < links.len() && (#[trigger] links[k]).to_node == id ==> links[k].to_socket
                != links[j].to_socket,
    ensures
        gathered(links.filter(into_node(id)), cache).contains_key(links[j].to_socket),
        gathered(links.filter(into_node(id)), cache)[links[j].to_socket]
            == cache[links[j].from_node][links[j].from_socket],
    decreases links.len(),
{
    let l = links[j];
    let front = links.drop_last();
    let f = links.filter(into_node(id));
    let p = into_node(id);
    reveal(Seq::filter);
    assert(p(links.last()) == (links.last().to_node == id));
    assert(f == if p(links.last()) {
        front.filter(p).push(links.last())
    } else {
        front.filter(p)
    });
    if j == links.len() - 1 {
        assert(f == front.filter(into_node(id)).push(l));
        assert(f.drop_last() == front.filter(into_node(id)));
    } else {
        assert(front[j] == l);
        assert forall|k: int|
            j < k < front.len() && (#[trigger] front[k]).to_node == id implies front[k].to_socket
                != l.to_socket by {
            assert(front[k] == links[k]);
        }
        lemma_gathered_link(front, id, cache, j);
        let last = links.last();
        if last.to_node == id {
            assert(f == front.filter(into_node(id)).push(last));
            assert(f.drop_last() == front.filter(into_node(id)));
            assert(links[links.len() - 1] == last);
        } else {
            assert(f == front.filter(into_node(id)));
        }
    }
}

/// A value that arrives over a link lands under the link's target socket:
/// for a link into node `id` whose source output is cached, and no later
/// link into the same socket, the node's input at the link's target socket
/// is the source node's output at the link's source socket.
pub proof fn lemma_linked_input(
    nodes: Map<NodeId, Node>,
    links: Seq<super::graph::Link>,
    id: NodeId,
    cache: Map<NodeId, Map<usize, SocketValue>>,
    j: int,
)
    requires
        0 <= j < links.len(),
        links[j].to_node == id,
        cache.contains_key(links[j].from_node),
        cache[links[j].from_node].contains_key(links[j].from_socket),
        forall|k: int|
            j < k < links.len() && (#[trigger] links[k]).to_node == id ==> links[k].to_socket
                != links[j].to_socket,
    ensures
        node_inputs(nodes, links, id, cache).contains_key(links[j].to_socket),
        node_inputs(nodes, links, id, cache)[links[j].to_socket]
            == cache[links[j].from_node][links[j].from_socket],
{
    lemma_gathered_link(links, id, cache, j);
    lemma_filled_keeps(gathered(links.filter(into_node(id)), cache), nodes[id].inputs@, links[j].to_socket);
}

/// The outputs of the nodes of `order`, evaluated in turn (each passes its
/// inputs through), or the first id of `order` that is not a node.
pub open spec fn run_nodes(nodes: Map<NodeId, Node>, links: Seq<super::graph::Link>, order: Seq<NodeId>) -> Result<Map<NodeId, Map<usize, SocketValue>>, NodeId>
    decreases order.len(),
{
    if order.len() == 0 {
        Ok(no_outputs())
    } else {
        match run_nodes(nodes, links, order.drop_last()) {
            Err(id) => Err(id),
            Ok(cache) => {
                let id = order.last();
                if nodes.contains_key(id) {
                    Ok(cache.insert(id, node_inputs(nodes, links, id, cache)))
                } else {
                    Err(id)
                }
            },
        }
    }
}

/// The merged outputs of the group output nodes `outs`, in order (a later
/// node's value wins), each node taken out of the cache once used; and the
/// cache that is left.
pub open spec fn collected(outs: Seq<NodeId>, cache: Map<NodeId, Map<usize, SocketValue>>) -> (Map<usize, SocketValue>, Map<NodeId, Map<usize, SocketValue>>)
    decreases outs.len(),
{
    if outs.len() == 0 {
        (no_values(), cache)
    } else {
        let (res, rest) = collected(outs.drop_last(), cache);
        let id = outs.last();
        if rest.contains_key(id) {
            (res.union_prefer_right(rest[id]), rest.remove(id))
        } else {
            (res, rest)
        }
    }
}

/// The message for an id of the order that is not a node.
pub open spec fn unknown_id_text(id: NodeId) -> Seq<char> {
    "id="@ + decimal(id as nat)
}

/// A prefix of the order that meets a missing node makes the whole order
/// meet it.
proof fn lemma_run_prefix_err(nodes: Map<NodeId, Node>, links: Seq<super::graph::Link>, order: Seq<NodeId>, k: int)
    requires
        0 <= k <= order.len(),
        run_nodes(nodes, links, order.take(k)) is Err,
    ensures
        run_nodes(nodes, links, order) == run_nodes(nodes, links, order.take(k)),
    decreases order.len() - k,
{
    if k < order.len() {
        assert(order.take(k + 1).drop_last() =~= order.take(k));
        lemma_run_prefix_err(nodes, links, order, k + 1);
    } else {
        assert(order.take(k) =~= order);
    }
}

// ---------------------------------------------------------------------------
// The evaluator.
// ---------------------------------------------------------------------------

/// The graph evaluator.
#[derive(Debug)]
pub struct Evaluator {
    /// Cached topological order from the last evaluation.
    topo_cache: Vec<NodeId>,
    /// Per-node output cache.
    output_cache: AHashMap<NodeId, AHashMap<usize, SocketValue>>,
}

impl Evaluator {
    /// The order of the last evaluation.
    pub closed spec fn order(&self) -> Seq<NodeId> {
        self.topo_cache@
    }

    /// The outputs kept from the last evaluation, by node.
    pub closed spec fn cached(&self) -> Map<NodeId, Map<usize, SocketValue>> {
        cache_table(self.output_cache)
    }

    /// A new evaluator with nothing cached.
    pub fn new() -> (e: Evaluator)
        ensures
            e.order() == Seq::<NodeId>::empty(),
            e.cached() == no_outputs(),
    {
        Evaluator { topo_cache: Vec::new(), output_cache: cache_new() }
    }

    /// Evaluates the whole graph for a frame (given as `f32` bits): the
    /// nodes are evaluated in topological order, and the merged outputs of
    /// the group output nodes are returned. A graph without a full order is
    /// refused with `CycleDetected`; an id of the order that is not a node
    /// (the target of a dangling link) with `UnknownNodeType("id=<id>")`.
    pub fn evaluate(&mut self, graph: &NodeGraph, frame: u32) -> (r: GeoNodeResult<AHashMap<usize, SocketValue>>)
        requires
            graph.wf(),
        ensures
            ({
                let vs = vertices(graph.node_map().dom(), graph.link_seq());
                &&& exists|o: Seq<NodeId>| #[trigger] smallest_first(vs, graph.link_seq(), o) && stuck(vs, graph.link_seq(), o)
                &&& forall|o: Seq<NodeId>|
                    #[trigger] smallest_first(vs, graph.link_seq(), o) && stuck(vs, graph.link_seq(), o) ==> if o.len()
                        != graph.node_map().len() {
                        r matches Err(e) && e is CycleDetected
                    } else {
                        match run_nodes(graph.node_map(), graph.link_seq(), o) {
                            Err(id) => r matches Err(GeoNodeError::UnknownNodeType(s)) && s@ == unknown_id_text(id),
                            Ok(cache) => r matches Ok(m) && socket_table(m) == collected(graph.output_nodes(), cache).0
                                && final(self).order() == o && final(self).cached() == collected(
                                graph.output_nodes(),
                                cache,
                            ).1,
                        }
                    }
            }),
    {
        let ghost vs = vertices(graph.node_map().dom(), graph.link_seq());
        let order = match graph.topological_order() {
            Ok(o) => o,
            Err(e) => {
                proof {
                    let w = choose|w: Seq<NodeId>|
                        #[trigger] smallest_first(vs, graph.link_seq(), w) && stuck(vs, graph.link_seq(), w) && w.len()
                            != graph.node_map().len();
                    assert forall|o: Seq<NodeId>| #[trigger]
                        smallest_first(vs, graph.link_seq(), o) && stuck(vs, graph.link_seq(), o) implies o == w by {
                        lemma_order_unique(vs, graph.link_seq(), o, w);
                    }
                }
                return Err(e);
            },
        };
        proof {
            assert forall|o: Seq<NodeId>| #[trigger]
                smallest_first(vs, graph.link_seq(), o) && stuck(vs, graph.link_seq(), o) implies o == order@ by {
                lemma_order_unique(vs, graph.link_seq(), o, order@);
            }
        }
        let ghost the_order = order@;
        assert(smallest_first(vs, graph.link_seq(), the_order) && stuck(vs, graph.link_seq(), the_order));
        self.topo_cache = order;
        cache_clear(&mut self.output_cache);
        let ghost nodes = graph.node_map();
        let ghost links = graph.link_seq();
        let mut i: usize = 0;
        assert(self.topo_cache@.take(0) =~= Seq::<NodeId>::empty());
        while i < self.topo_cache.len()
            invariant
                vs == vertices(graph.node_map().dom(), graph.link_seq()),
                self.topo_cache@ == the_order,
                the_order.len() == graph.node_map().len(),
                smallest_first(vs, graph.link_seq(), the_order),
                stuck(vs, graph.link_seq(), the_order),
                forall|o: Seq<NodeId>| #[trigger]
                    smallest_first(vs, graph.link_seq(), o) && stuck(vs, graph.link_seq(), o) ==> o == the_order,
                i <= self.topo_cache@.len(),
                nodes == graph.node_map(),
                links == graph.link_seq(),
                run_nodes(nodes, links, self.topo_cache@.take(i as int)) == Ok::<Map<NodeId, Map<usize, SocketValue>>, NodeId>(
                    cache_table(self.output_cache),
                ),
            decreases self.topo_cache@.len() - i,
        {
            let node_id = self.topo_cache[i];
            let ghost cache = cache_table(self.output_cache);
            assert(self.topo_cache@.take(i + 1).drop_last() =~= self.topo_cache@.take(i as int));
            assert(self.topo_cache@.take(i + 1).last() == node_id);
            let node = match graph.get_node(node_id) {
                Some(n) => n,
                None => {
                    proof {
                        lemma_run_prefix_err(nodes, links, self.topo_cache@, i + 1);
                        assert(self.topo_cache@.take(self.topo_cache@.len() as int) =~= self.topo_cache@);
                    }
                    let mut msg = String::from_str("id=");
                    push_decimal64(&mut msg, node_id);
                    return Err(GeoNodeError::UnknownNodeType(msg));
                },
            };
            let mut ctx = EvalContext::new(frame);
            // Resolve inputs from upstream output caches.
            let incoming = graph.input_links(node_id);
            let mut k: usize = 0;
            assert(incoming@.take(0) =~= Seq::<super::graph::Link>::empty());
            while k < incoming.len()
                invariant
                    k <= incoming@.len(),
                    socket_table(ctx.inputs) == gathered(incoming@.take(k as int), cache),
                    socket_table(ctx.outputs) == no_values(),
                    cache == cache_table(self.output_cache),
                decreases incoming@.len() - k,
            {
                let link = incoming[k];
                assert(incoming@.take(k + 1).drop_last() =~= incoming@.take(k as int));
                match cache_get(&self.output_cache, link.from_node) {
                    Some(upstream) => match values_get(upstream, link.from_socket) {
                        Some(val) => {
                            values_insert(&mut ctx.inputs, link.to_socket, val.clone());
                        },
                        None => {},
                    },
                    None => {},
                }
                k = k + 1;
            }
            assert(incoming@.take(incoming@.len() as int) =~= incoming@);
            // Fill unconnected inputs with defaults.
            let mut s: usize = 0;
            let ghost linked = socket_table(ctx.inputs);
            assert(node.inputs@.take(0) =~= Seq::<Socket>::empty());
            while s < node.inputs.len()
                invariant
                    s <= node.inputs@.len(),
                    socket_table(ctx.inputs) == filled(linked, node.inputs@.take(s as int)),
                    socket_table(ctx.outputs) == no_values(),
                decreases node.inputs@.len() - s,
            {
                assert(node.inputs@.take(s + 1).drop_last() =~= node.inputs@.take(s as int));
                values_insert_absent(&mut ctx.inputs, s, node.inputs[s].default_value.clone());
                s = s + 1;
            }
            assert(node.inputs@.take(node.inputs@.len() as int) =~= node.inputs@);
            let ghost ins = socket_table(ctx.inputs);
            self.evaluate_node(node_id, &node.node_type, &mut ctx)?;
            assert(socket_table(ctx.outputs) =~= ins);
            assert(ins == node_inputs(nodes, links, node_id, cache));
            cache_insert(&mut self.output_cache, node_id, ctx.outputs);
            i = i + 1;
        }
        assert(self.topo_cache@.take(self.topo_cache@.len() as int) =~= self.topo_cache@);
        // Collect the outputs of all group output nodes; a later node's
        // value for a socket index wins.
        let ghost full = cache_table(self.output_cache);
        let mut result = values_new();
        let outs = graph.group_output_ids();
        let mut g: usize = 0;
        assert(outs@.take(0) =~= Seq::<NodeId>::empty());
        while g < outs.len()
            invariant
                vs == vertices(graph.node_map().dom(), graph.link_seq()),
                self.topo_cache@ == the_order,
                the_order.len() == graph.node_map().len(),
                smallest_first(vs, graph.link_seq(), the_order),
                stuck(vs, graph.link_seq(), the_order),
                forall|o: Seq<NodeId>| #[trigger]
                    smallest_first(vs, graph.link_seq(), o) && stuck(vs, graph.link_seq(), o) ==> o == the_order,
                run_nodes(graph.node_map(), graph.link_seq(), the_order) == Ok::<Map<NodeId, Map<usize, SocketValue>>, NodeId>(full),
                g <= outs@.len(),
                graph.output_nodes() == outs@,
                collected(outs@.take(g as int), full) == (socket_table(result), cache_table(self.output_cache)),
            decreases outs@.len() - g,
        {
            let out_id = outs[g];
            assert(outs@.take(g + 1).drop_last() =~= outs@.take(g as int));
            match cache_remove(&mut self.output_cache, out_id) {
                Some(outputs) => {
                    values_extend(&mut result, outputs);
                },
                None => {},
            }
            g = g + 1;
        }
        assert(outs@.take(outs@.len() as int) =~= outs@);
        Ok(result)
    }

    /// Node evaluation: each input value is copied to the output of the
    /// same index.
    fn evaluate_node(&self, node_id: NodeId, node_type: &NodeType, ctx: &mut EvalContext) -> (r: GeoNodeResult<()>)
        ensures
            r is Ok,
            socket_table(final(ctx).outputs) == socket_table(old(ctx).outputs).union_prefer_right(socket_table(old(ctx).inputs)),
            socket_table(final(ctx).inputs) == socket_table(old(ctx).inputs),
            final(ctx).frame == old(ctx).frame,
    {
        let copy = values_clone(&ctx.inputs);
        values_extend(&mut ctx.outputs, copy);
        Ok(())
    }
}

impl Default for Evaluator {
    fn default() -> (e: Evaluator)
        ensures
            e.order() == Seq::<NodeId>::empty(),
            e.cached() == no_outputs(),
    {
        Evaluator::new()
    }
}

} // verus!
