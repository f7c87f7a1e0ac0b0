use forge3d::geonodes::evaluation::{EvalContext, Evaluator};
use forge3d::geonodes::fields::{Field, FieldDataType, FieldDomain};
use forge3d::geonodes::graph::{sockets_compatible, Link, NodeGraph};
use forge3d::geonodes::nodes::{Node, NodeCategory, NodeType};
use forge3d::geonodes::sockets::{Socket, SocketType, SocketValue};
use forge3d::geonodes::GeoNodeError;

fn value_node(label: &str, ty: SocketType) -> Node {
    Node::new(NodeType::Value, label, NodeCategory::Input)
        .with_input(Socket::input("In", ty, SocketValue::NoValue))
        .with_output(Socket::output("Out", ty))
}

fn link(from_node: u64, from_socket: usize, to_node: u64, to_socket: usize) -> Link {
    Link { from_node, from_socket, to_node, to_socket }
}

#[test]
fn ids_start_at_one_and_increase() {
    let mut g = NodeGraph::new();
    let a = g.add_node(value_node("a", SocketType::Float));
    let b = g.add_node(value_node("b", SocketType::Float));
    assert_eq!((a, b), (1, 2));
    assert_eq!(g.get_node(a).unwrap().id, a);
    assert_eq!(g.get_node(b).unwrap().label, "b");
    assert_eq!(g.node_count(), 2);
    let mut ids = g.node_ids();
    ids.sort();
    assert_eq!(ids, vec![1, 2]);
}

#[test]
fn topological_order_takes_smallest_ready_first() {
    let mut g = NodeGraph::new();
    let n1 = g.add_node(value_node("1", SocketType::Float));
    let n2 = g.add_node(value_node("2", SocketType::Float));
    let n3 = g.add_node(value_node("3", SocketType::Float));
    let n4 = g.add_node(value_node("4", SocketType::Float));
    g.add_link(link(n3, 0, n1, 0)).unwrap();
    g.add_link(link(n4, 0, n2, 0)).unwrap();
    assert_eq!(g.topological_order().unwrap(), vec![n3, n1, n4, n2]);
}

#[test]
fn cycle_is_refused_and_link_taken_out() {
    let mut g = NodeGraph::new();
    let a = g.add_node(value_node("a", SocketType::Float));
    let b = g.add_node(value_node("b", SocketType::Float));
    g.add_link(link(a, 0, b, 0)).unwrap();
    match g.add_link(link(b, 0, a, 0)) {
        Err(GeoNodeError::CycleDetected) => {}
        other => panic!("unexpected {:?}", other),
    }
    assert_eq!(g.links(), &[link(a, 0, b, 0)]);
    assert!(g.topological_order().is_ok());
}

#[test]
fn new_link_replaces_link_into_same_input() {
    let mut g = NodeGraph::new();
    let a = g.add_node(value_node("a", SocketType::Float));
    let b = g.add_node(value_node("b", SocketType::Float));
    let c = g.add_node(value_node("c", SocketType::Float));
    g.add_link(link(a, 0, c, 0)).unwrap();
    g.add_link(link(b, 0, c, 0)).unwrap();
    assert_eq!(g.links(), &[link(b, 0, c, 0)]);
    assert_eq!(g.input_links(c), vec![link(b, 0, c, 0)]);
    assert_eq!(g.output_links(a), vec![]);
}

#[test]
fn type_mismatch_is_refused() {
    let mut g = NodeGraph::new();
    let geo = g.add_node(value_node("geo", SocketType::Geometry));
    let f = g.add_node(value_node("f", SocketType::Float));
    match g.add_link(link(geo, 0, f, 0)) {
        Err(GeoNodeError::TypeMismatch { socket, expected, actual }) => {
            assert_eq!(socket, "In");
            assert_eq!(expected, "Float");
            assert_eq!(actual, "Geometry");
        }
        other => panic!("unexpected {:?}", other),
    }
    assert!(g.links().is_empty());
    // Numeric types convert into each other and into vectors.
    assert!(sockets_compatible(SocketType::Int, SocketType::Float));
    assert!(sockets_compatible(SocketType::Float, SocketType::Vector));
    assert!(!sockets_compatible(SocketType::Geometry, SocketType::Float));
}

#[test]
fn remove_node_drops_its_links() {
    let mut g = NodeGraph::new();
    let a = g.add_node(value_node("a", SocketType::Float));
    let b = g.add_node(value_node("b", SocketType::Float));
    g.add_link(link(a, 0, b, 0)).unwrap();
    let removed = g.remove_node(a).unwrap();
    assert_eq!(removed.label, "a");
    assert!(g.links().is_empty());
    assert!(g.remove_node(a).is_none());
    assert_eq!(g.node_count(), 1);
}

#[test]
fn remove_link_and_get_node_mut() {
    let mut g = NodeGraph::new();
    let a = g.add_node(value_node("a", SocketType::Float));
    let b = g.add_node(value_node("b", SocketType::Float));
    g.add_link(link(a, 0, b, 0)).unwrap();
    g.remove_link(&link(a, 0, b, 0));
    assert!(g.links().is_empty());
    g.get_node_mut(b).unwrap().muted = true;
    assert!(g.get_node(b).unwrap().muted);
    assert!(g.get_node_mut(99).is_none());
}

#[test]
fn evaluator_passes_values_through_to_group_output() {
    let mut g = NodeGraph::new();
    let one = 1.5f32.to_bits();
    let src = g.add_node(
        Node::new(NodeType::Value, "src", NodeCategory::Input)
            .with_input(Socket::input("v", SocketType::Float, SocketValue::Float(one)))
            .with_output(Socket::output("v", SocketType::Float)),
    );
    let out = g.add_node(
        Node::new(NodeType::GroupOutput, "out", NodeCategory::Output)
            .with_input(Socket::input("a", SocketType::Float, SocketValue::NoValue))
            .with_input(Socket::input("b", SocketType::Int, SocketValue::Int(3))),
    );
    g.group_outputs.push(out);
    g.add_link(link(src, 0, out, 0)).unwrap();
    let mut ev = Evaluator::new();
    let result = ev.evaluate(&g, 0).unwrap();
    assert_eq!(result.len(), 2);
    assert!(matches!(result.get(&0), Some(SocketValue::Float(x)) if *x == one));
    assert!(matches!(result.get(&1), Some(SocketValue::Int(3))));
}

#[test]
fn dangling_link_is_refused_as_a_cycle() {
    // A link into a missing node puts that id into the order, which then
    // no longer matches the node count.
    let mut g = NodeGraph::new();
    let a = g.add_node(value_node("a", SocketType::Float));
    match g.add_link(link(a, 0, 42, 0)) {
        Err(GeoNodeError::CycleDetected) => {}
        other => panic!("unexpected {:?}", other),
    }
    assert!(g.links().is_empty());
    let mut ev = Evaluator::new();
    assert!(ev.evaluate(&g, 0).unwrap().is_empty());
}

#[test]
fn eval_context_inputs_and_outputs() {
    let mut ctx = EvalContext::new(0);
    assert!(ctx.input(0).is_none());
    let v = [1u32, 2, 3];
    assert_eq!(ctx.input_vector(0, v), v);
    ctx.set_output(2, SocketValue::Bool(true));
    assert!(matches!(ctx.outputs.get(&2), Some(SocketValue::Bool(true))));
}

#[test]
fn socket_values_and_types() {
    assert_eq!(SocketValue::Float(0).socket_type(), SocketType::Float);
    assert_eq!(SocketValue::String("s".to_string()).socket_type(), SocketType::String);
    assert_eq!(SocketValue::Vector([1, 2, 3]).as_vector(), Some([1, 2, 3]));
    assert_eq!(SocketValue::Bool(true).as_vector(), None);
    assert_eq!(SocketType::Collection.name(), "Collection");
    let s = Socket::input("x", SocketType::Int, SocketValue::Int(0));
    assert!(matches!(s.clone().default_value, SocketValue::Int(0)));
}

#[test]
fn node_builders_and_socket_lookup() {
    let n = Node::new(NodeType::MathNode, "Math", NodeCategory::Math)
        .with_input(Socket::input("A", SocketType::Float, SocketValue::Float(0)))
        .with_input(Socket::input("B", SocketType::Float, SocketValue::Float(0)))
        .with_output(Socket::output("Result", SocketType::Float))
        .at(10, 20);
    assert_eq!(n.location, [10, 20]);
    assert_eq!(n.width, 140.0f32.to_bits());
    assert_eq!(n.find_input("B").map(|(i, _)| i), Some(1));
    assert!(n.find_input("C").is_none());
    assert_eq!(n.find_output("Result").map(|(i, s)| (i, s.socket_type)), Some((0, SocketType::Float)));
}

#[test]
fn field_builders() {
    let a = Field::constant_float(1.0f32.to_bits());
    let b = Field::attribute("position", FieldDomain::Point, FieldDataType::Vector);
    let sum = a.add(b);
    let neg = sum.negate();
    let prod = neg.multiply(Field::constant_vector([0, 0, 0]));
    let text = format!("{:?}", prod);
    assert!(text.contains("position"));
}

#[test]
fn geonode_error_messages() {
    assert_eq!(GeoNodeError::CycleDetected.to_string(), "graph contains a cycle");
    assert_eq!(
        GeoNodeError::MissingInput { node_id: 7, socket: "Geometry".to_string() }.to_string(),
        "node 7 has no input for socket `Geometry`"
    );
    assert_eq!(
        GeoNodeError::TypeMismatch {
            socket: "In".to_string(),
            expected: "Float".to_string(),
            actual: "Geometry".to_string()
        }
        .to_string(),
        "type mismatch: socket `In` expected Float, got Geometry"
    );
    assert_eq!(GeoNodeError::UnknownNodeType("id=3".to_string()).to_string(), "node type `id=3` is not registered");
    assert_eq!(GeoNodeError::Cancelled.to_string(), "evaluation cancelled");
}

#[test]
fn nodes_lists_each_node_with_its_id() {
    let mut g = NodeGraph::new();
    let a = g.add_node(value_node("a", SocketType::Float));
    let b = g.add_node(value_node("b", SocketType::Int));
    let mut entries: Vec<(u64, String)> = g.nodes().into_iter().map(|(id, n)| (id, n.label.clone())).collect();
    entries.sort();
    assert_eq!(entries, vec![(a, "a".to_string()), (b, "b".to_string())]);
}
