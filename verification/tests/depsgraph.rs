use forge3d::depsgraph::builder::Depsgraph;
use forge3d::depsgraph::evaluate::{evaluate_graph, evaluate_sequential, tag_id_update, tag_time_update};
use forge3d::depsgraph::node::{ComponentType, DepNodeType, IdType};
use forge3d::depsgraph::relations::{join_label, RelationBuilder};
use forge3d::depsgraph::schedule::{close_level, finish_level, max_depth, start_level};
use forge3d::depsgraph::tag::DirtyTags;
use forge3d::depsgraph::{DepsgraphError, NodeId};

fn chain(n: usize) -> Depsgraph {
    // node i depends on node i-1
    let mut g = Depsgraph::new();
    for i in 0..n {
        g.add_node(&format!("n{}", i), DepNodeType::Operation);
    }
    for i in 1..n {
        g.add_dependency(i as NodeId, (i - 1) as NodeId);
    }
    g
}

fn position(order: &[NodeId], id: NodeId) -> usize {
    order.iter().position(|x| *x == id).unwrap()
}

#[test]
fn new_graph_is_empty_and_needs_rebuild() {
    let g = Depsgraph::new();
    assert_eq!(g.node_count(), 0);
    assert!(g.needs_rebuild);
    assert_eq!(g.current_frame, 0);
    assert!(g.eval_order.is_empty());
}

#[test]
fn add_nodes_and_edges_on_both_ends_once() {
    let mut g = Depsgraph::new();
    let a = g.add_node("a", DepNodeType::Operation);
    let b = g.add_node("b", DepNodeType::Operation);
    assert_eq!((a, b), (0, 1));
    g.add_dependency(b, a);
    g.add_dependency(b, a);
    assert_eq!(g.nodes[1].dependencies, vec![0]);
    assert_eq!(g.nodes[0].dependents, vec![1]);
    // An edge to a node outside the graph is ignored.
    g.add_dependency(b, 7);
    assert_eq!(g.nodes[1].dependencies, vec![0]);
}

#[test]
fn id_nodes_are_found_by_name() {
    let mut g = Depsgraph::new();
    let id = g.add_id_node("Cube", IdType::Object);
    assert_eq!(g.nodes[id as usize].label, "ID:Cube");
    assert_eq!(g.find_id("Cube"), Some(id));
    assert_eq!(g.find_id("Sphere"), None);
}

#[test]
fn eval_order_respects_dependencies_and_sets_depths() {
    let mut g = Depsgraph::new();
    let a = g.add_node("a", DepNodeType::Operation);
    let b = g.add_node("b", DepNodeType::Operation);
    let c = g.add_node("c", DepNodeType::Operation);
    let d = g.add_node("d", DepNodeType::Operation);
    g.add_dependency(a, b);
    g.add_dependency(a, c);
    g.add_dependency(b, d);
    g.add_dependency(c, d);
    g.compute_eval_order().unwrap();
    assert!(!g.needs_rebuild);
    assert_eq!(g.eval_order.len(), 4);
    let order = g.eval_order.clone();
    for node in &g.nodes {
        for dep in &node.dependencies {
            assert!(position(&order, *dep) < position(&order, node.id));
        }
    }
    assert_eq!(g.nodes[d as usize].depth, 0);
    assert_eq!(g.nodes[b as usize].depth, 1);
    assert_eq!(g.nodes[c as usize].depth, 1);
    assert_eq!(g.nodes[a as usize].depth, 2);
    assert_eq!(max_depth(&g), 2);
}

#[test]
fn cycle_is_reported_and_graph_unchanged() {
    let mut g = chain(3);
    g.add_dependency(0, 2);
    match g.compute_eval_order() {
        Err(DepsgraphError::CyclicDependency(label)) => assert!(label.starts_with('n')),
        other => panic!("unexpected {:?}", other),
    }
    assert!(g.needs_rebuild);
    assert!(g.eval_order.is_empty());
}

#[test]
fn tag_dirty_follows_dependents() {
    let mut g = chain(4);
    g.add_node("lonely", DepNodeType::Operation);
    g.tag_dirty(1, DirtyTags::transform());
    assert_eq!(g.nodes[0].dirty_tags, DirtyTags(0));
    assert_eq!(g.nodes[1].dirty_tags, DirtyTags::transform());
    assert_eq!(g.nodes[2].dirty_tags, DirtyTags::transform());
    assert_eq!(g.nodes[3].dirty_tags, DirtyTags::transform());
    assert_eq!(g.nodes[4].dirty_tags, DirtyTags(0));
    // A second tag adds its flag.
    g.tag_dirty(2, DirtyTags::geometry());
    assert_eq!(g.nodes[1].dirty_tags, DirtyTags(1));
    assert_eq!(g.nodes[3].dirty_tags, DirtyTags(3));
}

#[test]
fn evaluate_calls_dirty_nodes_in_order() {
    let mut g = chain(3);
    g.compute_eval_order().unwrap();
    g.tag_dirty(1, DirtyTags::transform());
    let seen = std::cell::RefCell::new(Vec::new());
    let f = |id: NodeId, label: &str| -> Result<(), String> {
        seen.borrow_mut().push((id, label.to_string()));
        Ok(())
    };
    evaluate_sequential(&mut g, &f).unwrap();
    assert_eq!(*seen.borrow(), vec![(1, "n1".to_string()), (2, "n2".to_string())]);
    for node in &g.nodes {
        assert!(node.evaluated);
        assert_eq!(node.dirty_tags, DirtyTags(0));
    }
}

#[test]
fn evaluate_stops_at_first_failure() {
    let mut g = chain(3);
    g.compute_eval_order().unwrap();
    g.tag_dirty(0, DirtyTags::transform());
    let f = |id: NodeId, _label: &str| -> Result<(), String> {
        if id == 1 {
            Err("boom".to_string())
        } else {
            Ok(())
        }
    };
    match evaluate_sequential(&mut g, &f) {
        Err(DepsgraphError::EvalFailed(label, msg)) => {
            assert_eq!(label, "n1");
            assert_eq!(msg, "boom");
        }
        other => panic!("unexpected {:?}", other),
    }
    assert!(g.nodes[0].evaluated);
    assert!(!g.nodes[1].evaluated);
    assert!(!g.nodes[2].evaluated);
}

#[test]
fn evaluate_graph_rebuilds_first() {
    let mut g = chain(2);
    g.tag_dirty(0, DirtyTags::animation());
    let f = |_id: NodeId, _label: &str| -> Result<(), String> { Ok(()) };
    evaluate_graph(&mut g, &f).unwrap();
    assert!(!g.needs_rebuild);
    assert!(g.nodes.iter().all(|n| n.evaluated));

    let mut cyclic = chain(2);
    cyclic.add_dependency(0, 1);
    match evaluate_graph(&mut cyclic, &f) {
        Err(DepsgraphError::CyclicDependency(_)) => {}
        other => panic!("unexpected {:?}", other),
    }
}

#[test]
fn time_update_tags_time_sources_and_dependents() {
    let mut g = Depsgraph::new();
    let (time, obj) = {
        let mut rb = RelationBuilder::new(&mut g);
        let time = rb.add_time_source();
        let obj = rb.add_object("Cube", true);
        rb.add_constraint_relation(obj.animation, time);
        (time, obj)
    };
    tag_time_update(&mut g);
    let expected = DirtyTags(8 | 4);
    assert_eq!(g.nodes[time as usize].dirty_tags, expected);
    assert_eq!(g.nodes[obj.animation as usize].dirty_tags, expected);
    assert_eq!(g.nodes[obj.transform as usize].dirty_tags, expected);
    assert_eq!(g.nodes[obj.id as usize].dirty_tags, DirtyTags(0));
}

#[test]
fn id_update_tags_named_object() {
    let mut g = Depsgraph::new();
    let obj = RelationBuilder::new(&mut g).add_object("Cube", false);
    tag_id_update(&mut g, "Cube", DirtyTags::shading());
    assert_eq!(g.nodes[obj.id as usize].dirty_tags, DirtyTags::shading());
    tag_id_update(&mut g, "Missing", DirtyTags::geometry());
    assert!(g.nodes.iter().all(|n| n.dirty_tags.0 & 2 == 0));
}

#[test]
fn object_components_are_chained() {
    let mut g = Depsgraph::new();
    let obj = RelationBuilder::new(&mut g).add_object("Cube", true);
    assert_eq!(g.node_count(), 6);
    assert_eq!(g.nodes[obj.transform as usize].label, "Cube/Transform");
    let geometry = obj.geometry.unwrap();
    g.compute_eval_order().unwrap();
    let order = g.eval_order.clone();
    assert!(position(&order, obj.animation) < position(&order, obj.transform));
    assert!(position(&order, obj.transform) < position(&order, obj.constraints));
    assert!(position(&order, obj.constraints) < position(&order, geometry));
}

#[test]
fn armature_bones_depend_on_pose() {
    let mut g = Depsgraph::new();
    let arm = RelationBuilder::new(&mut g).add_armature_object("Rig", &["Root", "Arm"]);
    assert_eq!(g.node_count(), 8);
    assert_eq!(g.nodes[arm.pose as usize].label, "Rig/Pose");
    assert_eq!(g.nodes[arm.pose as usize].dependencies, vec![arm.object.constraints, arm.object.animation]);
    assert_eq!(arm.bones.len(), 2);
    assert_eq!(arm.bones[0].0, "Root");
    assert_eq!(g.nodes[arm.bones[1].1 as usize].label, "Rig/Arm/Bone");
    assert!(g.nodes[arm.bones[1].1 as usize].dependencies.contains(&arm.pose));
}

#[test]
fn parent_relation_orders_transforms() {
    let mut g = Depsgraph::new();
    let (parent, child) = {
        let mut rb = RelationBuilder::new(&mut g);
        let parent = rb.add_object("Parent", false);
        let child = rb.add_object("Child", false);
        rb.add_parent_relation(child.transform, parent.transform);
        (parent, child)
    };
    g.compute_eval_order().unwrap();
    let order = g.eval_order.clone();
    assert!(position(&order, parent.transform) < position(&order, child.transform));
    assert_eq!(join_label("a", "b"), "a/b");
}

#[test]
fn level_schedule_batches_dirty_nodes_by_depth() {
    let mut g = chain(3);
    g.add_node("side", DepNodeType::Component(ComponentType::Shading));
    g.compute_eval_order().unwrap();
    g.tag_dirty(1, DirtyTags::transform());
    g.reset_evaluated();
    let depth0 = start_level(&mut g, 0);
    assert!(depth0.is_empty());
    assert!(g.nodes[0].evaluated);
    assert!(g.nodes[3].evaluated);
    let depth1 = start_level(&mut g, 1);
    assert_eq!(depth1, vec![(1, "n1".to_string())]);
    assert!(g.nodes[1].dependencies_satisfied(&g.nodes));
    finish_level(&mut g, &depth1);
    assert!(g.nodes[1].evaluated);
    assert_eq!(g.nodes[1].dirty_tags, DirtyTags(0));
    let depth2 = start_level(&mut g, 2);
    assert_eq!(depth2, vec![(2, "n2".to_string())]);
}

#[test]
fn dirty_tag_flags() {
    let t = DirtyTags::transform().union(DirtyTags::geometry());
    assert_eq!(t.bits(), 3);
    assert!(t.contains(DirtyTags::transform()));
    assert!(!t.contains(DirtyTags::time()));
    assert!(t.intersects(DirtyTags::geometry()));
    assert!(!t.intersects(DirtyTags::shading()));
    assert!(DirtyTags::empty().is_empty());
    assert!(DirtyTags::all().contains(t));
    assert_eq!(DirtyTags::copy_on_write().bits(), 128);
}

#[test]
fn node_dirty_and_clean() {
    let mut g = chain(2);
    g.nodes[1].mark_dirty(DirtyTags::particles());
    assert!(!g.nodes[1].evaluated);
    assert!(!g.nodes[1].dependencies_satisfied(&g.nodes));
    g.nodes[0].mark_clean();
    assert!(g.nodes[0].evaluated);
    assert!(g.nodes[1].dependencies_satisfied(&g.nodes));
    g.nodes[1].mark_clean();
    assert_eq!(g.nodes[1].dirty_tags, DirtyTags(0));
}

#[test]
fn time_update_reaches_past_nodes_already_tagged() {
    let mut g = Depsgraph::new();
    let (time, a, b) = {
        let mut rb = RelationBuilder::new(&mut g);
        let time = rb.add_time_source();
        let a = rb.graph.add_node("a", DepNodeType::Operation);
        let b = rb.graph.add_node("b", DepNodeType::Operation);
        rb.add_constraint_relation(a, time);
        rb.add_constraint_relation(b, a);
        (time, a, b)
    };
    // `a` already holds both flags: the walk still goes on to `b`.
    g.nodes[a as usize].dirty_tags = DirtyTags(12);
    g.nodes[a as usize].evaluated = true;
    tag_time_update(&mut g);
    assert_eq!(g.nodes[time as usize].dirty_tags, DirtyTags(12));
    assert!(!g.nodes[a as usize].evaluated);
    assert_eq!(g.nodes[a as usize].dirty_tags, DirtyTags(12));
    assert_eq!(g.nodes[b as usize].dirty_tags, DirtyTags(12));
}

#[test]
fn tag_dirty_marks_every_dependent() {
    // A <- B: B depends on A. A already holds the tag.
    let mut g = chain(2);
    g.nodes[0].dirty_tags = DirtyTags::transform();
    g.tag_dirty(0, DirtyTags::transform());
    assert_eq!(g.nodes[1].dirty_tags, DirtyTags::transform());
    assert!(!g.nodes[1].evaluated);
    // An id outside the graph changes nothing.
    let before: Vec<u32> = g.nodes.iter().map(|n| n.dirty_tags.0).collect();
    g.tag_dirty(9, DirtyTags::geometry());
    let after: Vec<u32> = g.nodes.iter().map(|n| n.dirty_tags.0).collect();
    assert_eq!(before, after);
}

#[test]
fn equal_depth_nodes_are_independent() {
    let mut g = Depsgraph::new();
    let mut rb = RelationBuilder::new(&mut g);
    let one = rb.add_object("One", true);
    let two = rb.add_object("Two", false);
    rb.add_parent_relation(two.transform, one.transform);
    g.compute_eval_order().unwrap();
    for x in &g.nodes {
        for y in &g.nodes {
            if x.depth == y.depth {
                assert!(!x.dependencies.contains(&y.id));
            }
        }
        for d in &x.dependencies {
            assert!(g.nodes[*d as usize].depth < x.depth);
        }
    }
}

#[test]
fn depsgraph_error_messages() {
    assert_eq!(
        DepsgraphError::NodeNotFound("n".to_string()).to_string(),
        "node `n` not found in the dependency graph"
    );
    assert_eq!(
        DepsgraphError::CyclicDependency("n".to_string()).to_string(),
        "cyclic dependency detected involving node `n`"
    );
    assert_eq!(
        DepsgraphError::EvalFailed("n".to_string(), "m".to_string()).to_string(),
        "evaluation failed for node `n`: m"
    );
    assert_eq!(DepsgraphError::BuildError("b".to_string()).to_string(), "graph build error: b");
}

#[test]
fn well_formedness_check() {
    let mut g = chain(3);
    assert!(g.is_well_formed());
    // An edge recorded on one end only.
    g.nodes[0].dependents.clear();
    assert!(!g.is_well_formed());
    let mut h = chain(2);
    h.nodes[1].id = 5;
    assert!(!h.is_well_formed());
    let mut k = chain(2);
    k.nodes[1].dependencies.push(9);
    assert!(!k.is_well_formed());
}

#[test]
fn cycle_error_names_a_node_on_the_cycle() {
    let mut g = Depsgraph::new();
    let a = g.add_node("A", DepNodeType::Operation);
    let b = g.add_node("B", DepNodeType::Operation);
    let c = g.add_node("C", DepNodeType::Operation);
    g.add_dependency(a, b);
    g.add_dependency(b, c);
    g.add_dependency(c, b);
    match g.compute_eval_order() {
        Err(DepsgraphError::CyclicDependency(l)) => assert!(l == "B" || l == "C", "{}", l),
        other => panic!("unexpected {:?}", other),
    }
}

#[test]
fn dirty_tags_or_assign() {
    let mut t = DirtyTags::empty();
    t |= DirtyTags::time();
    t |= DirtyTags::animation();
    assert_eq!(t, DirtyTags(12));
}

#[test]
fn close_level_stops_on_first_error_or_marks_clean() {
    let mut g = chain(2);
    g.compute_eval_order().unwrap();
    g.tag_dirty(0, DirtyTags::transform());
    let batch = start_level(&mut g, 0);
    let errs = vec![("n0".to_string(), "bad".to_string()), ("x".to_string(), "y".to_string())];
    match close_level(&mut g, &batch, &errs) {
        Err(DepsgraphError::EvalFailed(l, m)) => {
            assert_eq!(l, "n0");
            assert_eq!(m, "bad");
        }
        other => panic!("unexpected {:?}", other),
    }
    assert!(!g.nodes[0].evaluated);
    close_level(&mut g, &batch, &Vec::new()).unwrap();
    assert!(g.nodes[0].evaluated);
    assert_eq!(g.nodes[0].dirty_tags, DirtyTags(0));
}

#[test]
fn add_object_registers_its_name() {
    let mut g = Depsgraph::new();
    let obj = RelationBuilder::new(&mut g).add_object("Cube", false);
    assert_eq!(g.find_id("Cube"), Some(obj.id));
}

#[test]
fn evaluate_failure_keeps_tags_from_failing_node_on() {
    let mut g = chain(4);
    g.compute_eval_order().unwrap();
    g.tag_dirty(0, DirtyTags::geometry());
    let calls = std::cell::RefCell::new(Vec::new());
    let f = |id: NodeId, _label: &str| -> Result<(), String> {
        calls.borrow_mut().push(id);
        if id == 2 {
            Err("bad".to_string())
        } else {
            Ok(())
        }
    };
    match evaluate_sequential(&mut g, &f) {
        Err(DepsgraphError::EvalFailed(label, msg)) => {
            assert_eq!(label, "n2");
            assert_eq!(msg, "bad");
        }
        other => panic!("unexpected {:?}", other),
    }
    assert_eq!(*calls.borrow(), vec![0, 1, 2]);
    assert!(g.nodes[0].evaluated && g.nodes[1].evaluated);
    assert_eq!(g.nodes[0].dirty_tags, DirtyTags(0));
    assert_eq!(g.nodes[1].dirty_tags, DirtyTags(0));
    assert!(!g.nodes[2].evaluated && !g.nodes[3].evaluated);
    assert_eq!(g.nodes[2].dirty_tags, DirtyTags::geometry());
    assert_eq!(g.nodes[3].dirty_tags, DirtyTags::geometry());
}

#[test]
fn evaluate_graph_on_cycle_calls_nothing_and_changes_nothing() {
    let mut g = chain(3);
    g.add_dependency(0, 2);
    g.tag_dirty(0, DirtyTags::transform());
    let before_tags: Vec<DirtyTags> = g.nodes.iter().map(|n| n.dirty_tags).collect();
    let f = |_id: NodeId, _label: &str| -> Result<(), String> { panic!("evaluator called") };
    match evaluate_graph(&mut g, &f) {
        Err(DepsgraphError::CyclicDependency(label)) => {
            assert!(label == "n0" || label == "n1" || label == "n2");
        }
        other => panic!("unexpected {:?}", other),
    }
    assert!(g.needs_rebuild);
    assert!(g.eval_order.is_empty());
    let after_tags: Vec<DirtyTags> = g.nodes.iter().map(|n| n.dirty_tags).collect();
    assert_eq!(before_tags, after_tags);
}

#[test]
fn evaluate_graph_without_dirty_nodes_succeeds() {
    let mut g = chain(3);
    let f = |_id: NodeId, _label: &str| -> Result<(), String> { Err("never".to_string()) };
    evaluate_graph(&mut g, &f).unwrap();
    assert!(g.nodes.iter().all(|n| n.evaluated));
    assert_eq!(g.eval_order, vec![0, 1, 2]);
}

#[test]
fn eval_order_is_first_in_first_out() {
    let mut g = Depsgraph::new();
    for i in 0..3 {
        g.add_node(&format!("n{}", i), DepNodeType::Operation);
    }
    g.add_dependency(1, 0);
    g.compute_eval_order().unwrap();
    assert_eq!(g.eval_order, vec![0, 2, 1]);

    let mut h = Depsgraph::new();
    for i in 0..5 {
        h.add_node(&format!("m{}", i), DepNodeType::Operation);
    }
    h.add_dependency(2, 0);
    h.add_dependency(3, 1);
    h.add_dependency(4, 2);
    h.add_dependency(4, 3);
    h.add_dependency(1, 0);
    h.compute_eval_order().unwrap();
    assert_eq!(h.eval_order, vec![0, 2, 1, 3, 4]);
}
