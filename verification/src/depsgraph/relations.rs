//! Relation builder: high-level API for constructing common dependency
//! patterns.

use vstd::prelude::*;
use vstd::string::*;

use super::builder::{dependency_added, deps_of, dependents_of, id_lookup_entries, push_if_absent, Depsgraph};
use crate::index_map::entries_insert;
use super::node::{ComponentType, DepNode, DepNodeType, IdType};
use super::NodeId;

verus! {

/// High-level builder for creating common dependency graph patterns.
pub struct RelationBuilder<'a> {
    /// The graph being built.
    pub graph: &'a mut Depsgraph,
}

impl<'a> RelationBuilder<'a> {
    pub open spec fn graph_view(&self) -> Depsgraph {
        *self.graph
    }

    pub fn new(graph: &'a mut Depsgraph) -> (r: RelationBuilder<'a>)
        ensures
            r.graph_view() == *old(graph),
            *final(graph) == *final(r.graph),
    {
        RelationBuilder { graph }
    }

    /// Add a time source node (root of the graph).
    pub fn add_time_source(&mut self) -> (id: NodeId)
        requires
            old(self).graph_view().nodes@.len() < u32::MAX,
        ensures
            id == old(self).graph_view().nodes@.len(),
            final(self).graph_view().nodes@.len() == id + 1,
            final(self).graph_view().nodes@[id as int].node_type == DepNodeType::TimeSource,
            final(self).graph_view().nodes@[id as int].label@ == "TimeSource"@,
    {
        self.graph.add_node("TimeSource", DepNodeType::TimeSource)
    }
}

/// `name/suffix`.
pub fn join_label(name: &str, suffix: &str) -> (r: String)
    ensures
        r@ == name@ + "/"@ + suffix@,
{
    let mut r = String::from_str(name);
    r.append("/");
    r.append(suffix);
    r
}

/// Node IDs for a standard object.
pub struct ObjectNodes {
    pub id: NodeId,
    pub transform: NodeId,
    pub animation: NodeId,
    /// Drivers / Parameters node (evaluated after animation, before transform).
    pub drivers: NodeId,
    /// Constraints node (evaluated after transform, before geometry).
    pub constraints: NodeId,
    pub geometry: Option<NodeId>,
}

/// Node IDs for an armature object.
pub struct ArmatureNodes {
    pub object: ObjectNodes,
    pub pose: NodeId,
    pub bones: Vec<(String, NodeId)>,
}

/// The nodes of an object added at position `b` of the table: the ID node,
/// then animation, parameters (drivers), transform, constraints and, with
/// geometry, a geometry node, wired in evaluation order.
pub open spec fn object_added(g: Depsgraph, b: int, name: Seq<char>, r: ObjectNodes) -> bool {
    let n = g.nodes@;
    &&& r.id == b
    &&& r.animation == b + 1
    &&& r.drivers == b + 2
    &&& r.transform == b + 3
    &&& r.constraints == b + 4
    &&& n[b].label@ == "ID:"@ + name
    &&& n[b + 1].label@ == name + "/"@ + "Animation"@
    &&& n[b + 2].label@ == name + "/"@ + "Parameters"@
    &&& n[b + 3].label@ == name + "/"@ + "Transform"@
    &&& n[b + 4].label@ == name + "/"@ + "Constraints"@
    &&& n[b].node_type == DepNodeType::Id(IdType::Object)
    &&& n[b + 1].node_type == DepNodeType::Component(ComponentType::Animation)
    &&& n[b + 2].node_type == DepNodeType::Component(ComponentType::Parameters)
    &&& n[b + 3].node_type == DepNodeType::Component(ComponentType::Transform)
    &&& n[b + 4].node_type == DepNodeType::Component(ComponentType::Constraints)
    &&& deps_of(n, b) == Seq::<NodeId>::empty()
    &&& deps_of(n, b + 1) == seq![r.id]
    &&& deps_of(n, b + 2) == seq![r.animation]
    &&& deps_of(n, b + 3) == seq![r.animation, r.drivers]
    &&& deps_of(n, b + 4) == seq![r.transform]
    &&& dependents_of(n, b) == seq![r.animation]
    &&& dependents_of(n, b + 1) == seq![r.drivers, r.transform]
    &&& dependents_of(n, b + 2) == seq![r.transform]
    &&& match r.geometry {
        Some(geo) => {
            &&& geo == b + 5
            &&& n[b + 5].label@ == name + "/"@ + "Geometry"@
            &&& n[b + 5].node_type == DepNodeType::Component(ComponentType::Geometry)
            &&& deps_of(n, b + 5) == seq![r.constraints]
            &&& dependents_of(n, b + 5) == Seq::<NodeId>::empty()
            &&& dependents_of(n, b + 4) == seq![geo]
            &&& dependents_of(n, b + 3) == seq![r.constraints]
        },
        None => {
            &&& dependents_of(n, b + 4) == Seq::<NodeId>::empty()
            &&& dependents_of(n, b + 3) == seq![r.constraints]
        },
    }
}

/// Bone `j` of an armature whose object starts at position `b`: its entry
/// in `bones` names it and gives its node, which sits at `b + 6 + j`, is
/// labelled `name/bone/Bone` and depends on the pose node alone.
pub open spec fn bone_added(
    n: Seq<DepNode>,
    bones: Seq<(String, NodeId)>,
    bone_names: Seq<&str>,
    name: Seq<char>,
    b: int,
    pose: NodeId,
    j: int,
) -> bool {
    &&& bones[j].0@ == bone_names[j]@
    &&& bones[j].1 == b + 6 + j
    &&& n[b + 6 + j].label@ == name + "/"@ + bone_names[j]@ + "/"@ + "Bone"@
    &&& n[b + 6 + j].node_type == DepNodeType::Component(ComponentType::Bone)
    &&& deps_of(n, b + 6 + j) == seq![pose]
}

/// Appending to an empty list.
proof fn push_if_absent_empty(x: NodeId, y: NodeId)
    ensures
        push_if_absent(Seq::<NodeId>::empty(), y) == seq![y],
        push_if_absent(Seq::<NodeId>::empty(), x) == seq![x],
{
    assert(Seq::<NodeId>::empty().push(y) =~= seq![y]);
    assert(Seq::<NodeId>::empty().push(x) =~= seq![x]);
}

/// Appending a new entry to a one-entry list.
proof fn push_if_absent_one(s: Seq<NodeId>, x: NodeId)
    requires
        s.len() == 1,
        s[0] != x,
    ensures
        push_if_absent(s, x) == seq![s[0], x],
{
    assert(!s.contains(x));
    assert(s.push(x) =~= seq![s[0], x]);
}

impl<'a> RelationBuilder<'a> {
    /// Add an object with standard components, in Blender's evaluation
    /// order: animation, drivers, transform, constraints, then geometry.
    pub fn add_object(&mut self, name: &str, has_geometry: bool) -> (r: ObjectNodes)
        requires
            old(self).graph_view().nodes@.len() + 6 < u32::MAX,
        ensures
            object_added(final(self).graph_view(), old(self).graph_view().nodes@.len() as int, name@, r),
            r.geometry is Some <==> has_geometry,
            id_lookup_entries(final(self).graph_view().id_lookup) == entries_insert(
                id_lookup_entries(old(self).graph_view().id_lookup),
                name@,
                r.id,
            ),
            final(self).graph_view().current_frame == old(self).graph_view().current_frame,
            final(self).graph_view().needs_rebuild == old(self).graph_view().needs_rebuild,
            final(self).graph_view().eval_order == old(self).graph_view().eval_order,
            final(self).graph_view().nodes@.len() == old(self).graph_view().nodes@.len() + if has_geometry {
                6int
            } else {
                5int
            },
            forall|i: int|
                0 <= i < old(self).graph_view().nodes@.len() ==> #[trigger] final(self).graph_view().nodes@[i]
                    == old(self).graph_view().nodes@[i],
            old(self).graph_view().wf() ==> final(self).graph_view().wf(),
    {
        let ghost b = self.graph.nodes@.len() as int;
        let id_node = self.graph.add_id_node(name, IdType::Object);
        let animation = self.graph.add_node(
            join_label(name, "Animation").as_str(),
            DepNodeType::Component(ComponentType::Animation),
        );
        let drivers = self.graph.add_node(
            join_label(name, "Parameters").as_str(),
            DepNodeType::Component(ComponentType::Parameters),
        );
        let transform = self.graph.add_node(
            join_label(name, "Transform").as_str(),
            DepNodeType::Component(ComponentType::Transform),
        );
        let constraints = self.graph.add_node(
            join_label(name, "Constraints").as_str(),
            DepNodeType::Component(ComponentType::Constraints),
        );
        proof {
            let n = self.graph.nodes@;
            assert(n.len() == b + 5);
            assert(deps_of(n, b) =~= Seq::<NodeId>::empty());
            assert(dependents_of(n, b) =~= Seq::<NodeId>::empty());
        }
        // Animation depends on the ID node.
        self.graph.add_dependency(animation, id_node);
        proof { push_if_absent_empty(animation, id_node); }
        assert(deps_of(self.graph.nodes@, b + 1) == seq![id_node]);
        assert(dependents_of(self.graph.nodes@, b) == seq![animation]);
        // Drivers depend on animation.
        self.graph.add_dependency(drivers, animation);
        proof { push_if_absent_empty(drivers, animation); }
        assert(deps_of(self.graph.nodes@, b + 2) == seq![animation]);
        assert(dependents_of(self.graph.nodes@, b + 1) == seq![drivers]);
        // Transform depends on animation and drivers.
        self.graph.add_dependency(transform, animation);
        proof { push_if_absent_empty(transform, animation); }
        proof { push_if_absent_one(seq![drivers], transform); }
        assert(deps_of(self.graph.nodes@, b + 3) == seq![animation]);
        assert(dependents_of(self.graph.nodes@, b + 1) == seq![drivers, transform]);
        self.graph.add_dependency(transform, drivers);
        proof { push_if_absent_one(seq![animation], drivers); }
        assert(deps_of(self.graph.nodes@, b + 3) == seq![animation, drivers]);
        assert(dependents_of(self.graph.nodes@, b + 2) == seq![transform]);
        // Constraints depend on transform.
        self.graph.add_dependency(constraints, transform);
        proof { push_if_absent_empty(constraints, transform); }
        assert(deps_of(self.graph.nodes@, b + 4) == seq![transform]);
        assert(dependents_of(self.graph.nodes@, b + 3) == seq![constraints]);
        let ghost g5 = self.graph.nodes@;
        assert(dependents_of(g5, b + 4) =~= Seq::<NodeId>::empty());
        let geometry = if has_geometry {
            let geo = self.graph.add_node(
                join_label(name, "Geometry").as_str(),
                DepNodeType::Component(ComponentType::Geometry),
            );
            assert(deps_of(self.graph.nodes@, b + 5) =~= Seq::<NodeId>::empty());
            assert(dependents_of(self.graph.nodes@, b + 5) =~= Seq::<NodeId>::empty());
            assert(dependents_of(self.graph.nodes@, b + 4) =~= Seq::<NodeId>::empty());
            // Geometry depends on constraints (the final transform).
            self.graph.add_dependency(geo, constraints);
            proof { push_if_absent_empty(geo, constraints); }
            assert(deps_of(self.graph.nodes@, b + 5) == seq![constraints]);
            assert(dependents_of(self.graph.nodes@, b + 4) == seq![geo]);
            assert(dependents_of(self.graph.nodes@, b + 5) =~= Seq::<NodeId>::empty());
            Some(geo)
        } else {
            None
        };
        let r = ObjectNodes { id: id_node, transform, animation, drivers, constraints, geometry };
        proof {
            let n = self.graph.nodes@;
            assert(deps_of(n, b + 3) == seq![animation, drivers]);
            assert(dependents_of(n, b + 1) == seq![drivers, transform]);
        }
        r
    }

    /// Add an armature object with pose evaluation: an object without
    /// geometry, a pose node depending on the object's constraints and
    /// animation, and one bone node per bone name depending on the pose.
    pub fn add_armature_object(&mut self, name: &str, bone_names: &[&str]) -> (r: ArmatureNodes)
        requires
            old(self).graph_view().nodes@.len() + 6 + bone_names@.len() < u32::MAX,
        ensures
            ({
                let b = old(self).graph_view().nodes@.len() as int;
                let n = final(self).graph_view().nodes@;
                &&& n.len() == b + 6 + bone_names@.len()
                &&& r.object.id == b && r.object.animation == b + 1 && r.object.drivers == b + 2
                &&& r.object.transform == b + 3 && r.object.constraints == b + 4
                &&& r.object.geometry is None
                &&& r.pose == b + 5
                &&& id_lookup_entries(final(self).graph_view().id_lookup) == entries_insert(
                    id_lookup_entries(old(self).graph_view().id_lookup),
                    name@,
                    r.object.id,
                )
                &&& n[b + 5].label@ == name@ + "/"@ + "Pose"@
                &&& n[b + 5].node_type == DepNodeType::Component(ComponentType::Pose)
                &&& deps_of(n, b + 5) == seq![r.object.constraints, r.object.animation]
                &&& r.bones@.len() == bone_names@.len()
                &&& forall|k: int|
                    0 <= k < bone_names@.len() ==> #[trigger] bone_added(n, r.bones@, bone_names@, name@, b, r.pose, k)
                &&& forall|i: int| 0 <= i < b ==> #[trigger] n[i] == old(self).graph_view().nodes@[i]
                &&& old(self).graph_view().wf() ==> final(self).graph_view().wf()
            }),
    {
        let ghost b = self.graph.nodes@.len() as int;
        let obj = self.add_object(name, false);
        let pose = self.graph.add_node(
            join_label(name, "Pose").as_str(),
            DepNodeType::Component(ComponentType::Pose),
        );
        assert(deps_of(self.graph.nodes@, b + 5) =~= Seq::<NodeId>::empty());
        self.graph.add_dependency(pose, obj.constraints);
        proof { push_if_absent_empty(pose, obj.constraints); }
        self.graph.add_dependency(pose, obj.animation);
        proof { push_if_absent_one(seq![obj.constraints], obj.animation); }
        assert(deps_of(self.graph.nodes@, b + 5) == seq![obj.constraints, obj.animation]);
        let ghost lookup = self.graph.id_lookup;
        assert(id_lookup_entries(lookup) == entries_insert(
            id_lookup_entries(old(self).graph_view().id_lookup),
            name@,
            obj.id,
        ));
        let mut bones: Vec<(String, NodeId)> = Vec::new();
        let mut k: usize = 0;
        while k < bone_names.len()
            invariant
                self.graph.id_lookup == lookup,
                id_lookup_entries(lookup) == entries_insert(
                    id_lookup_entries(old(self).graph_view().id_lookup),
                    name@,
                    obj.id,
                ),
                k <= bone_names@.len(),
                b + 6 + bone_names@.len() < u32::MAX,
                pose == b + 5,
                self.graph.nodes@.len() == b + 6 + k,
                deps_of(self.graph.nodes@, b + 5) == seq![obj.constraints, obj.animation],
                self.graph.nodes@[b + 5].label@ == name@ + "/"@ + "Pose"@,
                self.graph.nodes@[b + 5].node_type == DepNodeType::Component(ComponentType::Pose),
                bones@.len() == k,
                forall|j: int|
                    0 <= j < k ==> #[trigger] bone_added(self.graph.nodes@, bones@, bone_names@, name@, b, pose, j),
                forall|i: int| 0 <= i < b ==> #[trigger] self.graph.nodes@[i] == old(self).graph_view().nodes@[i],
                old(self).graph_view().wf() ==> self.graph.wf(),
            decreases bone_names@.len() - k,
        {
            let bone_name = bone_names[k];
            let mut label = join_label(name, bone_name);
            label.append("/Bone");
            proof {
                reveal_strlit("/Bone");
                reveal_strlit("/");
                reveal_strlit("Bone");
                assert("/Bone"@ =~= "/"@ + "Bone"@);
            }
            let ghost before = self.graph.nodes@;
            let ghost old_bones = bones@;
            let bone = self.graph.add_node(label.as_str(), DepNodeType::Component(ComponentType::Bone));
            let ghost mid = self.graph.nodes@;
            assert(deps_of(mid, bone as int) =~= Seq::<NodeId>::empty());
            self.graph.add_dependency(bone, pose);
            proof { push_if_absent_empty(bone, pose); }
            bones.push((String::from_str(bone_name), bone));
            proof {
                let n = self.graph.nodes@;
                assert(bone == b + 6 + k);
                assert(label@ =~= name@ + "/"@ + bone_names@[k as int]@ + "/"@ + "Bone"@);
                assert(n[bone as int].label == mid[bone as int].label);
                assert(deps_of(n, bone as int) == seq![pose]);
                assert(deps_of(n, b + 5) == deps_of(mid, b + 5));
                assert(n[b + 5] == mid[b + 5] || n[b + 5].label == mid[b + 5].label);
                assert(bone_added(n, bones@, bone_names@, name@, b, pose, k as int));
                assert forall|j: int| 0 <= j < k + 1 implies #[trigger] bone_added(n, bones@, bone_names@, name@, b, pose, j) by {
                    if j < k {
                        assert(bone_added(before, old_bones, bone_names@, name@, b, pose, j));
                        assert(n[b + 6 + j] == mid[b + 6 + j]);
                        assert(mid[b + 6 + j] == before[b + 6 + j]);
                        assert(bones@[j] == old_bones[j]);
                    }
                }
                assert forall|i: int| 0 <= i < b implies #[trigger] n[i] == old(self).graph_view().nodes@[i] by {
                    assert(n[i] == mid[i]);
                    assert(mid[i] == before[i]);
                }
            }
            k = k + 1;
        }
        ArmatureNodes { object: obj, pose, bones }
    }

    /// Add a constraint dependency: the constrained node depends on the
    /// target.
    pub fn add_constraint_relation(&mut self, constrained: NodeId, target: NodeId)
        ensures
            dependency_added(old(self).graph_view(), final(self).graph_view(), constrained, target),
            old(self).graph_view().wf() ==> final(self).graph_view().wf(),
    {
        self.graph.add_dependency(constrained, target);
    }

    /// Add a parent-child relationship between objects: the child's
    /// transform depends on the parent's.
    pub fn add_parent_relation(&mut self, child_transform: NodeId, parent_transform: NodeId)
        ensures
            dependency_added(old(self).graph_view(), final(self).graph_view(), child_transform, parent_transform),
            old(self).graph_view().wf() ==> final(self).graph_view().wf(),
    {
        self.add_constraint_relation(child_transform, parent_transform);
    }
}

} // verus!
