//! Dependency graph nodes: evaluation units, data blocks and their
//! components.

use vstd::prelude::*;

use super::tag::DirtyTags;
use super::NodeId;

verus! {

/// Type of component within a data block.
#[derive(Debug, Clone, Copy, PartialEq, Eq, Hash, Structural)]
pub enum ComponentType {
    /// Transform evaluation (location, rotation, scale).
    Transform,
    /// Geometry evaluation (mesh data, modifiers).
    Geometry,
    /// Animation evaluation (F-Curves, NLA).
    Animation,
    /// Constraint evaluation.
    Constraints,
    /// Bone transform (armature-specific).
    Bone,
    /// Particle system evaluation.
    Particles,
    /// Shading / material evaluation.
    Shading,
    /// Parameters (generic property updates).
    Parameters,
    /// Pose evaluation (full armature).
    Pose,
    /// Cache (physics / simulation cache).
    Cache,
    /// Proxy / override evaluation.
    Proxy,
    /// Synchronization barrier.
    Synchronization,
}

/// A component node in the dependency graph.
#[derive(Debug)]
pub struct ComponentNode {
    /// Component type.
    pub component_type: ComponentType,
    /// Name of the owning data block.
    pub owner_name: String,
    /// Whether this component needs evaluation.
    pub needs_update: bool,
}

impl ComponentNode {
    pub fn new(component_type: ComponentType, owner_name: &str) -> (r: ComponentNode)
        ensures
            r.component_type == component_type,
            r.owner_name@ == owner_name@,
            r.needs_update,
    {
        ComponentNode { component_type, owner_name: owner_name.to_string(), needs_update: true }
    }
}

/// Type of ID data block.
#[derive(Debug, Clone, Copy, PartialEq, Eq, Hash, Structural)]
pub enum IdType {
    /// Scene.
    Scene,
    /// Object (mesh, armature, empty, camera, light, etc.).
    Object,
    /// Mesh data.
    Mesh,
    /// Armature data.
    Armature,
    /// Material.
    Material,
    /// Texture.
    Texture,
    /// Camera.
    Camera,
    /// Light / Lamp.
    Light,
    /// World settings.
    World,
    /// Particle system settings.
    Particle,
    /// Action (animation data).
    Action,
    /// Node tree (shader/compositor/geometry).
    NodeTree,
    /// Collection.
    Collection,
}

/// An ID node in the dependency graph: a single data-block (one Object, one
/// Mesh, ...).
#[derive(Debug)]
pub struct IdNode {
    /// Name of the data block.
    pub name: String,
    /// Type of the data block.
    pub id_type: IdType,
    /// Whether this ID node needs a copy-on-write.
    pub needs_cow: bool,
    /// Whether this data block has been flagged for update.
    pub needs_update: bool,
}

impl IdNode {
    pub fn new(name: &str, id_type: IdType) -> (r: IdNode)
        ensures
            r.name@ == name@,
            r.id_type == id_type,
            !r.needs_cow,
            r.needs_update,
    {
        IdNode { name: name.to_string(), id_type, needs_cow: false, needs_update: true }
    }
}

/// Classification of dependency graph nodes.
#[derive(Debug, Clone, Copy, PartialEq, Eq, Hash, Structural)]
pub enum DepNodeType {
    /// Root/time source node.
    TimeSource,
    /// ID data block (object, mesh, armature, etc.).
    Id(IdType),
    /// Component of an ID (transform, geometry, animation, etc.).
    Component(ComponentType),
    /// Operation within a component (specific evaluation step).
    Operation,
}

/// A node in the dependency graph.
#[derive(Debug)]
pub struct DepNode {
    /// Unique ID within the graph.
    pub id: NodeId,
    /// Human-readable label (for debugging/tracing).
    pub label: String,
    /// Node type classification.
    pub node_type: DepNodeType,
    /// IDs of nodes this node depends on (must be evaluated first).
    pub dependencies: Vec<NodeId>,
    /// IDs of nodes that depend on this node.
    pub dependents: Vec<NodeId>,
    /// Dirty flags indicating what needs re-evaluation.
    pub dirty_tags: DirtyTags,
    /// Whether this node has been evaluated in the current cycle.
    pub evaluated: bool,
    /// Topological sort depth (distance from root).
    pub depth: u32,
}

/// Every dependency of `node` names a node of `nodes` that has been
/// evaluated.
pub open spec fn deps_satisfied(node: DepNode, nodes: Seq<DepNode>) -> bool {
    forall|i: int|
        0 <= i < node.dependencies.len() ==> {
            let d = #[trigger] node.dependencies@[i];
            &&& d < nodes.len()
            &&& nodes[d as int].evaluated
        }
}

/// One dependency that is missing from the table or not yet evaluated,
/// wherever it stands in the list, keeps a node from being ready.
pub proof fn lemma_unready_dependency(node: DepNode, nodes: Seq<DepNode>, i: int)
    requires
        0 <= i < node.dependencies.len(),
        node.dependencies@[i] >= nodes.len() || !nodes[node.dependencies@[i] as int].evaluated,
    ensures
        !deps_satisfied(node, nodes),
{
}

/// A node whose dependencies all lie in the table and are evaluated is
/// ready; in particular one without dependencies always is.
pub proof fn lemma_ready_when_dependencies_evaluated(node: DepNode, nodes: Seq<DepNode>)
    requires
        forall|i: int|
            0 <= i < node.dependencies.len() ==> (#[trigger] node.dependencies@[i] as int) < nodes.len()
                && nodes[node.dependencies@[i] as int].evaluated,
    ensures
        deps_satisfied(node, nodes),
{
}

/// Readiness only grows as more nodes are evaluated.
pub proof fn lemma_ready_monotone(node: DepNode, before: Seq<DepNode>, after: Seq<DepNode>)
    requires
        before.len() == after.len(),
        forall|j: int| 0 <= j < before.len() && (#[trigger] before[j]).evaluated ==> after[j].evaluated,
        deps_satisfied(node, before),
    ensures
        deps_satisfied(node, after),
{
    assert forall|i: int| 0 <= i < node.dependencies.len() implies {
        let d = #[trigger] node.dependencies@[i];
        &&& d < after.len()
        &&& after[d as int].evaluated
    } by {
        let d = node.dependencies@[i];
        assert(before[d as int].evaluated);
    }
}

impl DepNode {
    /// Create a new dependency graph node.
    pub fn new(id: NodeId, label: &str, node_type: DepNodeType) -> (r: DepNode)
        ensures
            r.id == id,
            r.label@ == label@,
            r.node_type == node_type,
            r.dependencies@.len() == 0,
            r.dependents@.len() == 0,
            r.dirty_tags.0 == 0,
            !r.evaluated,
            r.depth == 0,
    {
        DepNode {
            id,
            label: label.to_string(),
            node_type,
            dependencies: Vec::new(),
            dependents: Vec::new(),
            dirty_tags: DirtyTags::empty(),
            evaluated: false,
            depth: 0,
        }
    }

    /// Whether all dependencies have been evaluated.
    pub fn dependencies_satisfied(&self, nodes: &[DepNode]) -> (b: bool)
        ensures
            b == deps_satisfied(*self, nodes@),
    {
        let n = self.dependencies.len();
        let mut i: usize = 0;
        while i < n
            invariant
                i <= n == self.dependencies.len(),
                forall|k: int|
                    0 <= k < i ==> {
                        let d = #[trigger] self.dependencies@[k];
                        &&& d < nodes@.len()
                        &&& nodes@[d as int].evaluated
                    },
            decreases n - i,
        {
            let d = self.dependencies[i] as usize;
            if d >= nodes.len() || !nodes[d].evaluated {
                return false;
            }
            i = i + 1;
        }
        true
    }

    /// Mark this node as needing re-evaluation.
    pub fn mark_dirty(&mut self, tags: DirtyTags)
        ensures
            final(self).dirty_tags.0 == old(self).dirty_tags.0 | tags.0,
            !final(self).evaluated,
            final(self).id == old(self).id,
            final(self).label == old(self).label,
            final(self).node_type == old(self).node_type,
            final(self).dependencies == old(self).dependencies,
            final(self).dependents == old(self).dependents,
            final(self).depth == old(self).depth,
    {
        self.dirty_tags = self.dirty_tags.union(tags);
        self.evaluated = false;
    }

    /// Clear dirty state after evaluation.
    pub fn mark_clean(&mut self)
        ensures
            final(self).dirty_tags.0 == 0,
            final(self).evaluated,
            final(self).id == old(self).id,
            final(self).label == old(self).label,
            final(self).node_type == old(self).node_type,
            final(self).dependencies == old(self).dependencies,
            final(self).dependents == old(self).dependents,
            final(self).depth == old(self).depth,
    {
        self.dirty_tags = DirtyTags::empty();
        self.evaluated = true;
    }
}

} // verus!
