//! Node definitions: built-in geometry node types.

use vstd::prelude::*;

use super::graph::NodeId;
use super::sockets::Socket;
use crate::text::str_eq;

verus! {

/// Category of a node in the add-node menu.
#[derive(Debug, Clone, Copy, PartialEq, Eq, Hash, Structural)]
pub enum NodeCategory {
    Input,
    Output,
    Geometry,
    Mesh,
    MeshPrimitives,
    Curve,
    CurvePrimitives,
    Point,
    Volume,
    Instances,
    Material,
    Texture,
    Utilities,
    Math,
    Vector,
    Color,
    String,
    Layout,
}

/// Identifies a node's behaviour.
#[derive(Debug, Clone, Copy, PartialEq, Eq, Hash, Structural)]
pub enum NodeType {
    // I/O
    GroupInput,
    GroupOutput,

    // Geometry
    JoinGeometry,
    TransformGeometry,
    SetPosition,
    SetMaterial,
    BoundingBox,
    ConvexHull,
    DeleteGeometry,
    DuplicateElements,
    SeparateGeometry,
    GeometryToInstance,
    RealizeInstances,

    // Mesh
    SubdivideMesh,
    ExtrudeMesh,
    FlipFaces,
    MeshBoolean,
    MeshToPoints,
    SplitEdges,
    TriangulateMesh,
    DualMesh,

    // Curve
    CurveToMesh,
    CurveToPoints,
    FillCurve,
    FilletCurve,
    ResampleCurve,
    ReverseCurve,
    SubdivideCurve,
    TrimCurve,
    SetCurveRadius,
    SetCurveTilt,
    SetHandleType,
    SetSplineType,
    SetSplineCyclic,
    SetSplineResolution,
    CurveLength,
    CurveHandlePositions,
    CurveTangent,

    // Curve Primitives
    CurveBezierSegment,
    CurveCircle,
    CurveLine,
    CurveQuadrilateral,
    CurveStar,
    CurveSpiral,

    // Mesh Primitives
    MeshCircle,
    MeshCone,
    MeshCube,
    MeshCylinder,
    MeshGrid,
    MeshIcoSphere,
    MeshUVSphere,
    MeshLine,

    // Math / Utilities
    MathNode,
    VectorMathNode,
    CompareNode,
    BooleanMathNode,
    MapRange,
    Clamp,
    Mix,
    Switch,

    // Input
    Position,
    Normal,
    Index,
    ID,
    NamedAttribute,
    Value,
    RandomValue,
    ObjectInfo,

    // Instances
    InstanceOnPoints,
    RotateInstances,
    ScaleInstances,
    TranslateInstances,

    // Attribute
    StoreNamedAttribute,
    CaptureAttribute,
    RemoveNamedAttribute,

    // Point
    DistributePointsOnFaces,
    PointsToVertices,
    SetPointRadius,

    // Volume
    MeshToVolume,
    VolumeToMesh,

    // Material
    SetMaterialIndex,
    ReplaceMaterial,

    // Texture
    NoiseTexture,
    VoronoiTexture,
    MusgraveTexture,
    GradientTexture,
    WaveTexture,
    WhiteNoiseTexture,

    // Color
    ColorRamp,
    CombineColor,
    SeparateColor,

    // Vector
    CombineXYZ,
    SeparateXYZ,

    // String
    StringJoin,
    StringToNumber,
    ValueToString,

    // Custom / unknown
    Custom(u32),
}

/// A single node in the graph.
#[derive(Debug, Clone)]
pub struct Node {
    /// Runtime ID (assigned by the graph).
    pub id: NodeId,
    /// Node type.
    pub node_type: NodeType,
    /// Human-readable label (can be user-renamed).
    pub label: String,
    /// Category (for the add-node menu).
    pub category: NodeCategory,
    /// Input sockets.
    pub inputs: Vec<Socket>,
    /// Output sockets.
    pub outputs: Vec<Socket>,
    /// 2D position in the node editor (x, y), as `f32` bits.
    pub location: [u32; 2],
    /// Width of the node in the editor, as `f32` bits.
    pub width: u32,
    /// Whether the node is muted (pass-through).
    pub muted: bool,
    /// Whether the node is collapsed in the UI.
    pub collapsed: bool,
}

/// The bit pattern of `140.0f32`, a node's default width.
pub const DEFAULT_WIDTH_BITS: u32 = 0x430c_0000;

/// The position of the first socket named `name`, or -1.
pub open spec fn first_socket(sockets: Seq<Socket>, name: Seq<char>) -> int
    decreases sockets.len(),
{
    if sockets.len() == 0 {
        -1
    } else {
        let r = first_socket(sockets.drop_last(), name);
        if r >= 0 {
            r
        } else if sockets.last().name@ == name {
            sockets.len() - 1
        } else {
            -1
        }
    }
}

/// The first socket named `name`, with its index.
fn find_socket<'a>(sockets: &'a Vec<Socket>, name: &str) -> (r: Option<(usize, &'a Socket)>)
    ensures
        match r {
            Some((i, s)) => i == first_socket(sockets@, name@) && *s == sockets@[i as int],
            None => first_socket(sockets@, name@) < 0,
        },
{
    let mut i: usize = 0;
    while i < sockets.len()
        invariant
            i <= sockets@.len(),
            first_socket(sockets@.take(i as int), name@) < 0,
        decreases sockets.len() - i,
    {
        assert(sockets@.take(i + 1).drop_last() =~= sockets@.take(i as int));
        if str_eq(sockets[i].name.as_str(), name) {
            proof {
                lemma_first_socket_prefix(sockets@, name@, i as int + 1);
            }
            return Some((i, &sockets[i]));
        }
        i = i + 1;
    }
    assert(sockets@.take(sockets@.len() as int) =~= sockets@);
    None
}

/// The first match in a prefix that holds one is the first match of the
/// whole list.
proof fn lemma_first_socket_prefix(sockets: Seq<Socket>, name: Seq<char>, k: int)
    requires
        0 <= k <= sockets.len(),
        first_socket(sockets.take(k), name) >= 0,
    ensures
        first_socket(sockets, name) == first_socket(sockets.take(k), name),
    decreases sockets.len() - k,
{
    if k < sockets.len() {
        assert(sockets.take(k + 1).drop_last() =~= sockets.take(k));
        lemma_first_socket_prefix(sockets, name, k + 1);
    } else {
        assert(sockets.take(k) =~= sockets);
    }
}

impl Node {
    /// A node of the given type, label and category, with no sockets, at
    /// the origin, 140 wide, neither muted nor collapsed.
    pub fn new(node_type: NodeType, label: &str, category: NodeCategory) -> (n: Node)
        ensures
            n.id == 0,
            n.node_type == node_type,
            n.label@ == label@,
            n.category == category,
            n.inputs@.len() == 0,
            n.outputs@.len() == 0,
            n.location == [0u32, 0u32],
            n.width == DEFAULT_WIDTH_BITS,
            !n.muted,
            !n.collapsed,
    {
        Node {
            id: 0,
            node_type,
            label: label.to_owned(),
            category,
            inputs: Vec::new(),
            outputs: Vec::new(),
            location: [0, 0],
            width: DEFAULT_WIDTH_BITS,
            muted: false,
            collapsed: false,
        }
    }

    /// Builder: add an input socket.
    pub fn with_input(self, socket: Socket) -> (n: Node)
        ensures
            n == (Node { inputs: n.inputs, ..self }),
            n.inputs@ == self.inputs@.push(socket),
    {
        let mut n = self;
        n.inputs.push(socket);
        n
    }

    /// Builder: add an output socket.
    pub fn with_output(self, socket: Socket) -> (n: Node)
        ensures
            n == (Node { outputs: n.outputs, ..self }),
            n.outputs@ == self.outputs@.push(socket),
    {
        let mut n = self;
        n.outputs.push(socket);
        n
    }

    /// Builder: set the location, given as `f32` bits.
    pub fn at(self, x: u32, y: u32) -> (n: Node)
        ensures
            n == (Node { location: [x, y], ..self }),
    {
        let mut n = self;
        n.location = [x, y];
        n
    }

    /// The first input socket named `name`, with its index.
    pub fn find_input(&self, name: &str) -> (r: Option<(usize, &Socket)>)
        ensures
            match r {
                Some((i, s)) => i == first_socket(self.inputs@, name@) && *s == self.inputs@[i as int],
                None => first_socket(self.inputs@, name@) < 0,
            },
    {
        find_socket(&self.inputs, name)
    }

    /// The first output socket named `name`, with its index.
    pub fn find_output(&self, name: &str) -> (r: Option<(usize, &Socket)>)
        ensures
            match r {
                Some((i, s)) => i == first_socket(self.outputs@, name@) && *s == self.outputs@[i as int],
                None => first_socket(self.outputs@, name@) < 0,
            },
    {
        find_socket(&self.outputs, name)
    }
}

} // verus!
