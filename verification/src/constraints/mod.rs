//! Object and bone constraints: the settings shared by the constraint
//! kinds (spaces, modes, axes, targets) and their errors. Constraints modify
//! transforms at evaluation time; that arithmetic is floating point and is
//! done by the caller.

use vstd::prelude::*;
use vstd::string::*;

verus! {

/// Errors from constraint evaluation.
#[derive(Debug)]
pub enum ConstraintError {
    /// A constraint target was not found.
    TargetNotFound(String),
    /// Constraint evaluation failed.
    EvalFailed(String),
    /// The constraint configuration is invalid.
    InvalidConfig(String),
}

impl ConstraintError {
    /// The error's message.
    pub fn to_string(&self) -> (r: String)
        ensures
            r@ == match self {
                ConstraintError::TargetNotFound(s) => "constraint target not found: "@ + s@,
                ConstraintError::EvalFailed(s) => "constraint evaluation failed: "@ + s@,
                ConstraintError::InvalidConfig(s) => "invalid constraint configuration: "@ + s@,
            },
    {
        match self {
            ConstraintError::TargetNotFound(s) => {
                let mut m = String::from_str("constraint target not found: ");
                m.append(s.as_str());
                m
            },
            ConstraintError::EvalFailed(s) => {
                let mut m = String::from_str("constraint evaluation failed: ");
                m.append(s.as_str());
                m
            },
            ConstraintError::InvalidConfig(s) => {
                let mut m = String::from_str("invalid constraint configuration: ");
                m.append(s.as_str());
                m
            },
        }
    }
}

pub type ConstraintResult<T> = Result<T, ConstraintError>;

/// Space in which a constraint operates.
#[derive(Debug, Clone, Copy, PartialEq, Eq, Hash, Structural)]
pub enum ConstraintSpace {
    /// World (scene) space.
    World,
    /// Owner's local (parent-relative) space.
    Local,
    /// Owner's pose space (for bones).
    Pose,
    /// Owner's local space with parent orientation.
    LocalWithParent,
    /// Custom space defined by a reference object/bone.
    Custom,
}

impl Default for ConstraintSpace {
    fn default() -> (r: Self)
        ensures
            r == ConstraintSpace::World,
    {
        ConstraintSpace::World
    }
}

/// Influence blending mode.
#[derive(Debug, Clone, Copy, PartialEq, Eq, Hash, Structural)]
pub enum InfluenceMode {
    /// Linear blend between original and constrained.
    Linear,
    /// Multiply.
    Multiply,
}

impl Default for InfluenceMode {
    fn default() -> (r: Self)
        ensures
            r == InfluenceMode::Linear,
    {
        InfluenceMode::Linear
    }
}

/// The axis along which the owner must stay above the target.
#[derive(Debug, Clone, Copy, PartialEq, Eq, Hash, Structural)]
pub enum FloorAxis {
    /// Owner must stay above the target on -X.
    NegX,
    /// Owner must stay above the target on -Y.
    NegY,
    /// Owner must stay above the target on -Z.
    NegZ,
    /// Owner must stay above the target on +X.
    PosX,
    /// Owner must stay above the target on +Y.
    PosY,
    /// Owner must stay above the target on +Z.
    PosZ,
}

impl Default for FloorAxis {
    fn default() -> (r: Self)
        ensures
            r == FloorAxis::NegY,
    {
        FloorAxis::NegY
    }
}

/// How a distance limit is enforced.
#[derive(Debug, Clone, Copy, PartialEq, Eq, Hash, Structural)]
pub enum DistanceClampMode {
    /// Keep the owner inside the sphere: clamp when distance > limit.
    Inside,
    /// Keep the owner outside the sphere: clamp when distance < limit.
    Outside,
    /// Keep the owner on the sphere surface: always clamp to exact distance.
    OnSurface,
}

impl Default for DistanceClampMode {
    fn default() -> (r: Self)
        ensures
            r == DistanceClampMode::Inside,
    {
        DistanceClampMode::Inside
    }
}

/// When the pivot applies.
#[derive(Debug, Clone, Copy, PartialEq, Eq, Hash, Structural)]
pub enum PivotRotationRange {
    /// Always use the pivot.
    Always,
    /// Only when rotation is negative on X.
    NegativeX,
    /// Only when rotation is negative on Y.
    NegativeY,
    /// Only when rotation is negative on Z.
    NegativeZ,
    /// Only when rotation is positive on X.
    PositiveX,
    /// Only when rotation is positive on Y.
    PositiveY,
    /// Only when rotation is positive on Z.
    PositiveZ,
}

impl Default for PivotRotationRange {
    fn default() -> (r: Self)
        ensures
            r == PivotRotationRange::Always,
    {
        PivotRotationRange::Always
    }
}

/// The owner axis that points at the target.
#[derive(Debug, Clone, Copy, PartialEq, Eq, Hash, Structural)]
pub enum TrackAxis {
    PosX,
    PosY,
    PosZ,
    NegX,
    NegY,
    NegZ,
}

impl Default for TrackAxis {
    fn default() -> (r: Self)
        ensures
            r == TrackAxis::NegZ,
    {
        TrackAxis::NegZ
    }
}

/// The owner axis kept pointing up.
#[derive(Debug, Clone, Copy, PartialEq, Eq, Hash, Structural)]
pub enum UpAxis {
    X,
    Y,
    Z,
}

impl Default for UpAxis {
    fn default() -> (r: Self)
        ensures
            r == UpAxis::Y,
    {
        UpAxis::Y
    }
}

/// Volume preservation while stretching.
#[derive(Debug, Clone, Copy, PartialEq, Eq, Hash, Structural)]
pub enum VolumeMode {
    /// No volume preservation.
    NoPreservation,
    /// Preserve volume on the X and Z axes (when tracking along Y).
    XZ,
    /// Preserve volume on the X axis only.
    X,
    /// Preserve volume on the Z axis only.
    Z,
}

impl Default for VolumeMode {
    fn default() -> (r: Self)
        ensures
            r == VolumeMode::XZ,
    {
        VolumeMode::XZ
    }
}

/// How a copied rotation combines with the owner's.
#[derive(Debug, Clone, Copy, PartialEq, Eq, Hash, Structural)]
pub enum RotationMixMode {
    /// Replace rotation entirely.
    Replace,
    /// Legacy offset mode: rotate euler axes individually.
    Offset,
    /// Add euler angles.
    Add,
    /// Multiply (concatenate) rotations: new * old.
    Before,
    /// Multiply in reverse order: old * new.
    After,
}

impl Default for RotationMixMode {
    fn default() -> (r: Self)
        ensures
            r == RotationMixMode::Replace,
    {
        RotationMixMode::Replace
    }
}

/// How a copied scale combines with the owner's.
#[derive(Debug, Clone, Copy, PartialEq, Eq, Hash, Structural)]
pub enum ScaleMixMode {
    /// Replace owner's scale with target's scale.
    Replace,
    /// Multiply owner's scale by target's scale (offset + multiply).
    Multiply,
    /// Add target's scale to owner's scale (legacy offset, additive: size + obsize - 1).
    Add,
}

impl Default for ScaleMixMode {
    fn default() -> (r: Self)
        ensures
            r == ScaleMixMode::Replace,
    {
        ScaleMixMode::Replace
    }
}

/// How a copied transform combines with the owner's.
#[derive(Debug, Clone, Copy, PartialEq, Eq, Hash, Structural)]
pub enum TransformMixMode {
    /// Replace the owner's transform completely.
    Replace,
    /// Concatenate before the owner's transform: target * owner.
    BeforeOriginal,
    /// Concatenate after the owner's transform: owner * target.
    AfterOriginal,
}

impl Default for TransformMixMode {
    fn default() -> (r: Self)
        ensures
            r == TransformMixMode::Replace,
    {
        TransformMixMode::Replace
    }
}

/// The axis left free when maintaining volume.
#[derive(Debug, Clone, Copy, PartialEq, Eq, Hash, Structural)]
pub enum FreeAxis {
    X,
    Y,
    Z,
}

impl Default for FreeAxis {
    fn default() -> (r: Self)
        ensures
            r == FreeAxis::Y,
    {
        FreeAxis::Y
    }
}

/// A transform channel read or written by a transformation mapping.
#[derive(Debug, Clone, Copy, PartialEq, Eq, Hash, Structural)]
pub enum MapChannel {
    LocationX,
    LocationY,
    LocationZ,
    RotationX,
    RotationY,
    RotationZ,
    ScaleX,
    ScaleY,
    ScaleZ,
}

/// A target reference for a constraint (object and optional bone).
#[derive(Debug, Clone)]
pub struct ConstraintTarget {
    /// Name of the target object.
    pub object: String,
    /// Optional bone name within an armature target.
    pub bone: Option<String>,
    /// Vertex group name for vertex-based targets.
    pub vertex_group: Option<String>,
}

impl ConstraintTarget {
    /// A target referencing an object.
    pub fn object(name: &str) -> (t: ConstraintTarget)
        ensures
            t.object@ == name@,
            t.bone is None,
            t.vertex_group is None,
    {
        ConstraintTarget { object: name.to_owned(), bone: None, vertex_group: None }
    }

    /// A target referencing a specific bone on an armature.
    pub fn bone(object: &str, bone: &str) -> (t: ConstraintTarget)
        ensures
            t.object@ == object@,
            t.bone matches Some(b) && b@ == bone@,
            t.vertex_group is None,
    {
        ConstraintTarget { object: object.to_owned(), bone: Some(bone.to_owned()), vertex_group: None }
    }

    /// Whether this target references a bone.
    pub fn is_bone_target(&self) -> (b: bool)
        ensures
            b == self.bone is Some,
    {
        self.bone.is_some()
    }
}

/// Which axes a constraint affects: a set of the flags X (1), Y (2) and
/// Z (4).
#[derive(Debug, Clone, Copy, PartialEq, Eq, Hash, Structural)]
pub struct AxisFlags(pub u8);

impl AxisFlags {
    /// The X axis.
    pub fn x() -> (r: AxisFlags)
        ensures
            r.0 == 1,
    {
        AxisFlags(1)
    }

    /// The Y axis.
    pub fn y() -> (r: AxisFlags)
        ensures
            r.0 == 2,
    {
        AxisFlags(2)
    }

    /// The Z axis.
    pub fn z() -> (r: AxisFlags)
        ensures
            r.0 == 4,
    {
        AxisFlags(4)
    }

    /// All three axes.
    pub fn all() -> (r: AxisFlags)
        ensures
            r.0 == 7,
    {
        AxisFlags(7)
    }

    /// No axis.
    pub fn empty() -> (r: AxisFlags)
        ensures
            r.0 == 0,
    {
        AxisFlags(0)
    }

    /// Whether no flag is set.
    pub fn is_empty(self) -> (b: bool)
        ensures
            b == (self.0 == 0),
    {
        self.0 == 0
    }

    /// Whether every flag of `other` is set.
    pub fn contains(self, other: AxisFlags) -> (b: bool)
        ensures
            b == (self.0 & other.0 == other.0),
    {
        (self.0 & other.0) == other.0
    }

    /// The raw bits.
    pub fn bits(self) -> (b: u8)
        ensures
            b == self.0,
    {
        self.0
    }

    /// Both sets of flags.
    pub fn union(self, other: AxisFlags) -> (r: AxisFlags)
        ensures
            r.0 == self.0 | other.0,
    {
        AxisFlags(self.0 | other.0)
    }

    /// The flags of `self` without those of `other`.
    pub fn difference(self, other: AxisFlags) -> (r: AxisFlags)
        ensures
            r.0 == self.0 & !other.0,
    {
        AxisFlags(self.0 & !other.0)
    }
}

impl Default for AxisFlags {
    fn default() -> (r: Self)
        ensures
            r.0 == 7,
    {
        AxisFlags(7)
    }
}

/// An axis flag is set in a union exactly when it is set in either side.
pub proof fn lemma_axis_union(a: AxisFlags, b: AxisFlags, f: u8)
    requires
        f == 1 || f == 2 || f == 4,
    ensures
        ((a.0 | b.0) & f == f) <==> (a.0 & f == f || b.0 & f == f),
{
    let x = a.0;
    let y = b.0;
    assert(f == 1 ==> (((x | y) & f == f) <==> (x & f == f || y & f == f))) by (bit_vector);
    assert(f == 2 ==> (((x | y) & f == f) <==> (x & f == f || y & f == f))) by (bit_vector);
    assert(f == 4 ==> (((x | y) & f == f) <==> (x & f == f || y & f == f))) by (bit_vector);
}

} // verus!
