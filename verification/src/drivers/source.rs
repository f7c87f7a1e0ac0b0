//! Driver sources: where a driver variable reads its value from.

use vstd::prelude::*;

use super::variable::{TransformChannel, TransformSpace};

verus! {

/// Identifies an object in the scene by name, and optionally one of its
/// bones.
#[derive(Debug, Clone, PartialEq, Eq, Hash)]
pub struct TargetId {
    /// Object name or unique identifier.
    pub name: String,
    /// Optional bone name (for armature targets).
    pub bone: Option<String>,
}

impl TargetId {
    /// The object named `name`.
    pub fn object(name: &str) -> (t: TargetId)
        ensures
            t.name@ == name@,
            t.bone is None,
    {
        TargetId { name: name.to_owned(), bone: None }
    }

    /// The bone named `bone` of the armature object named `object`.
    pub fn bone(object: &str, bone: &str) -> (t: TargetId)
        ensures
            t.name@ == object@,
            t.bone matches Some(b) && b@ == bone@,
    {
        TargetId { name: object.to_owned(), bone: Some(bone.to_owned()) }
    }
}

/// The source of a driver variable's value.
#[derive(Debug, Clone)]
pub enum DriverSource {
    /// Single property value (RNA path).
    SingleProperty { target: TargetId, data_path: String },
    /// Transform channel of a target.
    TransformChannel { target: TargetId, channel: TransformChannel, space: TransformSpace },
    /// Distance between two targets.
    Distance { target_a: TargetId, target_b: TargetId, space: TransformSpace },
    /// Rotation difference between two bones (radians).
    RotationDifference { target_a: TargetId, target_b: TargetId },
    /// Context property (current frame, scene property, etc.).
    ContextProperty { data_path: String },
}

} // verus!
