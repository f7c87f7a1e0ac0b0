use forge3d::constraints::{
    AxisFlags, ConstraintError, ConstraintSpace, ConstraintTarget, FloorAxis, TrackAxis, UpAxis, VolumeMode,
};

#[test]
fn axis_flag_sets() {
    let xy = AxisFlags::x().union(AxisFlags::y());
    assert_eq!(xy.bits(), 3);
    assert!(xy.contains(AxisFlags::x()));
    assert!(xy.contains(AxisFlags::y()));
    assert!(!xy.contains(AxisFlags::z()));
    assert!(AxisFlags::all().contains(xy));
    assert_eq!(AxisFlags::all().difference(AxisFlags::y()), AxisFlags(5));
    assert!(AxisFlags::empty().is_empty());
    assert!(!AxisFlags::z().is_empty());
    assert_eq!(AxisFlags::default(), AxisFlags::all());
}

#[test]
fn union_holds_a_flag_when_either_side_does() {
    for a in 0u8..8 {
        for b in 0u8..8 {
            let u = AxisFlags(a).union(AxisFlags(b));
            for f in [AxisFlags::x(), AxisFlags::y(), AxisFlags::z()] {
                assert_eq!(u.contains(f), AxisFlags(a).contains(f) || AxisFlags(b).contains(f));
            }
        }
    }
}

#[test]
fn targets() {
    let t = ConstraintTarget::object("Empty");
    assert_eq!(t.object, "Empty");
    assert!(!t.is_bone_target());
    let b = ConstraintTarget::bone("Rig", "Hand");
    assert!(b.is_bone_target());
    assert_eq!(b.bone.as_deref(), Some("Hand"));
    assert!(b.vertex_group.is_none());
}

#[test]
fn mode_defaults() {
    assert_eq!(ConstraintSpace::default(), ConstraintSpace::World);
    assert_eq!(FloorAxis::default(), FloorAxis::NegY);
    assert_eq!(TrackAxis::default(), TrackAxis::NegZ);
    assert_eq!(UpAxis::default(), UpAxis::Y);
    assert_eq!(VolumeMode::default(), VolumeMode::XZ);
}

#[test]
fn constraint_error_messages() {
    assert_eq!(
        ConstraintError::TargetNotFound("Empty".to_string()).to_string(),
        "constraint target not found: Empty"
    );
    assert_eq!(
        ConstraintError::EvalFailed("x".to_string()).to_string(),
        "constraint evaluation failed: x"
    );
    assert_eq!(
        ConstraintError::InvalidConfig("y".to_string()).to_string(),
        "invalid constraint configuration: y"
    );
}
