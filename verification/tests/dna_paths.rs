use forge3d::dna::derive::{PropertyPath, PropertyPathError};
use forge3d::dna::value::{DnaMap, DnaValue};

fn f32v(x: f64) -> DnaValue {
    DnaValue::F32(x.to_bits())
}

fn vec3(a: f64, b: f64, c: f64) -> DnaValue {
    DnaValue::Vec3([a.to_bits(), b.to_bits(), c.to_bits()])
}

fn map_of(entries: Vec<(&str, DnaValue)>) -> DnaMap {
    let mut m = DnaMap::new();
    for (k, v) in entries {
        m.insert(k.to_string(), v);
    }
    m
}

fn sample_struct() -> DnaValue {
    let inner = map_of(vec![("x", f32v(1.0)), ("y", f32v(2.0)), ("z", f32v(3.0))]);
    let root = map_of(vec![
        ("position", DnaValue::Struct(inner)),
        (
            "tags",
            DnaValue::Array(vec![
                DnaValue::String("a".to_string()),
                DnaValue::String("b".to_string()),
            ]),
        ),
    ]);
    DnaValue::Struct(root)
}

#[test]
fn parse_simple_field() {
    let p = PropertyPath::parse("position.x");
    assert_eq!(p.len(), 2);
    let root = sample_struct();
    assert_eq!(p.get(&root), Some(&f32v(1.0)));
}

#[test]
fn parse_array_index() {
    let p = PropertyPath::parse("tags[0]");
    let root = sample_struct();
    assert_eq!(p.get(&root), Some(&DnaValue::String("a".to_string())));
}

#[test]
fn set_value() {
    let p = PropertyPath::parse("position.y");
    let mut root = sample_struct();
    let old = p.set(&mut root, f32v(99.0)).unwrap();
    assert_eq!(old, f32v(2.0));
    assert_eq!(p.get(&root), Some(&f32v(99.0)));
}

#[test]
fn roundtrip_path_string() {
    let p = PropertyPath::parse("nested.array[2].name");
    assert_eq!(p.to_string_path(), "nested.array[2].name");
}

#[test]
fn missing_field_returns_none() {
    let p = PropertyPath::parse("nonexistent");
    let root = sample_struct();
    assert_eq!(p.get(&root), None);
}

#[test]
fn bracket_quoted_field_name() {
    let bone_fields = map_of(vec![("location", vec3(1.0, 2.0, 3.0))]);
    let bones_map = map_of(vec![("Bone", DnaValue::Struct(bone_fields))]);
    let pose = map_of(vec![("bones", DnaValue::Struct(bones_map))]);
    let root = DnaValue::Struct(map_of(vec![("pose", DnaValue::Struct(pose))]));

    let p = PropertyPath::parse("pose.bones[\"Bone\"].location");
    assert_eq!(p.get(&root), Some(&vec3(1.0, 2.0, 3.0)));
}

#[test]
fn single_quoted_bracket_field() {
    let inner = map_of(vec![("My Key", f32v(42.0))]);
    let root = DnaValue::Struct(inner);

    let p = PropertyPath::parse("['My Key']");
    assert_eq!(p.get(&root), Some(&f32v(42.0)));
}

#[test]
fn blender_path_location_x() {
    let loc = map_of(vec![("x", f32v(1.0)), ("y", f32v(2.0)), ("z", f32v(3.0))]);
    let root = DnaValue::Struct(map_of(vec![("location", DnaValue::Struct(loc))]));

    let p = PropertyPath::parse("location.x");
    assert_eq!(p.get(&root), Some(&f32v(1.0)));
}

#[test]
fn blender_path_pose_bones_location() {
    let bone_fields = map_of(vec![("location", vec3(4.0, 5.0, 6.0))]);
    let bones_map = map_of(vec![("Bone", DnaValue::Struct(bone_fields))]);
    let pose_map = map_of(vec![("bones", DnaValue::Struct(bones_map))]);
    let root = DnaValue::Struct(map_of(vec![("pose", DnaValue::Struct(pose_map))]));

    let p = PropertyPath::parse("pose.bones[\"Bone\"].location");
    assert_eq!(p.get(&root), Some(&vec3(4.0, 5.0, 6.0)));
}

#[test]
fn blender_path_modifiers_array_count() {
    let array_fields = map_of(vec![("count", DnaValue::I32(5))]);
    let mods_map = map_of(vec![("Array", DnaValue::Struct(array_fields))]);
    let root = DnaValue::Struct(map_of(vec![("modifiers", DnaValue::Struct(mods_map))]));

    let p = PropertyPath::parse("modifiers[\"Array\"].count");
    assert_eq!(p.get(&root), Some(&DnaValue::I32(5)));
}

#[test]
fn escape_in_quoted_bracket() {
    let inner = map_of(vec![("key\"quote", f32v(99.0))]);
    let root = DnaValue::Struct(inner);

    let p = PropertyPath::parse("[\"key\\\"quote\"]");
    assert_eq!(p.get(&root), Some(&f32v(99.0)));
}

#[test]
fn nested_struct_get_set() {
    let inner = map_of(vec![("value", f32v(1.0))]);
    let mid = map_of(vec![("child", DnaValue::Struct(inner))]);
    let mut root = DnaValue::Struct(map_of(vec![("parent", DnaValue::Struct(mid))]));

    let path = PropertyPath::parse("parent.child.value");
    assert_eq!(path.get(&root), Some(&f32v(1.0)));

    let old = path.set(&mut root, f32v(42.0)).unwrap();
    assert_eq!(old, f32v(1.0));
    assert_eq!(path.get(&root), Some(&f32v(42.0)));
}

#[test]
fn path_to_string_bracket_quoted() {
    let p = PropertyPath::parse("modifiers[\"Array\"].count");
    let s = p.to_string_path();
    assert_eq!(s, "modifiers.Array.count");

    let p2 = PropertyPath::parse("[\"field.with.dots\"].value");
    let s2 = p2.to_string_path();
    assert_eq!(s2, "[\"field.with.dots\"].value");
}

#[test]
fn parse_skips_empty_segments_and_trims() {
    let p = PropertyPath::parse(" a .. b [ 3 ] ");
    assert_eq!(p.len(), 3);
    assert_eq!(p.to_string_path(), "a.b[3]");
    assert!(PropertyPath::parse("").is_empty());
    assert!(PropertyPath::parse("...").is_empty());
}

#[test]
fn to_string_quotes_names_starting_with_digit_or_holding_space() {
    let p = PropertyPath::parse("[\"1st\"].[\"a b\"]");
    assert_eq!(p.to_string_path(), "[\"1st\"][\"a b\"]");
    assert_eq!(p.to_string(), p.to_string_path());
}

#[test]
fn roundtrip_of_normalised_text() {
    for text in ["a.b[0].c", "x", "[\"with.dot\"].y[12]", "modifiers.Array.count"] {
        let p = PropertyPath::parse(text);
        let again = PropertyPath::parse(&p.to_string_path());
        assert_eq!(again.to_string_path(), p.to_string_path());
        assert_eq!(p.to_string_path(), text);
    }
}

#[test]
fn get_after_set_reads_the_written_value() {
    let mut root = sample_struct();
    let p = PropertyPath::parse("tags[1]");
    let old = p.set(&mut root, DnaValue::Bool(true)).unwrap();
    assert_eq!(old, DnaValue::String("b".to_string()));
    assert_eq!(p.get(&root), Some(&DnaValue::Bool(true)));
    // The other entries are untouched.
    assert_eq!(PropertyPath::parse("tags[0]").get(&root), Some(&DnaValue::String("a".to_string())));
    assert_eq!(PropertyPath::parse("position.z").get(&root), Some(&f32v(3.0)));
}

#[test]
fn set_errors() {
    let mut root = sample_struct();
    match PropertyPath::parse("").set(&mut root, DnaValue::Null) {
        Err(PropertyPathError::EmptyPath) => {}
        other => panic!("unexpected {:?}", other),
    }
    match PropertyPath::parse("position.w").set(&mut root, DnaValue::Null) {
        Err(e) => assert!(matches!(e, PropertyPathError::FieldNotFound(_))),
        Ok(v) => panic!("unexpected {:?}", v),
    }
    match PropertyPath::parse("tags[7]").set(&mut root, DnaValue::Null) {
        Err(e) => assert!(matches!(e, PropertyPathError::FieldNotFound(_))),
        Ok(v) => panic!("unexpected {:?}", v),
    }
    // Nothing was changed by the failed writes.
    assert_eq!(PropertyPath::parse("position.x").get(&root), Some(&f32v(1.0)));
}

#[test]
fn get_mut_writes_through() {
    let mut root = sample_struct();
    let p = PropertyPath::parse("position.x");
    if let Some(v) = p.get_mut(&mut root) {
        *v = DnaValue::I64(7);
    }
    assert_eq!(p.get(&root), Some(&DnaValue::I64(7)));
    assert!(PropertyPath::parse("position[0]").get_mut(&mut root).is_none());
}

#[test]
fn path_error_messages() {
    assert_eq!(PropertyPathError::EmptyPath.to_string(), "empty property path");
    assert_eq!(
        PropertyPathError::FieldNotFound("a.b".to_string()).to_string(),
        "field not found: a.b"
    );
}

#[test]
fn quoted_digit_name_is_a_field() {
    let quoted = PropertyPath::parse("m[\"0\"]");
    assert_eq!(quoted, PropertyPath::parse("m.0"));
    assert_ne!(quoted, PropertyPath::parse("m[0]"));
    let root = DnaValue::Struct(map_of(vec![(
        "m",
        DnaValue::Struct(map_of(vec![("0", DnaValue::I32(7))])),
    )]));
    assert_eq!(quoted.get(&root), Some(&DnaValue::I32(7)));
    // The text of a path with an all-digit name reads back as the same path.
    let p = PropertyPath::parse("m.0");
    assert_eq!(p.to_string_path(), "m[\"0\"]");
    assert_eq!(PropertyPath::parse(&p.to_string_path()), p);
}

#[test]
fn parse_print_parse_gives_the_parsed_path() {
    for text in [
        "nested.array[2].name",
        "[\"field.with.dots\"].value",
        " a .. b [ 3 ] ",
        "bones['Bone x'].location[0]",
        "m.0[ 7 ]",
    ] {
        let p = PropertyPath::parse(text);
        assert_eq!(PropertyPath::parse(&p.to_string_path()), p);
    }
}
