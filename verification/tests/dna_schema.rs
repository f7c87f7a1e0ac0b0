use forge3d::dna::registry::DnaRegistry;
use forge3d::dna::schema::{DnaField, DnaSchema, DnaType};
use forge3d::dna::value::{DnaMap, DnaValue};
use forge3d::dna::versioning::{MigrationError, MigrationPlan, MigrationStep};

type Plan = MigrationPlan<fn(&DnaValue) -> DnaValue, fn(&mut DnaValue)>;
type Step = MigrationStep<fn(&DnaValue) -> DnaValue, fn(&mut DnaValue)>;

fn f32v(x: f64) -> DnaValue {
    DnaValue::F32(x.to_bits())
}

fn vec3(a: f64, b: f64, c: f64) -> DnaValue {
    DnaValue::Vec3([a.to_bits(), b.to_bits(), c.to_bits()])
}

fn make_test_schema(name: &str) -> DnaSchema {
    DnaSchema::new(name, 1).field(DnaField::new("value", DnaType::F32))
}

fn i32_to_f32(v: &DnaValue) -> DnaValue {
    match v {
        DnaValue::I32(n) => DnaValue::F32((*n as f64).to_bits()),
        other => other.clone(),
    }
}

fn add_marker(v: &mut DnaValue) {
    if let DnaValue::Struct(m) = v {
        m.insert("marker".to_string(), DnaValue::Bool(true));
    }
}

// ---------------------------------------------------------------------------
// Registry
// ---------------------------------------------------------------------------

#[test]
fn register_and_lookup() {
    let mut registry = DnaRegistry::new();
    registry.clear();
    let schema = make_test_schema("test::RegisterLookup");
    registry.register(schema);
    assert!(registry.contains("test::RegisterLookup"));
    let s = registry.get("test::RegisterLookup").unwrap();
    assert_eq!(s.version, 1);
}

#[test]
fn register_replaces_existing() {
    let mut registry = DnaRegistry::new();
    registry.clear();
    registry.register(make_test_schema("test::Replace"));
    let updated = DnaSchema::new("test::Replace", 2).field(DnaField::new("value", DnaType::F64));
    registry.register(updated);

    let s = registry.get("test::Replace").unwrap();
    assert_eq!(s.version, 2);
}

#[test]
fn with_schema_avoids_clone() {
    let mut registry = DnaRegistry::new();
    registry.clear();
    registry.register(make_test_schema("test::WithSchema"));
    let field_count = registry.with_schema("test::WithSchema", |s| s.fields.len());
    assert_eq!(field_count, Some(1));
}

#[test]
fn registry_counts_names_and_clears() {
    let mut registry = DnaRegistry::new();
    assert!(registry.is_empty());
    registry.register_many(vec![
        make_test_schema("a"),
        make_test_schema("b"),
        DnaSchema::new("a", 5),
    ]);
    assert_eq!(registry.len(), 2);
    assert_eq!(registry.get("a").unwrap().version, 5);
    assert_eq!(registry.get("a").unwrap().fields.len(), 0);
    let mut names = registry.names();
    names.sort();
    assert_eq!(names, vec!["a".to_string(), "b".to_string()]);
    assert!(registry.get("c").is_none());
    assert_eq!(registry.with_schema("c", |s| s.version), None);
    registry.clear();
    assert!(registry.is_empty());
    assert!(!registry.contains("a"));
}

// ---------------------------------------------------------------------------
// Schema
// ---------------------------------------------------------------------------

#[test]
fn schema_default_value() {
    let schema = DnaSchema::new("TestStruct", 1)
        .field(DnaField::new("visible", DnaType::Bool).with_default(DnaValue::Bool(true)))
        .field(DnaField::new("name", DnaType::String))
        .field(DnaField::new("position", DnaType::Vec3));

    let val = schema.default_value();
    if let DnaValue::Struct(map) = &val {
        assert_eq!(map.get("visible"), Some(&DnaValue::Bool(true)));
        assert_eq!(map.get("name"), Some(&DnaValue::String(String::new())));
        assert_eq!(map.get("position"), Some(&vec3(0.0, 0.0, 0.0)));
    } else {
        panic!("expected Struct");
    }
}

#[test]
fn dna_type_display() {
    assert_eq!(DnaType::F32.to_string(), "f32");
    assert_eq!(DnaType::Array(Box::new(DnaType::Vec3)).to_string(), "[Vec3]");
    assert_eq!(DnaType::Option(Box::new(DnaType::String)).to_string(), "Option<String>");
}

#[test]
fn dna_type_display_struct_and_enum() {
    assert_eq!(DnaType::Struct("scene::Object".to_string()).to_string(), "scene::Object");
    let e = DnaType::Enum { name: "Mode".to_string(), variants: vec![("A".to_string(), None)] };
    assert_eq!(e.to_string(), "enum Mode");
    assert_eq!(
        DnaType::Array(Box::new(DnaType::Option(Box::new(DnaType::I64)))).to_string(),
        "[Option<i64>]"
    );
}

#[test]
fn default_values_of_types() {
    let one = 1.0f64.to_bits();
    assert_eq!(DnaValue::default_for_type(&DnaType::I32), DnaValue::I32(0));
    assert_eq!(DnaValue::default_for_type(&DnaType::Bool), DnaValue::Bool(false));
    assert_eq!(DnaValue::default_for_type(&DnaType::Quat), DnaValue::Quat([0, 0, 0, one]));
    assert_eq!(DnaValue::default_for_type(&DnaType::Color4f), DnaValue::Color4f([0, 0, 0, one]));
    match DnaValue::default_for_type(&DnaType::Mat4) {
        DnaValue::Mat4(m) => {
            for i in 0..16 {
                let expected = if i % 5 == 0 { one } else { 0 };
                assert_eq!(m[i], expected);
            }
        }
        other => panic!("unexpected {:?}", other),
    }
    assert_eq!(
        DnaValue::default_for_type(&DnaType::Option(Box::new(DnaType::F32))),
        DnaValue::Option(None)
    );
    let e = DnaType::Enum {
        name: "Mode".to_string(),
        variants: vec![("First".to_string(), None), ("Second".to_string(), None)],
    };
    assert_eq!(
        DnaValue::default_for_type(&e),
        DnaValue::Enum { variant: "First".to_string(), value: None }
    );
    let empty = DnaType::Enum { name: "Never".to_string(), variants: vec![] };
    assert_eq!(DnaValue::default_for_type(&empty), DnaValue::Null);
}

#[test]
fn schema_field_lookup_and_names() {
    let schema = DnaSchema::new("S", 3)
        .field(DnaField::new("a", DnaType::F32).with_description("first"))
        .field(DnaField::new("b", DnaType::I32));
    assert_eq!(schema.field_names(), vec!["a", "b"]);
    let a = schema.get_field("a").unwrap();
    assert_eq!(a.description.as_deref(), Some("first"));
    assert_eq!(a.ty, DnaType::F32);
    assert!(schema.get_field("c").is_none());
}

#[test]
fn value_accessors() {
    assert!(DnaValue::Null.is_null());
    assert!(!DnaValue::Bool(false).is_null());
    assert_eq!(DnaValue::Bool(true).as_bool(), Some(true));
    assert_eq!(DnaValue::I32(1).as_bool(), None);
    assert_eq!(DnaValue::String("hi".to_string()).as_str(), Some("hi"));
    assert_eq!(DnaValue::Null.as_str(), None);
}

#[test]
fn dna_map_keeps_insertion_order_and_replaces() {
    let mut m = DnaMap::new();
    assert_eq!(m.insert("a".to_string(), DnaValue::I32(1)), None);
    assert_eq!(m.insert("b".to_string(), DnaValue::I32(2)), None);
    assert_eq!(m.insert("a".to_string(), DnaValue::I32(3)), Some(DnaValue::I32(1)));
    assert_eq!(m.len(), 2);
    assert_eq!(m.get("a"), Some(&DnaValue::I32(3)));
    assert_eq!(m.shift_remove("a"), Some(DnaValue::I32(3)));
    assert!(!m.contains_key("a"));
    assert_eq!(m.shift_remove("a"), None);
    assert_eq!(m.len(), 1);
    if let Some(v) = m.get_mut("b") {
        *v = DnaValue::Null;
    }
    assert_eq!(m.get("b"), Some(&DnaValue::Null));
}

// ---------------------------------------------------------------------------
// Migrations
// ---------------------------------------------------------------------------

#[test]
fn add_field_migration() {
    let plan = Plan::new("Test", 1, 2).step(MigrationStep::AddField {
        name: "visible".to_string(),
        ty: DnaType::Bool,
        default: DnaValue::Bool(true),
    });

    let mut value = DnaValue::Struct({
        let mut m = DnaMap::new();
        m.insert("name".to_string(), DnaValue::String("obj".to_string()));
        m
    });

    plan.apply(&mut value).unwrap();

    if let DnaValue::Struct(map) = &value {
        assert_eq!(map.get("visible"), Some(&DnaValue::Bool(true)));
        assert_eq!(map.get("name"), Some(&DnaValue::String("obj".to_string())));
    } else {
        panic!("expected struct");
    }
}

#[test]
fn remove_field_migration() {
    let plan = Plan::new("Test", 1, 2).step(MigrationStep::RemoveField { name: "obsolete".to_string() });

    let mut value = DnaValue::Struct({
        let mut m = DnaMap::new();
        m.insert("obsolete".to_string(), DnaValue::I32(999));
        m.insert("keep".to_string(), DnaValue::Bool(true));
        m
    });

    plan.apply(&mut value).unwrap();

    if let DnaValue::Struct(map) = &value {
        assert!(!map.contains_key("obsolete"));
        assert!(map.contains_key("keep"));
    } else {
        panic!("expected struct");
    }
}

#[test]
fn rename_field_migration() {
    let plan = Plan::new("Test", 1, 2).step(MigrationStep::RenameField {
        old_name: "pos".to_string(),
        new_name: "position".to_string(),
    });

    let mut value = DnaValue::Struct({
        let mut m = DnaMap::new();
        m.insert("pos".to_string(), vec3(1.0, 2.0, 3.0));
        m
    });

    plan.apply(&mut value).unwrap();

    if let DnaValue::Struct(map) = &value {
        assert!(!map.contains_key("pos"));
        assert_eq!(map.get("position"), Some(&vec3(1.0, 2.0, 3.0)));
    } else {
        panic!("expected struct");
    }
}

#[test]
fn auto_diff_detects_add_and_remove() {
    let old = DnaSchema::new("S", 1)
        .field(DnaField::new("a", DnaType::F32))
        .field(DnaField::new("b", DnaType::I32));

    let new = DnaSchema::new("S", 2)
        .field(DnaField::new("a", DnaType::F32))
        .field(DnaField::new("c", DnaType::Bool));

    let plan = Plan::auto_diff(&old, &new);
    assert_eq!(plan.from_version, 1);
    assert_eq!(plan.to_version, 2);
    assert_eq!(plan.step_count(), 2);
}

#[test]
fn change_field_type() {
    let convert: fn(&DnaValue) -> DnaValue = i32_to_f32;
    let plan = Plan::new("Test", 1, 2).step(MigrationStep::ChangeFieldType {
        name: "count".to_string(),
        new_ty: DnaType::F32,
        convert,
    });

    let mut value = DnaValue::Struct({
        let mut m = DnaMap::new();
        m.insert("count".to_string(), DnaValue::I32(42));
        m
    });

    plan.apply(&mut value).unwrap();

    if let DnaValue::Struct(map) = &value {
        assert_eq!(map.get("count"), Some(&f32v(42.0)));
    } else {
        panic!("expected struct");
    }
}

#[test]
fn auto_diff_step_order_and_defaults() {
    let old = DnaSchema::new("S", 1)
        .field(DnaField::new("a", DnaType::F32))
        .field(DnaField::new("b", DnaType::I32));
    let new = DnaSchema::new("T", 4)
        .field(DnaField::new("c", DnaType::Bool).with_default(DnaValue::Bool(true)))
        .field(DnaField::new("a", DnaType::F32))
        .field(DnaField::new("d", DnaType::I64));
    let plan = Plan::auto_diff(&old, &new);
    assert_eq!(plan.schema_name, "T");
    let steps = plan.steps();
    assert_eq!(steps.len(), 3);
    match &steps[0] {
        MigrationStep::AddField { name, default, .. } => {
            assert_eq!(name, "c");
            assert_eq!(default, &DnaValue::Bool(true));
        }
        _ => panic!("expected AddField"),
    }
    match &steps[1] {
        MigrationStep::AddField { name, default, .. } => {
            assert_eq!(name, "d");
            assert_eq!(default, &DnaValue::I64(0));
        }
        _ => panic!("expected AddField"),
    }
    match &steps[2] {
        MigrationStep::RemoveField { name } => assert_eq!(name, "b"),
        _ => panic!("expected RemoveField"),
    }
}

#[test]
fn migration_errors() {
    // Not a struct.
    let plan = Plan::new("T", 1, 2).step(MigrationStep::RemoveField { name: "x".to_string() });
    let mut v = DnaValue::I32(3);
    match plan.apply(&mut v) {
        Err(MigrationError::NotAStruct) => {}
        other => panic!("unexpected {:?}", other),
    }
    assert_eq!(v, DnaValue::I32(3));

    // Rename onto an existing field: the first step stays applied.
    let plan = Plan::new("T", 1, 2)
        .step(MigrationStep::AddField { name: "n".to_string(), ty: DnaType::I32, default: DnaValue::I32(1) })
        .step(MigrationStep::RenameField { old_name: "a".to_string(), new_name: "b".to_string() });
    let mut v = DnaValue::Struct({
        let mut m = DnaMap::new();
        m.insert("a".to_string(), DnaValue::I32(1));
        m.insert("b".to_string(), DnaValue::I32(2));
        m
    });
    match plan.apply(&mut v) {
        Err(MigrationError::FieldAlreadyExists(name)) => assert_eq!(name, "b"),
        other => panic!("unexpected {:?}", other),
    }
    if let DnaValue::Struct(map) = &v {
        assert_eq!(map.get("n"), Some(&DnaValue::I32(1)));
        assert_eq!(map.get("a"), Some(&DnaValue::I32(1)));
    } else {
        panic!("expected struct");
    }

    assert_eq!(MigrationError::NotAStruct.to_string(), "migration target is not a struct");
    assert_eq!(
        MigrationError::FieldAlreadyExists("b".to_string()).to_string(),
        "field already exists: b"
    );
    assert_eq!(MigrationError::ConversionFailed("x".to_string()).to_string(), "conversion failed: x");
}

#[test]
fn add_field_keeps_existing_value_and_custom_runs() {
    let transform: fn(&mut DnaValue) = add_marker;
    let steps: Vec<Step> = vec![
        MigrationStep::AddField { name: "k".to_string(), ty: DnaType::I32, default: DnaValue::I32(0) },
        MigrationStep::Custom { description: "mark".to_string(), transform },
    ];
    let mut plan = Plan::new("T", 1, 2);
    for s in steps {
        plan = plan.step(s);
    }
    let mut v = DnaValue::Struct({
        let mut m = DnaMap::new();
        m.insert("k".to_string(), DnaValue::I32(9));
        m
    });
    plan.apply(&mut v).unwrap();
    if let DnaValue::Struct(map) = &v {
        assert_eq!(map.get("k"), Some(&DnaValue::I32(9)));
        assert_eq!(map.get("marker"), Some(&DnaValue::Bool(true)));
    } else {
        panic!("expected struct");
    }
}
