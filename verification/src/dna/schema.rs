//! DNA schema definitions: [`DnaType`], [`DnaField`], [`DnaSchema`] and
//! [`DnaValue`].
//!
//! A schema describes the runtime shape of a DNA struct: its fields, their
//! types and their default values. Floating-point payloads are held as the
//! bit patterns of `f64` values; nothing in the schema logic reads them.

use vstd::prelude::*;
use vstd::string::*;

use crate::index_map::entries_insert;
use crate::text::str_eq;

pub use super::value::{DnaMap, DnaValue, ValueModel};

verus! {

/// The mathematical shape of a [`DnaType`].
pub enum TypeModel {
    Bool,
    I32,
    I64,
    F32,
    F64,
    String,
    Vec2,
    Vec3,
    Vec4,
    Mat4,
    Quat,
    Color4f,
    Array(Box<TypeModel>),
    Struct(Seq<char>),
    Option(Box<TypeModel>),
    Enum { name: Seq<char>, variants: Seq<(Seq<char>, Option<TypeModel>)> },
}

/// Primitive and compound types representable in the DNA system.
#[derive(Debug, PartialEq)]
pub enum DnaType {
    // -- Scalars --
    Bool,
    I32,
    I64,
    F32,
    F64,
    String,
    // -- Math --
    Vec2,
    Vec3,
    Vec4,
    Mat4,
    Quat,
    Color4f,
    // -- Compound --
    /// An ordered list of homogeneous values.
    Array(Box<DnaType>),
    /// A reference to another named DNA struct.
    Struct(String),
    /// An optional value.
    Option(Box<DnaType>),
    /// An enum with named variants, each optionally carrying a type.
    Enum { name: String, variants: Vec<(String, Option<DnaType>)> },
}

/// The model of one enum variant.
pub open spec fn variant_model(v: (String, Option<DnaType>)) -> (Seq<char>, Option<TypeModel>)
    decreases v,
{
    (v.0@, match v.1 {
        Some(t) => Some(t.model()),
        None => None,
    })
}

impl DnaType {
    pub open spec fn model(self) -> TypeModel
        decreases self,
    {
        match self {
            DnaType::Bool => TypeModel::Bool,
            DnaType::I32 => TypeModel::I32,
            DnaType::I64 => TypeModel::I64,
            DnaType::F32 => TypeModel::F32,
            DnaType::F64 => TypeModel::F64,
            DnaType::String => TypeModel::String,
            DnaType::Vec2 => TypeModel::Vec2,
            DnaType::Vec3 => TypeModel::Vec3,
            DnaType::Vec4 => TypeModel::Vec4,
            DnaType::Mat4 => TypeModel::Mat4,
            DnaType::Quat => TypeModel::Quat,
            DnaType::Color4f => TypeModel::Color4f,
            DnaType::Array(inner) => TypeModel::Array(Box::new(inner.model())),
            DnaType::Struct(name) => TypeModel::Struct(name@),
            DnaType::Option(inner) => TypeModel::Option(Box::new(inner.model())),
            DnaType::Enum { name, variants } => TypeModel::Enum {
                name: name@,
                variants: Seq::new(
                    variants@.len(),
                    |i: int|
                        if 0 <= i < variants.len() {
                            variant_model(variants[i])
                        } else {
                            (Seq::empty(), None)
                        },
                ),
            },
        }
    }
}

/// The text of a type, as `Display` writes it.
pub open spec fn type_text(t: TypeModel) -> Seq<char>
    decreases t,
{
    match t {
        TypeModel::Bool => "bool"@,
        TypeModel::I32 => "i32"@,
        TypeModel::I64 => "i64"@,
        TypeModel::F32 => "f32"@,
        TypeModel::F64 => "f64"@,
        TypeModel::String => "String"@,
        TypeModel::Vec2 => "Vec2"@,
        TypeModel::Vec3 => "Vec3"@,
        TypeModel::Vec4 => "Vec4"@,
        TypeModel::Mat4 => "Mat4"@,
        TypeModel::Quat => "Quat"@,
        TypeModel::Color4f => "Color4f"@,
        TypeModel::Array(inner) => "["@ + type_text(*inner) + "]"@,
        TypeModel::Struct(name) => name,
        TypeModel::Option(inner) => "Option<"@ + type_text(*inner) + ">"@,
        TypeModel::Enum { name, .. } => "enum "@ + name,
    }
}

/// Copies of the enum variants, in order.
fn clone_variants(v: &Vec<(String, Option<DnaType>)>) -> (r: Vec<(String, Option<DnaType>)>)
    ensures
        r@.len() == v@.len(),
        forall|i: int| 0 <= i < v@.len() ==> variant_model(#[trigger] r[i]) == variant_model(v[i]),
    decreases v,
{
    let mut r: Vec<(String, Option<DnaType>)> = Vec::new();
    let mut i: usize = 0;
    while i < v.len()
        invariant
            i <= v.len(),
            r@.len() == i,
            forall|j: int| 0 <= j < i ==> variant_model(#[trigger] r[j]) == variant_model(v[j]),
        decreases v.len() - i,
    {
        proof {
            assert(decreases_to!(*v => v[i as int]));
        }
        let ty = match &v[i].1 {
            Some(t) => Some(t.clone()),
            None => None,
        };
        r.push((v[i].0.clone(), ty));
        i = i + 1;
    }
    r
}

impl Clone for DnaType {
    /// A deep copy, with the same model.
    fn clone(&self) -> (r: Self)
        ensures
            r.model() == self.model(),
        decreases self,
    {
        match self {
            DnaType::Bool => DnaType::Bool,
            DnaType::I32 => DnaType::I32,
            DnaType::I64 => DnaType::I64,
            DnaType::F32 => DnaType::F32,
            DnaType::F64 => DnaType::F64,
            DnaType::String => DnaType::String,
            DnaType::Vec2 => DnaType::Vec2,
            DnaType::Vec3 => DnaType::Vec3,
            DnaType::Vec4 => DnaType::Vec4,
            DnaType::Mat4 => DnaType::Mat4,
            DnaType::Quat => DnaType::Quat,
            DnaType::Color4f => DnaType::Color4f,
            DnaType::Array(inner) => DnaType::Array(Box::new((**inner).clone())),
            DnaType::Struct(name) => DnaType::Struct(name.clone()),
            DnaType::Option(inner) => DnaType::Option(Box::new((**inner).clone())),
            DnaType::Enum { name, variants } => {
                let r = DnaType::Enum { name: name.clone(), variants: clone_variants(variants) };
                assert(r.model()->Enum_variants =~= self.model()->Enum_variants);
                r
            },
        }
    }
}

impl DnaType {
    /// The type's text: `bool`, `i32`, ..., `[T]` for arrays, the struct's
    /// name, `Option<T>` and `enum Name`.
    pub fn to_string(&self) -> (r: String)
        ensures
            r@ == type_text(self.model()),
        decreases self,
    {
        match self {
            DnaType::Bool => String::from_str("bool"),
            DnaType::I32 => String::from_str("i32"),
            DnaType::I64 => String::from_str("i64"),
            DnaType::F32 => String::from_str("f32"),
            DnaType::F64 => String::from_str("f64"),
            DnaType::String => String::from_str("String"),
            DnaType::Vec2 => String::from_str("Vec2"),
            DnaType::Vec3 => String::from_str("Vec3"),
            DnaType::Vec4 => String::from_str("Vec4"),
            DnaType::Mat4 => String::from_str("Mat4"),
            DnaType::Quat => String::from_str("Quat"),
            DnaType::Color4f => String::from_str("Color4f"),
            DnaType::Array(inner) => {
                let mut s = String::from_str("[");
                let t = inner.to_string();
                s.append(t.as_str());
                s.append("]");
                s
            },
            DnaType::Struct(name) => name.clone(),
            DnaType::Option(inner) => {
                let mut s = String::from_str("Option<");
                let t = inner.to_string();
                s.append(t.as_str());
                s.append(">");
                s
            },
            DnaType::Enum { name, .. } => {
                let mut s = String::from_str("enum ");
                s.append(name.as_str());
                s
            },
        }
    }
}

/// The bit pattern of `1.0f64`.
pub const ONE_BITS: u64 = 0x3ff0_0000_0000_0000;

/// The default value of a type: zero, false, empty, the identity matrix,
/// the identity quaternion, opaque black, no value, or an enum's first
/// variant without a payload (`Null` for an enum without variants).
pub open spec fn default_model(t: TypeModel) -> ValueModel {
    match t {
        TypeModel::Bool => ValueModel::Bool(false),
        TypeModel::I32 => ValueModel::I32(0),
        TypeModel::I64 => ValueModel::I64(0),
        TypeModel::F32 => ValueModel::F32(0),
        TypeModel::F64 => ValueModel::F64(0),
        TypeModel::String => ValueModel::String(Seq::empty()),
        TypeModel::Vec2 => ValueModel::Vec2(seq![0u64, 0u64]),
        TypeModel::Vec3 => ValueModel::Vec3(seq![0u64, 0u64, 0u64]),
        TypeModel::Vec4 => ValueModel::Vec4(seq![0u64, 0u64, 0u64, 0u64]),
        TypeModel::Mat4 => ValueModel::Mat4(
            seq![
                ONE_BITS, 0u64, 0u64, 0u64,
                0u64, ONE_BITS, 0u64, 0u64,
                0u64, 0u64, ONE_BITS, 0u64,
                0u64, 0u64, 0u64, ONE_BITS,
            ],
        ),
        TypeModel::Quat => ValueModel::Quat(seq![0u64, 0u64, 0u64, ONE_BITS]),
        TypeModel::Color4f => ValueModel::Color4f(seq![0u64, 0u64, 0u64, ONE_BITS]),
        TypeModel::Array(_) => ValueModel::Array(Seq::empty()),
        TypeModel::Struct(_) => ValueModel::Struct(Seq::empty()),
        TypeModel::Option(_) => ValueModel::Option(None),
        TypeModel::Enum { variants, .. } => if variants.len() > 0 {
            ValueModel::Enum { variant: variants[0].0, value: None }
        } else {
            ValueModel::Null
        },
    }
}

impl DnaValue {
    /// The default value for the given type.
    pub fn default_for_type(ty: &DnaType) -> (r: DnaValue)
        ensures
            r.model() == default_model(ty.model()),
    {
        match ty {
            DnaType::Bool => DnaValue::Bool(false),
            DnaType::I32 => DnaValue::I32(0),
            DnaType::I64 => DnaValue::I64(0),
            DnaType::F32 => DnaValue::F32(0),
            DnaType::F64 => DnaValue::F64(0),
            DnaType::String => DnaValue::String(String::new()),
            DnaType::Vec2 => {
                let r = DnaValue::Vec2([0; 2]);
                assert(r.model()->Vec2_0 =~= seq![0u64, 0u64]);
                r
            },
            DnaType::Vec3 => {
                let r = DnaValue::Vec3([0; 3]);
                assert(r.model()->Vec3_0 =~= seq![0u64, 0u64, 0u64]);
                r
            },
            DnaType::Vec4 => {
                let r = DnaValue::Vec4([0; 4]);
                assert(r.model()->Vec4_0 =~= seq![0u64, 0u64, 0u64, 0u64]);
                r
            },
            DnaType::Mat4 => {
                // Identity matrix.
                let r = DnaValue::Mat4(
                    [
                        ONE_BITS, 0, 0, 0,
                        0, ONE_BITS, 0, 0,
                        0, 0, ONE_BITS, 0,
                        0, 0, 0, ONE_BITS,
                    ],
                );
                assert(r.model()->Mat4_0 =~= seq![
                    ONE_BITS, 0u64, 0u64, 0u64,
                    0u64, ONE_BITS, 0u64, 0u64,
                    0u64, 0u64, ONE_BITS, 0u64,
                    0u64, 0u64, 0u64, ONE_BITS,
                ]);
                r
            },
            DnaType::Quat => {
                let r = DnaValue::Quat([0, 0, 0, ONE_BITS]);
                assert(r.model()->Quat_0 =~= seq![0u64, 0u64, 0u64, ONE_BITS]);
                r
            },
            DnaType::Color4f => {
                let r = DnaValue::Color4f([0, 0, 0, ONE_BITS]);
                assert(r.model()->Color4f_0 =~= seq![0u64, 0u64, 0u64, ONE_BITS]);
                r
            },
            DnaType::Array(_) => {
                let r = DnaValue::Array(Vec::new());
                assert(r.model()->Array_0 =~= Seq::<ValueModel>::empty());
                r
            },
            DnaType::Struct(_) => DnaValue::Struct(DnaMap::new()),
            DnaType::Option(_) => DnaValue::Option(None),
            DnaType::Enum { variants, .. } => {
                if variants.len() > 0 {
                    assert(ty.model()->Enum_variants[0] == variant_model(variants[0]));
                    DnaValue::Enum { variant: variants[0].0.clone(), value: None }
                } else {
                    DnaValue::Null
                }
            },
        }
    }
}

/// The model of a [`DnaField`].
pub struct FieldModel {
    pub name: Seq<char>,
    pub ty: TypeModel,
    pub default: Option<ValueModel>,
    pub description: Option<Seq<char>>,
}

/// A single field in a [`DnaSchema`].
#[derive(Debug)]
pub struct DnaField {
    /// Field name (must be unique within the schema).
    pub name: String,
    /// The type of this field.
    pub ty: DnaType,
    /// Default value used when the field is missing (e.g. after a schema
    /// migration adds a new field).
    pub default: Option<DnaValue>,
    /// Human-readable description (for editor tooltips, docs, etc.).
    pub description: Option<String>,
}

impl DnaField {
    pub open spec fn model(self) -> FieldModel {
        FieldModel {
            name: self.name@,
            ty: self.ty.model(),
            default: match self.default {
                Some(v) => Some(v.model()),
                None => None,
            },
            description: match self.description {
                Some(d) => Some(d@),
                None => None,
            },
        }
    }

    /// A field of the given name and type, without default or description.
    pub fn new(name: &str, ty: DnaType) -> (f: DnaField)
        ensures
            f.model() == (FieldModel { name: name@, ty: ty.model(), default: None, description: None }),
    {
        DnaField { name: name.to_owned(), ty, default: None, description: None }
    }

    /// Builder: attach a default value.
    pub fn with_default(self, value: DnaValue) -> (f: DnaField)
        ensures
            f.model() == (FieldModel { default: Some(value.model()), ..self.model() }),
    {
        let mut f = self;
        f.default = Some(value);
        f
    }

    /// Builder: attach a description.
    pub fn with_description(self, desc: &str) -> (f: DnaField)
        ensures
            f.model() == (FieldModel { description: Some(desc@), ..self.model() }),
    {
        let mut f = self;
        f.description = Some(desc.to_owned());
        f
    }
}

impl Clone for DnaField {
    fn clone(&self) -> (r: Self)
        ensures
            r.model() == self.model(),
    {
        DnaField {
            name: self.name.clone(),
            ty: self.ty.clone(),
            default: match &self.default {
                Some(v) => Some(v.clone()),
                None => None,
            },
            description: match &self.description {
                Some(d) => Some(d.clone()),
                None => None,
            },
        }
    }
}

/// The models of a list of fields.
pub open spec fn fields_model(fs: Seq<DnaField>) -> Seq<FieldModel> {
    fs.map_values(|f: DnaField| f.model())
}

/// The model of a [`DnaSchema`].
pub struct SchemaModel {
    pub name: Seq<char>,
    pub version: u32,
    pub fields: Seq<FieldModel>,
}

/// Schema describing a DNA struct at runtime.
#[derive(Debug)]
pub struct DnaSchema {
    /// Fully-qualified struct name (e.g., `"forge3d::scene::ObjectData"`).
    pub name: String,
    /// Schema version, incremented when fields change.
    pub version: u32,
    /// Ordered list of fields.
    pub fields: Vec<DnaField>,
}

/// The position of the first field named `name`, or -1.
pub open spec fn first_field(fields: Seq<FieldModel>, name: Seq<char>) -> int
    decreases fields.len(),
{
    if fields.len() == 0 {
        -1
    } else if fields[0].name == name {
        0
    } else {
        let r = first_field(fields.drop_first(), name);
        if r < 0 {
            -1
        } else {
            r + 1
        }
    }
}

/// The value a field starts with: its default, or its type's default.
pub open spec fn field_default(f: FieldModel) -> ValueModel {
    match f.default {
        Some(v) => v,
        None => default_model(f.ty),
    }
}

/// The entries of a schema's default value: each field's name and start
/// value, inserted in field order (a repeated name keeps its first place
/// and takes the later value).
pub open spec fn default_entries(fields: Seq<FieldModel>) -> Seq<(Seq<char>, ValueModel)>
    decreases fields.len(),
{
    if fields.len() == 0 {
        Seq::empty()
    } else {
        entries_insert(default_entries(fields.drop_last()), fields.last().name, field_default(fields.last()))
    }
}

pub proof fn lemma_first_field(fields: Seq<FieldModel>, name: Seq<char>)
    ensures
        -1 <= first_field(fields, name) < fields.len(),
        first_field(fields, name) >= 0 ==> fields[first_field(fields, name)].name == name,
        forall|j: int| 0 <= j < fields.len() && (first_field(fields, name) < 0 || j < first_field(fields, name))
            ==> #[trigger] fields[j].name != name,
    decreases fields.len(),
{
    if fields.len() > 0 && fields[0].name != name {
        lemma_first_field(fields.drop_first(), name);
        assert forall|j: int| 0 < j < fields.len() implies #[trigger] fields[j] == fields.drop_first()[j - 1] by {}
    }
}

impl DnaSchema {
    pub open spec fn model(self) -> SchemaModel {
        SchemaModel {
            name: self.name@,
            version: self.version,
            fields: fields_model(self.fields@),
        }
    }

    /// A schema with the given name and version and no fields.
    pub fn new(name: &str, version: u32) -> (s: DnaSchema)
        ensures
            s.model() == (SchemaModel { name: name@, version, fields: Seq::empty() }),
    {
        let s = DnaSchema { name: name.to_owned(), version, fields: Vec::new() };
        assert(s.model().fields =~= Seq::<FieldModel>::empty());
        s
    }

    /// Builder: add a field at the end.
    pub fn field(self, field: DnaField) -> (s: DnaSchema)
        ensures
            s.model() == (SchemaModel { fields: self.model().fields.push(field.model()), ..self.model() }),
    {
        let mut s = self;
        s.fields.push(field);
        assert(s.model().fields =~= self.model().fields.push(field.model()));
        s
    }

    /// The first field with the given name.
    pub fn get_field(&self, name: &str) -> (r: Option<&DnaField>)
        ensures
            match r {
                Some(f) => {
                    let i = first_field(self.model().fields, name@);
                    i >= 0 && f.model() == self.model().fields[i]
                },
                None => first_field(self.model().fields, name@) < 0,
            },
    {
        let ghost fs = self.model().fields;
        proof {
            lemma_first_field(fs, name@);
        }
        let mut i: usize = 0;
        while i < self.fields.len()
            invariant
                i <= self.fields.len(),
                fs == self.model().fields,
                forall|j: int| 0 <= j < i ==> #[trigger] fs[j].name != name@,
                -1 <= first_field(fs, name@) < fs.len(),
                first_field(fs, name@) >= 0 ==> fs[first_field(fs, name@)].name == name@,
                forall|j: int| 0 <= j < fs.len() && (first_field(fs, name@) < 0 || j < first_field(fs, name@))
                    ==> #[trigger] fs[j].name != name@,
            decreases self.fields.len() - i,
        {
            if str_eq(self.fields[i].name.as_str(), name) {
                assert(fs[i as int].name == name@);
                return Some(&self.fields[i]);
            }
            assert(fs[i as int].name != name@);
            i = i + 1;
        }
        None
    }

    /// The names of the fields, in order.
    pub fn field_names(&self) -> (r: Vec<&str>)
        ensures
            r@.len() == self.fields@.len(),
            forall|i: int| 0 <= i < r@.len() ==> (#[trigger] r@[i])@ == self.fields@[i].name@,
    {
        let mut r: Vec<&str> = Vec::new();
        let mut i: usize = 0;
        while i < self.fields.len()
            invariant
                i <= self.fields.len(),
                r@.len() == i,
                forall|j: int| 0 <= j < i ==> (#[trigger] r@[j])@ == self.fields@[j].name@,
            decreases self.fields.len() - i,
        {
            r.push(self.fields[i].name.as_str());
            i = i + 1;
        }
        r
    }

    /// A struct value with every field set to its default (or its type's
    /// default), in field order.
    pub fn default_value(&self) -> (v: DnaValue)
        ensures
            v.model() == ValueModel::Struct(default_entries(self.model().fields)),
    {
        let ghost fs = self.model().fields;
        let mut map = DnaMap::new();
        let mut i: usize = 0;
        while i < self.fields.len()
            invariant
                i <= self.fields.len(),
                fs == self.model().fields,
                super::value::dna_map_entries(map) == default_entries(fs.take(i as int)),
            decreases self.fields.len() - i,
        {
            let field = &self.fields[i];
            let value = match &field.default {
                Some(d) => d.clone(),
                None => DnaValue::default_for_type(&field.ty),
            };
            map.insert(field.name.clone(), value);
            assert(fs.take(i + 1).drop_last() =~= fs.take(i as int));
            assert(fs.take(i + 1).last() == field.model());
            i = i + 1;
        }
        assert(fs.take(self.fields.len() as int) =~= fs);
        DnaValue::Struct(map)
    }
}

impl Clone for DnaSchema {
    fn clone(&self) -> (r: Self)
        ensures
            r.model() == self.model(),
    {
        let mut fields: Vec<DnaField> = Vec::new();
        let mut i: usize = 0;
        while i < self.fields.len()
            invariant
                i <= self.fields.len(),
                fields@.len() == i,
                forall|j: int| 0 <= j < i ==> (#[trigger] fields@[j]).model() == self.fields@[j].model(),
            decreases self.fields.len() - i,
        {
            fields.push(self.fields[i].clone());
            i = i + 1;
        }
        let r = DnaSchema { name: self.name.clone(), version: self.version, fields };
        assert(r.model().fields =~= self.model().fields);
        r
    }
}

} // verus!
