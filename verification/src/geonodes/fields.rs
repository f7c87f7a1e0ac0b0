//! Fields: lazy, per-element evaluation of attributes.
//!
//! A [`Field`] is a computation that can be evaluated for each element of a
//! domain (point, edge, face, corner, instance, ...). Floating-point
//! parameters are held as the bit patterns of `f32` values.

use vstd::prelude::*;

verus! {

/// Element domain over which a field is evaluated.
#[derive(Debug, Clone, Copy, PartialEq, Eq, Hash, Structural)]
pub enum FieldDomain {
    Point,
    Edge,
    Face,
    Corner,
    Curve,
    /// Per-spline domain (each spline in a curve is one element).
    Spline,
    Instance,
}

/// The kind of data a field produces per element.
#[derive(Debug, Clone, Copy, PartialEq, Eq, Hash, Structural)]
pub enum FieldDataType {
    Float,
    Int,
    Bool,
    Vector,
    Color,
}

/// A composable field node (lazy evaluation tree).
#[derive(Debug)]
pub enum Field {
    /// A constant value broadcast to all elements.
    Constant(FieldValue),
    /// Read a named attribute from the geometry.
    Attribute { name: String, domain: FieldDomain, data_type: FieldDataType },
    /// Unary math operation on a child field.
    UnaryMath { op: UnaryMathOp, input: Box<Field> },
    /// Binary math operation on two child fields.
    BinaryMath { op: BinaryMathOp, a: Box<Field>, b: Box<Field> },
    /// Map range: remap a float field from [from_min, from_max] to
    /// [to_min, to_max].
    MapRange { value: Box<Field>, from_min: u32, from_max: u32, to_min: u32, to_max: u32 },
    /// Position built-in field.
    Position,
    /// Normal built-in field.
    Normal,
    /// Index built-in field.
    Index,
    /// Random value per element.
    Random { seed: i32, min: u32, max: u32 },
}

/// Concrete field value.
#[derive(Debug, Clone, Copy, PartialEq, Eq)]
pub enum FieldValue {
    Float(u32),
    Int(i32),
    Bool(bool),
    Vector([u32; 3]),
    Color([u32; 4]),
}

/// Unary math operations.
#[derive(Debug, Clone, Copy, PartialEq, Eq, Hash, Structural)]
pub enum UnaryMathOp {
    Negate,
    Abs,
    Sqrt,
    Floor,
    Ceil,
    Round,
    Sin,
    Cos,
    Tan,
    Asin,
    Acos,
    Atan,
    Exp,
    Log,
    Sign,
    Normalize,
    Length,
}

/// Binary math operations.
#[derive(Debug, Clone, Copy, PartialEq, Eq, Hash, Structural)]
pub enum BinaryMathOp {
    Add,
    Subtract,
    Multiply,
    Divide,
    Power,
    Min,
    Max,
    Modulo,
    Atan2,
    Dot,
    Cross,
    Distance,
    Compare,
}

impl Clone for Field {
    fn clone(&self) -> (r: Self)
        ensures
            r == *self,
        decreases self,
    {
        match self {
            Field::Constant(v) => Field::Constant(*v),
            Field::Attribute { name, domain, data_type } => Field::Attribute {
                name: name.clone(),
                domain: *domain,
                data_type: *data_type,
            },
            Field::UnaryMath { op, input } => Field::UnaryMath { op: *op, input: Box::new((**input).clone()) },
            Field::BinaryMath { op, a, b } => Field::BinaryMath {
                op: *op,
                a: Box::new((**a).clone()),
                b: Box::new((**b).clone()),
            },
            Field::MapRange { value, from_min, from_max, to_min, to_max } => Field::MapRange {
                value: Box::new((**value).clone()),
                from_min: *from_min,
                from_max: *from_max,
                to_min: *to_min,
                to_max: *to_max,
            },
            Field::Position => Field::Position,
            Field::Normal => Field::Normal,
            Field::Index => Field::Index,
            Field::Random { seed, min, max } => Field::Random { seed: *seed, min: *min, max: *max },
        }
    }
}

impl Field {
    /// A constant float field (the value as `f32` bits).
    pub fn constant_float(value: u32) -> (f: Field)
        ensures
            f == Field::Constant(FieldValue::Float(value)),
    {
        Field::Constant(FieldValue::Float(value))
    }

    /// A constant vector field (the components as `f32` bits).
    pub fn constant_vector(value: [u32; 3]) -> (f: Field)
        ensures
            f == Field::Constant(FieldValue::Vector(value)),
    {
        Field::Constant(FieldValue::Vector(value))
    }

    /// A field reading the named attribute.
    pub fn attribute(name: &str, domain: FieldDomain, data_type: FieldDataType) -> (f: Field)
        ensures
            f matches Field::Attribute { name: n, domain: d, data_type: t } && n@ == name@ && d == domain
                && t == data_type,
    {
        Field::Attribute { name: name.to_owned(), domain, data_type }
    }

    /// Compose: add two fields.
    pub fn add(self, other: Field) -> (f: Field)
        ensures
            f == (Field::BinaryMath { op: BinaryMathOp::Add, a: Box::new(self), b: Box::new(other) }),
    {
        Field::BinaryMath { op: BinaryMathOp::Add, a: Box::new(self), b: Box::new(other) }
    }

    /// Compose: multiply two fields.
    pub fn multiply(self, other: Field) -> (f: Field)
        ensures
            f == (Field::BinaryMath { op: BinaryMathOp::Multiply, a: Box::new(self), b: Box::new(other) }),
    {
        Field::BinaryMath { op: BinaryMathOp::Multiply, a: Box::new(self), b: Box::new(other) }
    }

    /// Compose: negate a field.
    pub fn negate(self) -> (f: Field)
        ensures
            f == (Field::UnaryMath { op: UnaryMathOp::Negate, input: Box::new(self) }),
    {
        Field::UnaryMath { op: UnaryMathOp::Negate, input: Box::new(self) }
    }
}

} // verus!
