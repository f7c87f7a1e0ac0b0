//! Socket types, values and connection metadata. Floating-point payloads
//! are held as the bit patterns of `f32` values.

use vstd::prelude::*;
use vstd::string::*;

verus! {

/// Direction of a socket (input or output).
#[derive(Debug, Clone, Copy, PartialEq, Eq, Hash, Structural)]
pub enum SocketDirection {
    Input,
    Output,
}

/// Data type carried by a socket.
#[derive(Debug, Clone, Copy, PartialEq, Eq, Hash, Structural)]
pub enum SocketType {
    /// Single float.
    Float,
    /// 3-component vector.
    Vector,
    /// RGBA color.
    Color,
    /// Boolean.
    Bool,
    /// 32-bit signed integer.
    Int,
    /// Geometry data (mesh, curve, point cloud, etc.).
    Geometry,
    /// A string value.
    String,
    /// An object reference.
    Object,
    /// A collection reference.
    Collection,
    /// A material reference.
    Material,
    /// An image reference.
    Image,
    /// A texture reference.
    Texture,
}

/// The name of a socket type, as `Debug` writes it.
pub open spec fn socket_type_text(t: SocketType) -> Seq<char> {
    match t {
        SocketType::Float => "Float"@,
        SocketType::Vector => "Vector"@,
        SocketType::Color => "Color"@,
        SocketType::Bool => "Bool"@,
        SocketType::Int => "Int"@,
        SocketType::Geometry => "Geometry"@,
        SocketType::String => "String"@,
        SocketType::Object => "Object"@,
        SocketType::Collection => "Collection"@,
        SocketType::Material => "Material"@,
        SocketType::Image => "Image"@,
        SocketType::Texture => "Texture"@,
    }
}

impl SocketType {
    /// The type's name, as `Debug` writes it.
    pub fn name(self) -> (r: String)
        ensures
            r@ == socket_type_text(self),
    {
        match self {
            SocketType::Float => String::from_str("Float"),
            SocketType::Vector => String::from_str("Vector"),
            SocketType::Color => String::from_str("Color"),
            SocketType::Bool => String::from_str("Bool"),
            SocketType::Int => String::from_str("Int"),
            SocketType::Geometry => String::from_str("Geometry"),
            SocketType::String => String::from_str("String"),
            SocketType::Object => String::from_str("Object"),
            SocketType::Collection => String::from_str("Collection"),
            SocketType::Material => String::from_str("Material"),
            SocketType::Image => String::from_str("Image"),
            SocketType::Texture => String::from_str("Texture"),
        }
    }
}

/// Concrete value stored in or passed through a socket.
#[derive(Debug)]
pub enum SocketValue {
    Float(u32),
    Vector([u32; 3]),
    Color([u32; 4]),
    Bool(bool),
    Int(i32),
    String(String),
    /// Geometry is opaque at this level; the evaluator handles it.
    Geometry,
    /// No value (unconnected optional socket).
    NoValue,
}

impl Clone for SocketValue {
    fn clone(&self) -> (r: Self)
        ensures
            r == *self,
    {
        match self {
            SocketValue::Float(v) => SocketValue::Float(*v),
            SocketValue::Vector(v) => SocketValue::Vector(*v),
            SocketValue::Color(v) => SocketValue::Color(*v),
            SocketValue::Bool(b) => SocketValue::Bool(*b),
            SocketValue::Int(v) => SocketValue::Int(*v),
            SocketValue::String(s) => SocketValue::String(s.clone()),
            SocketValue::Geometry => SocketValue::Geometry,
            SocketValue::NoValue => SocketValue::NoValue,
        }
    }
}

impl SocketValue {
    /// The socket type of this value (`Float` for no value).
    pub fn socket_type(&self) -> (t: SocketType)
        ensures
            t == match self {
                SocketValue::Float(_) => SocketType::Float,
                SocketValue::Vector(_) => SocketType::Vector,
                SocketValue::Color(_) => SocketType::Color,
                SocketValue::Bool(_) => SocketType::Bool,
                SocketValue::Int(_) => SocketType::Int,
                SocketValue::String(_) => SocketType::String,
                SocketValue::Geometry => SocketType::Geometry,
                SocketValue::NoValue => SocketType::Float,
            },
    {
        match self {
            SocketValue::Float(_) => SocketType::Float,
            SocketValue::Vector(_) => SocketType::Vector,
            SocketValue::Color(_) => SocketType::Color,
            SocketValue::Bool(_) => SocketType::Bool,
            SocketValue::Int(_) => SocketType::Int,
            SocketValue::String(_) => SocketType::String,
            SocketValue::Geometry => SocketType::Geometry,
            // Default fallback.
            SocketValue::NoValue => SocketType::Float,
        }
    }

    /// The value as a vector: a vector itself, or a float repeated three
    /// times.
    pub fn as_vector(&self) -> (r: Option<[u32; 3]>)
        ensures
            r == match self {
                SocketValue::Vector(v) => Some(*v),
                SocketValue::Float(f) => Some([*f, *f, *f]),
                _ => None::<[u32; 3]>,
            },
    {
        match self {
            SocketValue::Vector(v) => Some(*v),
            SocketValue::Float(f) => Some([*f, *f, *f]),
            _ => None,
        }
    }
}

/// A socket definition on a node.
#[derive(Debug, Clone)]
pub struct Socket {
    /// Socket name (unique within the node).
    pub name: String,
    /// Direction.
    pub direction: SocketDirection,
    /// Data type.
    pub socket_type: SocketType,
    /// Default value (used when no link is connected).
    pub default_value: SocketValue,
    /// Whether this socket is hidden in the UI.
    pub hidden: bool,
    /// Minimum value (for numeric types), as `f32` bits.
    pub min: Option<u32>,
    /// Maximum value (for numeric types), as `f32` bits.
    pub max: Option<u32>,
}

impl Socket {
    /// An input socket with a default value.
    pub fn input(name: &str, socket_type: SocketType, default: SocketValue) -> (s: Socket)
        ensures
            s.name@ == name@,
            s.direction == SocketDirection::Input,
            s.socket_type == socket_type,
            s.default_value == default,
            !s.hidden,
            s.min is None,
            s.max is None,
    {
        Socket {
            name: name.to_owned(),
            direction: SocketDirection::Input,
            socket_type,
            default_value: default,
            hidden: false,
            min: None,
            max: None,
        }
    }

    /// An output socket.
    pub fn output(name: &str, socket_type: SocketType) -> (s: Socket)
        ensures
            s.name@ == name@,
            s.direction == SocketDirection::Output,
            s.socket_type == socket_type,
            s.default_value == SocketValue::NoValue,
            !s.hidden,
            s.min is None,
            s.max is None,
    {
        Socket {
            name: name.to_owned(),
            direction: SocketDirection::Output,
            socket_type,
            default_value: SocketValue::NoValue,
            hidden: false,
            min: None,
            max: None,
        }
    }
}

} // verus!
