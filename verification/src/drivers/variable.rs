//! Driver variables: named inputs to driver expressions.

use vstd::prelude::*;

use super::source::DriverSource;

verus! {

/// A named variable that feeds into a driver expression.
#[derive(Debug, Clone)]
pub struct DriverVariable {
    /// Display name of the variable.
    pub name: String,
    /// The source that provides this variable's value.
    pub source: DriverSource,
    /// Cached last-evaluated value, as the bit pattern of an `f64`.
    pub cached_value: u64,
    /// Whether the cache is valid.
    pub cache_valid: bool,
}

impl DriverVariable {
    /// A variable reading from `source`, with an invalid cache holding 0.
    pub fn new(name: &str, source: DriverSource) -> (v: DriverVariable)
        ensures
            v.name@ == name@,
            v.source == source,
            v.cached_value == 0,
            !v.cache_valid,
    {
        DriverVariable { name: name.to_owned(), source, cached_value: 0, cache_valid: false }
    }

    /// Invalidate the cached value.
    pub fn invalidate(&mut self)
        ensures
            !final(self).cache_valid,
            final(self).name == old(self).name,
            final(self).source == old(self).source,
            final(self).cached_value == old(self).cached_value,
    {
        self.cache_valid = false;
    }
}

/// Transform channel that can be read from a target.
#[derive(Debug, Clone, Copy, PartialEq, Eq, Hash, Structural)]
pub enum TransformChannel {
    LocationX,
    LocationY,
    LocationZ,
    RotationX,
    RotationY,
    RotationZ,
    RotationW,
    ScaleX,
    ScaleY,
    ScaleZ,
}

/// Transform space for reading values.
#[derive(Debug, Clone, Copy, PartialEq, Eq, Hash, Structural)]
pub enum TransformSpace {
    /// World space.
    World,
    /// Object/armature local space.
    Local,
    /// Evaluated transform space.
    Transform,
}

impl Default for TransformSpace {
    fn default() -> (r: Self)
        ensures
            r == TransformSpace::World,
    {
        TransformSpace::World
    }
}

} // verus!
