//! Drivers attached to properties.

use vstd::prelude::*;

use super::expression::Expression;
use super::variable::DriverVariable;
use super::DriverType;

verus! {

/// A fully configured driver attached to a property.
#[derive(Debug, Clone)]
pub struct Driver {
    /// How variables are combined.
    pub driver_type: DriverType,
    /// Variables that feed into the driver.
    pub variables: Vec<DriverVariable>,
    /// Scripted expression (used when `driver_type == ScriptedExpression`).
    pub expression: Option<Expression>,
    /// Whether this driver is muted.
    pub muted: bool,
    /// Whether this driver uses a self-reference (needs special ordering).
    pub use_self: bool,
}

impl Driver {
    /// A driver of the given type, without variables or expression, not
    /// muted.
    pub fn new(driver_type: DriverType) -> (d: Driver)
        ensures
            d.driver_type == driver_type,
            d.variables@.len() == 0,
            d.expression is None,
            !d.muted,
            !d.use_self,
    {
        Driver { driver_type, variables: Vec::new(), expression: None, muted: false, use_self: false }
    }
}

} // verus!
