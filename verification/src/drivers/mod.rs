//! Animation drivers: expression-based property linking.
//!
//! Drivers let one property be controlled by an expression over other
//! properties, transforms, distances and so on. This module holds the
//! driver descriptions and the expression language's lexer and parser;
//! numeric evaluation is done by the caller.

pub mod evaluate;
pub mod expression;
pub mod operators;
pub mod parser;
pub mod runtime;
pub mod source;
pub mod variable;

use vstd::prelude::*;
use vstd::string::*;

verus! {

/// Errors from driver parsing and evaluation.
#[derive(Debug)]
pub enum DriverError {
    /// A variable was not found.
    VariableNotFound(String),
    /// The expression could not be parsed.
    ParseError(String),
    /// The expression could not be evaluated.
    EvalError(String),
    /// A cyclic driver dependency was detected.
    CyclicDependency,
    /// The driver's target is invalid.
    InvalidTarget(String),
}

impl DriverError {
    /// The error's message.
    pub fn to_string(&self) -> (r: String)
        ensures
            r@ == match self {
                DriverError::VariableNotFound(name) => "variable `"@ + name@ + "` not found"@,
                DriverError::ParseError(msg) => "expression parse error: "@ + msg@,
                DriverError::EvalError(msg) => "expression evaluation error: "@ + msg@,
                DriverError::CyclicDependency => "cyclic driver dependency detected"@,
                DriverError::InvalidTarget(msg) => "invalid driver target: "@ + msg@,
            },
    {
        match self {
            DriverError::VariableNotFound(name) => {
                let mut s = String::from_str("variable `");
                s.append(name.as_str());
                s.append("` not found");
                s
            },
            DriverError::ParseError(msg) => {
                let mut s = String::from_str("expression parse error: ");
                s.append(msg.as_str());
                s
            },
            DriverError::EvalError(msg) => {
                let mut s = String::from_str("expression evaluation error: ");
                s.append(msg.as_str());
                s
            },
            DriverError::CyclicDependency => String::from_str("cyclic driver dependency detected"),
            DriverError::InvalidTarget(msg) => {
                let mut s = String::from_str("invalid driver target: ");
                s.append(msg.as_str());
                s
            },
        }
    }
}

pub type DriverResult<T> = Result<T, DriverError>;

/// How a driver combines its variables.
#[derive(Debug, Clone, Copy, PartialEq, Eq, Hash, Structural)]
pub enum DriverType {
    /// Average all variable values.
    Average,
    /// Sum all variable values.
    Sum,
    /// Use a scripted expression.
    ScriptedExpression,
    /// Use the minimum variable value.
    Min,
    /// Use the maximum variable value.
    Max,
}

impl Default for DriverType {
    fn default() -> (r: Self)
        ensures
            r == DriverType::Average,
    {
        DriverType::Average
    }
}

} // verus!
