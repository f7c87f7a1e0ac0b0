//! Geometry nodes: a node graph that processes geometry through composable
//! operations: fields (lazy per-element evaluation), sockets, nodes, the
//! graph structure and its evaluator.

pub mod evaluation;
pub mod fields;
pub mod graph;
pub mod nodes;
pub mod sockets;

use vstd::prelude::*;
use vstd::string::*;

use crate::text::{decimal, push_decimal64};

verus! {

/// Errors from geometry-node evaluation.
#[derive(Debug)]
pub enum GeoNodeError {
    /// A node has no input for a socket.
    MissingInput { node_id: u64, socket: String },
    /// A link joins sockets of incompatible types.
    TypeMismatch { socket: String, expected: String, actual: String },
    /// The graph contains a cycle.
    CycleDetected,
    /// A node type is not registered.
    UnknownNodeType(String),
    /// Field evaluation failed.
    FieldError(String),
    /// Evaluation was cancelled.
    Cancelled,
}

impl GeoNodeError {
    /// The error's message.
    pub fn to_string(&self) -> (r: String)
        ensures
            r@ == match self {
                GeoNodeError::MissingInput { node_id, socket } => "node "@ + decimal(*node_id as nat)
                    + " has no input for socket `"@ + socket@ + "`"@,
                GeoNodeError::TypeMismatch { socket, expected, actual } => "type mismatch: socket `"@ + socket@
                    + "` expected "@ + expected@ + ", got "@ + actual@,
                GeoNodeError::CycleDetected => "graph contains a cycle"@,
                GeoNodeError::UnknownNodeType(name) => "node type `"@ + name@ + "` is not registered"@,
                GeoNodeError::FieldError(msg) => "field evaluation failed: "@ + msg@,
                GeoNodeError::Cancelled => "evaluation cancelled"@,
            },
    {
        match self {
            GeoNodeError::MissingInput { node_id, socket } => {
                let mut s = String::from_str("node ");
                push_decimal64(&mut s, *node_id);
                s.append(" has no input for socket `");
                s.append(socket.as_str());
                s.append("`");
                s
            },
            GeoNodeError::TypeMismatch { socket, expected, actual } => {
                let mut s = String::from_str("type mismatch: socket `");
                s.append(socket.as_str());
                s.append("` expected ");
                s.append(expected.as_str());
                s.append(", got ");
                s.append(actual.as_str());
                s
            },
            GeoNodeError::CycleDetected => String::from_str("graph contains a cycle"),
            GeoNodeError::UnknownNodeType(name) => {
                let mut s = String::from_str("node type `");
                s.append(name.as_str());
                s.append("` is not registered");
                s
            },
            GeoNodeError::FieldError(msg) => {
                let mut s = String::from_str("field evaluation failed: ");
                s.append(msg.as_str());
                s
            },
            GeoNodeError::Cancelled => String::from_str("evaluation cancelled"),
        }
    }
}

/// Result alias.
pub type GeoNodeResult<T> = Result<T, GeoNodeError>;

} // verus!
