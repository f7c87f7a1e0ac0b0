//! Dependency graph: tracks relationships between scene data (objects, bones,
//! constraints, modifiers, ...) and evaluates them in topologically sorted
//! order.

pub mod builder;
pub mod evaluate;
pub mod kahn;
pub mod node;
pub mod order;
pub mod propagate;
pub mod relations;
pub mod schedule;
pub mod tag;

use vstd::prelude::*;
use vstd::string::*;

verus! {

/// Unique identifier for a node in the dependency graph.
pub type NodeId = u32;

/// Errors from the dependency graph.
#[derive(Debug)]
pub enum DepsgraphError {
    /// A node was not found in the dependency graph.
    NodeNotFound(String),
    /// A cyclic dependency involves the named node.
    CyclicDependency(String),
    /// Evaluation failed for the named node, with the evaluator's message.
    EvalFailed(String, String),
    /// The graph could not be built.
    BuildError(String),
}

impl DepsgraphError {
    /// The error's message.
    pub fn to_string(&self) -> (r: String)
        ensures
            r@ == match self {
                DepsgraphError::NodeNotFound(n) => "node `"@ + n@ + "` not found in the dependency graph"@,
                DepsgraphError::CyclicDependency(n) => "cyclic dependency detected involving node `"@ + n@ + "`"@,
                DepsgraphError::EvalFailed(n, m) => "evaluation failed for node `"@ + n@ + "`: "@ + m@,
                DepsgraphError::BuildError(m) => "graph build error: "@ + m@,
            },
    {
        match self {
            DepsgraphError::NodeNotFound(n) => {
                let mut s = String::from_str("node `");
                s.append(n.as_str());
                s.append("` not found in the dependency graph");
                s
            },
            DepsgraphError::CyclicDependency(n) => {
                let mut s = String::from_str("cyclic dependency detected involving node `");
                s.append(n.as_str());
                s.append("`");
                s
            },
            DepsgraphError::EvalFailed(n, m) => {
                let mut s = String::from_str("evaluation failed for node `");
                s.append(n.as_str());
                s.append("`: ");
                s.append(m.as_str());
                s
            },
            DepsgraphError::BuildError(m) => {
                let mut s = String::from_str("graph build error: ");
                s.append(m.as_str());
                s
            },
        }
    }
}

pub type DepsgraphResult<T> = Result<T, DepsgraphError>;

} // verus!
