//! Forge3D scene-evaluation core: the dependency graph, the DNA type system,
//! animation drivers, geometry node graphs and constraint descriptions.
use vstd::prelude::*;

pub mod depsgraph;
pub mod ahash_map;
pub mod index_map;
pub mod text;
pub mod dna;
pub mod drivers;
pub mod geonodes;
pub mod constraints;

verus! {
}
