//! DNA: the runtime type information of Forge3D: schemas describing struct
//! layouts, dynamic values, property paths into nested values, a schema
//! registry and versioned schema migration.

pub mod derive;
pub mod registry;
pub mod schema;
pub mod value;
pub mod versioning;
