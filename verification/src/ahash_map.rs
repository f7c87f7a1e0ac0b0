//! The hash map of the `ahash` crate, as seen by Verus.

use ahash::AHashMap;
use vstd::prelude::*;

verus! {

/// `ahash::AHashMap`, declared so that it can stand in fields and
/// signatures; its contents are reached through the named views and
/// wrappers of the modules that use it.
#[verifier::external_type_specification]
#[verifier::external_body]
#[verifier::reject_recursive_types(K)]
#[verifier::reject_recursive_types(V)]
#[verifier::reject_recursive_types(S)]
pub struct ExAHashMap<K, V, S>(AHashMap<K, V, S>);

/// `ahash::RandomState`, the default hasher of `AHashMap`.
#[verifier::external_type_specification]
#[verifier::external_body]
pub struct ExRandomState(ahash::RandomState);

} // verus!
