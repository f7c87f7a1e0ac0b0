//! Dirty tags: bit sets telling which aspects of a node need re-evaluation.

use vstd::prelude::*;
use vstd::std_specs::ops::BitOrSpecImpl;

verus! {

/// Dirty tags for dependency graph nodes.
///
/// Each bit indicates a particular aspect that has changed and needs
/// re-evaluation.
#[derive(Debug, Clone, Copy, PartialEq, Eq, Hash, Structural)]
pub struct DirtyTags(pub u32);

impl DirtyTags {
    /// Transform has changed.
    pub fn transform() -> (r: DirtyTags)
        ensures
            r.0 == 1,
    {
        DirtyTags(1)
    }
    /// Geometry has changed.
    pub fn geometry() -> (r: DirtyTags)
        ensures
            r.0 == 2,
    {
        DirtyTags(2)
    }
    /// Animation data has changed.
    pub fn animation() -> (r: DirtyTags)
        ensures
            r.0 == 4,
    {
        DirtyTags(4)
    }
    /// Time has changed (new frame).
    pub fn time() -> (r: DirtyTags)
        ensures
            r.0 == 8,
    {
        DirtyTags(8)
    }
    /// Shading/material has changed.
    pub fn shading() -> (r: DirtyTags)
        ensures
            r.0 == 16,
    {
        DirtyTags(16)
    }
    /// Constraint has changed.
    pub fn constraints() -> (r: DirtyTags)
        ensures
            r.0 == 32,
    {
        DirtyTags(32)
    }
    /// Particle system has changed.
    pub fn particles() -> (r: DirtyTags)
        ensures
            r.0 == 64,
    {
        DirtyTags(64)
    }
    /// Copy-on-write needed.
    pub fn copy_on_write() -> (r: DirtyTags)
        ensures
            r.0 == 128,
    {
        DirtyTags(128)
    }
    /// Parameters changed.
    pub fn parameters() -> (r: DirtyTags)
        ensures
            r.0 == 256,
    {
        DirtyTags(256)
    }
    /// Selection changed.
    pub fn select() -> (r: DirtyTags)
        ensures
            r.0 == 512,
    {
        DirtyTags(512)
    }
    /// Visibility changed.
    pub fn visibility() -> (r: DirtyTags)
        ensures
            r.0 == 1024,
    {
        DirtyTags(1024)
    }
    /// Everything is dirty.
    pub fn all() -> (r: DirtyTags)
        ensures
            r.0 == 0x7FF,
    {
        DirtyTags(0x7FF)
    }

    /// Whether every flag of `other` is set in `self`.
    pub open spec fn has_all(self, other: DirtyTags) -> bool {
        self.0 & other.0 == other.0
    }

    /// No dirty flags.
    pub fn empty() -> (r: DirtyTags)
        ensures
            r.0 == 0,
    {
        DirtyTags(0)
    }

    /// Check if no flags are set.
    pub fn is_empty(self) -> (b: bool)
        ensures
            b == (self.0 == 0),
    {
        self.0 == 0
    }

    /// Check if specific flags are set.
    pub fn contains(self, other: DirtyTags) -> (b: bool)
        ensures
            b == self.has_all(other),
    {
        (self.0 & other.0) == other.0
    }

    /// Check if any of the specified flags are set.
    pub fn intersects(self, other: DirtyTags) -> (b: bool)
        ensures
            b == (self.0 & other.0 != 0),
    {
        (self.0 & other.0) != 0
    }

    /// Raw bits value.
    pub fn bits(self) -> (b: u32)
        ensures
            b == self.0,
    {
        self.0
    }

    /// The union of two tag sets.
    pub fn union(self, other: DirtyTags) -> (r: DirtyTags)
        ensures
            r.0 == self.0 | other.0,
    {
        DirtyTags(self.0 | other.0)
    }
}

impl core::ops::BitOr for DirtyTags {
    type Output = DirtyTags;

    fn bitor(self, rhs: DirtyTags) -> (r: DirtyTags) {
        DirtyTags(self.0 | rhs.0)
    }
}

impl core::ops::BitOrAssign for DirtyTags {
    /// Adds the flags of `rhs`.
    fn bitor_assign(&mut self, rhs: DirtyTags)
        ensures
            final(self).0 == old(self).0 | rhs.0,
    {
        self.0 = self.0 | rhs.0;
    }
}

impl BitOrSpecImpl for DirtyTags {
    open spec fn obeys_bitor_spec() -> bool {
        true
    }

    open spec fn bitor_req(self, rhs: DirtyTags) -> bool {
        true
    }

    open spec fn bitor_spec(self, rhs: DirtyTags) -> DirtyTags {
        DirtyTags(self.0 | rhs.0)
    }
}

/// After adding `other` to `self`, every flag of `other` is set, and every
/// flag that was set stays set.
pub proof fn lemma_union_contains(a: DirtyTags, b: DirtyTags)
    ensures
        DirtyTags(a.0 | b.0).has_all(b),
        DirtyTags(a.0 | b.0).has_all(a),
        a.has_all(b) ==> (a.0 | b.0) == a.0,
{
    let x = a.0;
    let y = b.0;
    assert((x | y) & y == y) by (bit_vector);
    assert((x | y) & x == x) by (bit_vector);
    assert(x & y == y ==> (x | y) == x) by (bit_vector);
}

/// An update tag that can be sent to the depsgraph to notify of changes.
#[derive(Debug, Clone)]
pub struct UpdateTag {
    /// Name of the data block that changed.
    pub id_name: String,
    /// What changed.
    pub tags: DirtyTags,
}

impl UpdateTag {
    pub fn new(id_name: &str, tags: DirtyTags) -> (r: UpdateTag)
        ensures
            r.id_name@ == id_name@,
            r.tags == tags,
    {
        UpdateTag { id_name: id_name.to_string(), tags }
    }
}

} // verus!
