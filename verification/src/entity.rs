//! Entity identifiers.

use vstd::prelude::*;

verus! {

/// An opaque entity identifier.  The storage only reads its `index`, which is
/// the key into the sparse array; two identifiers with the same index denote
/// the same entity as far as a storage is concerned.
#[derive(Clone, Copy, PartialEq, Eq, Structural, Debug)]
pub struct EntityId {
    index: usize,
}

impl EntityId {
    /// The index this identifier carries, as seen by specifications.
    pub closed spec fn idx(self) -> usize {
        self.index
    }

    /// The identifier with index zero.
    pub fn zero() -> (r: EntityId)
        ensures
            r.idx() == 0,
    {
        EntityId { index: 0 }
    }

    /// Read the sparse-array index.
    pub fn index(&self) -> (r: usize)
        ensures
            r == self.idx(),
    {
        self.index
    }

    /// Replace the sparse-array index.
    pub fn set_index(&mut self, index: usize)
        ensures
            final(self).idx() == index,
    {
        self.index = index;
    }
}

} // verus!
