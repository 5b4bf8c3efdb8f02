//! Read-only views over a contiguous sub-range of a storage's dense region.

use vstd::prelude::*;

use crate::entity::EntityId;

verus! {

/// A borrowed view of a contiguous sub-range of a storage's dense arrays
/// whose components may be mutated in place.
///
/// Lookups resolve as in [`Window`]; the components of the spanned range are
/// exposed through the mutable `data` slice, index-aligned with `dense`.
/// The entity list and the sparse array stay read-only: a window cannot
/// reorder its parent.
pub struct WindowMut<'a, T> {
    pub sparse: &'a [usize],
    pub dense: &'a [EntityId],
    pub data: &'a mut [T],
    pub offset: usize,
}

impl<'a, T> WindowMut<'a, T> {
    /// Membership as seen through the window.
    pub open spec fn spec_contains(self, e: EntityId) -> bool {
        &&& e.idx() < self.sparse@.len()
        &&& self.offset <= self.sparse@[e.idx() as int]
        &&& self.sparse@[e.idx() as int] - self.offset < self.dense@.len()
        &&& self.dense@[self.sparse@[e.idx() as int] - self.offset].idx() == e.idx()
    }

    /// Number of entries the window spans.
    pub fn len(&self) -> (r: usize)
        ensures
            r == self.dense@.len(),
    {
        self.dense.len()
    }

    /// Whether the window spans no entries.
    pub fn is_empty(&self) -> (r: bool)
        ensures
            r == (self.dense@.len() == 0),
    {
        self.dense.len() == 0
    }

    /// Membership test for an entity, resolved through the parent sparse
    /// array and restricted to the window's range.
    pub fn contains(&self, entity: EntityId) -> (r: bool)
        ensures
            r == self.spec_contains(entity),
    {
        let i = entity.index();
        if i >= self.sparse.len() {
            return false;
        }
        let p = *vstd::slice::slice_index_get(self.sparse, i);
        p >= self.offset && p - self.offset < self.dense.len() && vstd::slice::slice_index_get(
            self.dense,
            p - self.offset,
        ).index() == i
    }
}

/// A borrowed view of a contiguous sub-range of a storage's dense arrays.
///
/// `dense` and `data` are index-aligned slices of the parent arrays starting
/// at dense position `offset`; `sparse` is the parent sparse array (or an
/// empty slice for a guaranteed-empty view).  A lookup resolves through the
/// parent sparse array and then requires the dense position to fall inside
/// the window's range.
pub struct Window<'a, T> {
    pub sparse: &'a [usize],
    pub dense: &'a [EntityId],
    pub data: &'a [T],
    pub offset: usize,
}

impl<'a, T> Window<'a, T> {
    /// Membership as seen through the window.
    pub open spec fn spec_contains(self, e: EntityId) -> bool {
        &&& e.idx() < self.sparse@.len()
        &&& self.offset <= self.sparse@[e.idx() as int]
        &&& self.sparse@[e.idx() as int] - self.offset < self.dense@.len()
        &&& self.dense@[self.sparse@[e.idx() as int] - self.offset].idx() == e.idx()
    }

    /// The component seen for an entity, meaningful when `spec_contains`
    /// holds.
    pub open spec fn spec_value_of(self, e: EntityId) -> T {
        self.data@[self.sparse@[e.idx() as int] - self.offset]
    }

    /// Number of entries the window spans.
    pub fn len(&self) -> (r: usize)
        ensures
            r == self.dense@.len(),
    {
        self.dense.len()
    }

    /// Whether the window spans no entries.
    pub fn is_empty(&self) -> (r: bool)
        ensures
            r == (self.dense@.len() == 0),
    {
        self.dense.len() == 0
    }

    /// Whether the window shows the degenerate unique storage.
    pub fn is_unique(&self) -> (r: bool)
        ensures
            r == (self.sparse@.len() == 0 && self.dense@.len() == 0 && self.data@.len() == 1),
    {
        self.sparse.len() == 0 && self.dense.len() == 0 && self.data.len() == 1
    }

    /// Membership test for an entity, resolved through the parent sparse
    /// array and restricted to the window's range.
    pub fn contains(&self, entity: EntityId) -> (r: bool)
        ensures
            r == self.spec_contains(entity),
    {
        let i = entity.index();
        if i >= self.sparse.len() {
            return false;
        }
        let p = *vstd::slice::slice_index_get(self.sparse, i);
        p >= self.offset && p - self.offset < self.dense.len() && vstd::slice::slice_index_get(
            self.dense,
            p - self.offset,
        ).index() == i
    }

    /// Look the component up for an entity inside the window.
    pub fn get(&self, entity: EntityId) -> (r: Option<&'a T>)
        requires
            self.dense@.len() <= self.data@.len(),
        ensures
            self.spec_contains(entity) ==> r.is_some() && *r.unwrap() == self.spec_value_of(
                entity,
            ),
            !self.spec_contains(entity) ==> r.is_none(),
    {
        if self.contains(entity) {
            let p = *vstd::slice::slice_index_get(self.sparse, entity.index());
            Some(vstd::slice::slice_index_get(self.data, p - self.offset))
        } else {
            None
        }
    }
}

} // verus!
