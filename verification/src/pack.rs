//! Pack modes and their bookkeeping.

use vstd::prelude::*;

use crate::entity::EntityId;
use crate::model::PackModel;

verus! {

/// Bookkeeping of a tight pack: the first `len` dense entries are packed.
/// `types` opaquely names the companion storages of the pack; the storage
/// itself never reads it.
pub struct TightPack {
    pub len: usize,
    pub types: Vec<u64>,
}

/// Bookkeeping of a loose pack: same prefix semantics as a tight pack with a
/// weaker grouping between the companion storages.
pub struct LoosePack {
    pub len: usize,
    pub tight_types: Vec<u64>,
    pub loose_types: Vec<u64>,
}

/// Bookkeeping of an update pack: the dense region splits into the inserted
/// zone `[0, inserted)`, the modified zone `[inserted, inserted + modified)`
/// and the stable tail; `removed` is an append-only log of evicted pairs.
pub struct UpdatePack<T> {
    pub inserted: usize,
    pub modified: usize,
    pub removed: Vec<(EntityId, T)>,
}

/// The active pack mode of a storage.
pub enum Pack<T> {
    NoPack,
    Tight(TightPack),
    Loose(LoosePack),
    Update(UpdatePack<T>),
}

/// The pack mode together with its bookkeeping.
pub struct PackInfo<T> {
    pub pack: Pack<T>,
}

impl<T> View for PackInfo<T> {
    type V = PackModel<T>;

    open spec fn view(&self) -> PackModel<T> {
        match self.pack {
            Pack::NoPack => PackModel::NoPack,
            Pack::Tight(ref t) => PackModel::Tight { len: t.len, types: t.types@ },
            Pack::Loose(ref l) => (PackModel::Loose {
                len: l.len,
                tight_types: l.tight_types@,
                loose_types: l.loose_types@,
            }),
            Pack::Update(ref u) => (PackModel::Update {
                inserted: u.inserted,
                modified: u.modified,
                removed: u.removed@,
            }),
        }
    }
}

} // verus!
