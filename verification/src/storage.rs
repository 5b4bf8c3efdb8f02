//! The sparse set itself.

use vstd::prelude::*;
use vstd::pervasive::VecAdditionalExecFns;

use crate::entity::EntityId;
use crate::model::{Model, PackModel};
use crate::pack::{LoosePack, Pack, PackInfo, TightPack, UpdatePack};
use crate::window::{Window, WindowMut};

verus! {

/// A sparse set storing one component of type `T` per live entity.
///
/// `sparse` maps an entity index to a dense position; `dense` and `data` are
/// index-aligned and list the live entities and their components; unused
/// sparse slots hold arbitrary values.
pub struct SparseSet<T> {
    sparse: Vec<usize>,
    dense: Vec<EntityId>,
    data: Vec<T>,
    pack_info: PackInfo<T>,
}

impl<T> View for SparseSet<T> {
    type V = Model<T>;

    closed spec fn view(&self) -> Model<T> {
        Model { sparse: self.sparse@, dense: self.dense@, data: self.data@, pack: self.pack_info@ }
    }
}

/// Exchange two elements of a vector.
fn vec_swap<T>(v: &mut Vec<T>, a: usize, b: usize)
    requires
        a < old(v).len(),
        b < old(v).len(),
    ensures
        final(v)@ == old(v)@.update(a as int, old(v)@[b as int]).update(
            b as int,
            old(v)@[a as int],
        ),
{
    if a != b {
        let last: usize = v.len() - 1;
        let mut tmp: T = v.pop().unwrap();
        if a == last {
            v.set_and_swap(b, &mut tmp);
            v.push(tmp);
        } else if b == last {
            v.set_and_swap(a, &mut tmp);
            v.push(tmp);
        } else {
            v.set_and_swap(a, &mut tmp);
            v.set_and_swap(b, &mut tmp);
            v.set_and_swap(a, &mut tmp);
            v.push(tmp);
        }
        proof {
            assert(v@ =~= old(v)@.update(a as int, old(v)@[b as int]).update(
                b as int,
                old(v)@[a as int],
            ));
        }
    } else {
        proof {
            assert(v@ =~= old(v)@.update(a as int, old(v)@[b as int]).update(
                b as int,
                old(v)@[a as int],
            ));
        }
    }
}

impl<T> Default for SparseSet<T> {
    /// An empty, unpacked storage.
    fn default() -> (r: SparseSet<T>)
        ensures
            r@.sparse.len() == 0,
            r@.dense.len() == 0,
            r@.data.len() == 0,
            r@.pack is NoPack,
            r@.wf(),
            !r@.is_unique_state(),
    {
        SparseSet {
            sparse: Vec::new(),
            dense: Vec::new(),
            data: Vec::new(),
            pack_info: PackInfo { pack: Pack::NoPack },
        }
    }
}

impl<T> SparseSet<T> {
    /// Exchange the dense entries at `a` and `b` and rewrite both sparse
    /// slots.
    fn swap_dense(&mut self, a: usize, b: usize)
        requires
            old(self)@.aligned(),
            old(self)@.link_ok(),
            a < old(self)@.dense.len(),
            b < old(self)@.dense.len(),
        ensures
            final(self)@ == old(self)@.swap_at(a as int, b as int),
    {
        let ea: EntityId = self.dense[a];
        let eb: EntityId = self.dense[b];
        self.sparse.set(ea.index(), b);
        self.sparse.set(eb.index(), a);
        vec_swap(&mut self.dense, a, b);
        vec_swap(&mut self.data, a, b);
        proof {
            assert(self@ =~= old(self)@.swap_at(a as int, b as int));
        }
    }

    /// Migrate the entry of a present entity as a mutable lookup does and
    /// return the dense position it ends up at.
    fn touch_entry(&mut self, entity: EntityId) -> (r: usize)
        requires
            old(self)@.wf(),
            old(self)@.contains_id(entity),
        ensures
            final(self)@ == old(self)@.touch(entity),
            r as int == old(self)@.touch(entity).pos_of(entity),
            r < final(self)@.data.len(),
    {
        proof {
            assert(!old(self)@.is_unique_state());
        }
        let p: usize = self.sparse[entity.index()];
        let dl: usize = self.dense.len();
        let (is_stale, nm) = match &self.pack_info.pack {
            Pack::Update(u) => {
                proof {
                    assert(u.inserted + u.modified <= dl);
                }
                let nm: usize = u.inserted + u.modified;
                (p >= nm, nm)
            },
            _ => (false, 0usize),
        };
        if is_stale {
            self.swap_dense(p, nm);
            match &mut self.pack_info.pack {
                Pack::Update(u) => {
                    u.modified = u.modified + 1;
                },
                _ => {},
            }
            proof {
                assert(self@ =~= old(self)@.touch(entity));
                old(self)@.lemma_touch_props(entity);
            }
            nm
        } else {
            proof {
                assert(self@ =~= old(self)@.touch(entity));
            }
            p
        }
    }

    /// Insert a component for an entity.  An entity already present has its
    /// component overwritten, the previous one being returned; a fresh
    /// entity is appended and, under an update pack, placed in the inserted
    /// zone, which grows by one.
    pub fn insert(&mut self, value: T, entity: EntityId) -> (r: Option<T>)
        requires
            old(self)@.wf(),
            !old(self)@.is_unique_state(),
            entity.idx() < usize::MAX,
        ensures
            final(self)@ == old(self)@.spec_insert(value, entity),
            r == old(self)@.spec_insert_result(entity),
            final(self)@.wf(),
            !final(self)@.is_unique_state(),
            final(self)@.contains_id(entity),
            final(self)@.value_of(entity) == value,
            final(self)@.len() == old(self)@.len() + (if old(self)@.contains_id(entity) {
                0int
            } else {
                1int
            }),
    {
        let idx = entity.index();
        while self.sparse.len() < idx + 1
            invariant
                entity.idx() < usize::MAX,
                idx == entity.idx(),
                self@.dense == old(self)@.dense,
                self@.data == old(self)@.data,
                self@.pack == old(self)@.pack,
                old(self)@.sparse.len() <= self@.sparse.len(),
                self@.sparse.len() <= idx + 1 || self@.sparse.len() == old(
                    self,
                )@.sparse.len(),
                self@.sparse == old(self)@.sparse + Seq::new(
                    (self@.sparse.len() - old(self)@.sparse.len()) as nat,
                    |j: int| 0usize,
                ),
            decreases idx + 1 - self@.sparse.len(),
        {
            self.sparse.push(0);
            proof {
                assert(self@.sparse =~= old(self)@.sparse + Seq::new(
                    (self@.sparse.len() - old(self)@.sparse.len()) as nat,
                    |j: int| 0usize,
                ));
            }
        }
        proof {
            assert(self@ =~= old(self)@.grown(idx + 1));
        }
        let ghost g0 = old(self)@.grown(idx + 1);
        if self.contains(entity) {
            proof {
                assert(old(self)@ == g0);
                old(self)@.lemma_touch_props(entity);
            }
            let p = self.touch_entry(entity);
            let mut tmp = value;
            self.data.set_and_swap(p, &mut tmp);
            proof {
                assert(self@ =~= old(self)@.spec_insert(value, entity));
                old(self)@.lemma_insert_props(value, entity);
            }
            Some(tmp)
        } else {
            let new_pos = self.dense.len();
            self.sparse.set(idx, new_pos);
            self.dense.push(entity);
            self.data.push(value);
            proof {
                vstd::std_specs::vec::axiom_spec_len(&self.dense);
                assert(self@ =~= g0.appended(value, entity));
                assert(self@.dense.len() <= usize::MAX);
                assert(old(self)@.dense.len() < usize::MAX);
                old(self)@.lemma_insert_props(value, entity);
            }
            let (is_upd, i, m) = match &self.pack_info.pack {
                Pack::Update(u) => (true, u.inserted, u.modified),
                _ => (false, 0usize, 0usize),
            };
            if is_upd {
                proof {
                    assert(i + m <= new_pos);
                }
                let nm: usize = i + m;
                self.swap_dense(new_pos, nm);
                self.swap_dense(nm, i);
                match &mut self.pack_info.pack {
                    Pack::Update(u) => {
                        u.inserted = i + 1;
                    },
                    _ => {},
                }
                proof {
                    assert(self@ =~= old(self)@.spec_insert(value, entity));
                }
            } else {
                proof {
                    assert(self@ =~= old(self)@.spec_insert(value, entity));
                }
            }
            None
        }
    }

    /// Look the component of an entity up.
    pub fn get(&self, entity: EntityId) -> (r: Option<&T>)
        requires
            self@.wf(),
        ensures
            r.is_some() == self@.contains_id(entity),
            self@.contains_id(entity) ==> *r.unwrap() == self@.value_of(entity),
    {
        if self.contains(entity) {
            let p: usize = self.sparse[entity.index()];
            Some(&self.data[p])
        } else {
            None
        }
    }

    /// Look the component of an entity up for mutation.  Under an update
    /// pack, an entry found in the stable tail is first migrated into the
    /// modified zone, which grows by one; entries already in the inserted or
    /// modified zone stay in place.
    pub fn get_mut(&mut self, entity: EntityId) -> (r: Option<&mut T>)
        requires
            old(self)@.wf(),
        ensures
            !old(self)@.contains_id(entity) ==> r.is_none() && final(self)@ == old(self)@,
            old(self)@.contains_id(entity) ==> r.is_some() && *r.unwrap() == old(self)@.value_of(
                entity,
            ) && final(self)@ == old(self)@.touch(entity).write_value(
                entity,
                *final(r.unwrap()),
            ),
    {
        if self.contains(entity) {
            proof {
                old(self)@.lemma_touch_props(entity);
            }
            let p = self.touch_entry(entity);
            let el = vstd::std_specs::vec::vec_index_mut(&mut self.data, p);
            Some(el)
        } else {
            None
        }
    }

    /// Read the counters of an update pack, or mark the other modes.
    fn read_pack(&self) -> (r: (u8, usize, usize))
        ensures
            self@.pack is Update ==> r.0 == 2 && r.1 as int == self@.upd_inserted() && r.2 as int
                == self@.upd_modified(),
            (self@.pack is Tight || self@.pack is Loose) ==> r.0 == 1 && r.1 as int
                == self@.pack_len(),
            self@.pack is NoPack ==> r.0 == 0,
    {
        match &self.pack_info.pack {
            Pack::NoPack => (0, 0, 0),
            Pack::Tight(t) => (1, t.len, 0),
            Pack::Loose(l) => (1, l.len, 0),
            Pack::Update(u) => (2, u.inserted, u.modified),
        }
    }

    /// Replace the prefix length of a tight or loose pack.
    fn write_pack_len(&mut self, len: usize)
        requires
            old(self)@.pack is Tight || old(self)@.pack is Loose,
        ensures
            final(self)@ == old(self)@.with_pack_len(len),
    {
        match &mut self.pack_info.pack {
            Pack::Tight(t) => {
                t.len = len;
            },
            Pack::Loose(l) => {
                l.len = len;
            },
            _ => {},
        }
        proof {
            assert(self@ =~= old(self)@.with_pack_len(len));
        }
    }

    /// Replace the counters of an update pack.
    fn write_counters(&mut self, inserted: usize, modified: usize)
        requires
            old(self)@.pack is Update,
        ensures
            final(self)@ == old(self)@.with_counters(inserted, modified),
    {
        match &mut self.pack_info.pack {
            Pack::Update(u) => {
                u.inserted = inserted;
                u.modified = modified;
            },
            _ => {},
        }
        proof {
            assert(self@ =~= old(self)@.with_counters(inserted, modified));
        }
    }

    /// Membership test for an entity.
    pub fn contains(&self, entity: EntityId) -> (r: bool)
        ensures
            r == self@.contains_id(entity),
    {
        let i = entity.index();
        i < self.sparse.len() && self.sparse[i] < self.dense.len() && self.dense[self.sparse[i]]
            .index() == i
    }

    /// Swap a present entity into the packed prefix, which grows by one;
    /// an entity already packed, or absent, is left alone.
    pub fn pack(&mut self, entity: EntityId)
        requires
            old(self)@.wf(),
            !old(self)@.is_unique_state(),
            old(self)@.pack is Tight || old(self)@.pack is Loose,
        ensures
            final(self)@ == old(self)@.spec_pack(entity),
            final(self)@.wf(),
            old(self)@.contains_id(entity) ==> final(self)@.in_packed_region(entity),
    {
        proof {
            old(self)@.lemma_pack_props(entity);
        }
        if !self.contains(entity) {
            return ;
        }
        let _dl: usize = self.dense.len();
        let p: usize = self.sparse[entity.index()];
        let (_kind, pl, _c) = self.read_pack();
        if p >= pl {
            self.swap_dense(p, pl);
            self.write_pack_len(pl + 1);
            proof {
                assert(self@ =~= old(self)@.spec_pack(entity));
            }
        } else {
            proof {
                assert(self@ =~= old(self)@.spec_pack(entity));
            }
        }
    }

    /// Swap a present entity out of the packed prefix, which shrinks by
    /// one; an entity already unpacked, or absent, is left alone.
    pub fn unpack(&mut self, entity: EntityId)
        requires
            old(self)@.wf(),
            !old(self)@.is_unique_state(),
            old(self)@.pack is Tight || old(self)@.pack is Loose,
        ensures
            final(self)@ == old(self)@.spec_unpack(entity),
            final(self)@.wf(),
            old(self)@.contains_id(entity) ==> !final(self)@.in_packed_region(entity),
    {
        proof {
            old(self)@.lemma_unpack_props(entity);
        }
        if !self.contains(entity) {
            return ;
        }
        let p: usize = self.sparse[entity.index()];
        let (_kind, pl, _c) = self.read_pack();
        if p < pl {
            self.swap_dense(p, pl - 1);
            self.write_pack_len(pl - 1);
            proof {
                assert(self@ =~= old(self)@.spec_unpack(entity));
            }
        } else {
            proof {
                assert(self@ =~= old(self)@.spec_unpack(entity));
            }
        }
    }

    /// Rotate the inserted zone out behind the modified zone: afterwards the
    /// inserted zone is empty and the modified zone, holding the same
    /// entities as before, starts at the head of the dense region.
    pub fn clear_inserted(&mut self)
        requires
            old(self)@.wf(),
        ensures
            final(self)@.wf(),
            !(old(self)@.pack is Update) ==> final(self)@ == old(self)@,
            old(self)@.pack is Update ==> {
                &&& final(self)@.pack is Update
                &&& final(self)@.upd_inserted() == 0
                &&& final(self)@.upd_modified() == old(self)@.upd_modified()
                &&& final(self)@.len() == old(self)@.len()
                &&& final(self)@.removed_log() == old(self)@.removed_log()
                &&& forall|x: EntityId|
                    #[trigger] final(self)@.contains_id(x) == old(self)@.contains_id(x)
                &&& forall|x: EntityId|
                    old(self)@.contains_id(x) ==> final(self)@.value_of(x) == old(
                        self,
                    )@.value_of(x)
                &&& forall|x: EntityId|
                    #[trigger] final(self)@.in_modified_zone(x) == old(self)@.in_modified_zone(
                        x,
                    )
                &&& forall|x: EntityId| !final(self)@.in_inserted_zone(x)
            },
    {
        let (kind, i0, m) = self.read_pack();
        if kind != 2 {
            return ;
        }
        let mut i = i0;
        while i > 0
            invariant
                self@.wf(),
                self@.pack is Update,
                self@.upd_inserted() == i,
                m as int == old(self)@.upd_modified(),
                self@.upd_modified() == m,
                self@.len() == old(self)@.len(),
                self@.sparse.len() == old(self)@.sparse.len(),
                self@.removed_log() == old(self)@.removed_log(),
                forall|x: EntityId| #[trigger] self@.contains_id(x) == old(self)@.contains_id(x),
                forall|x: EntityId|
                    old(self)@.contains_id(x) ==> self@.value_of(x) == old(self)@.value_of(x),
                forall|x: EntityId|
                    #[trigger] self@.in_modified_zone(x) == old(self)@.in_modified_zone(x),
            decreases i,
        {
            let ghost pre = self@;
            proof {
                pre.lemma_rotate_step();
                assert(i + m <= pre.len());
            }
            self.swap_dense(i - 1, i - 1 + m);
            self.write_counters(i - 1, m);
            proof {
                assert(self@ =~= pre.swap_at(i - 1, i - 1 + m).with_counters((i - 1) as usize, m));
            }
            i = i - 1;
        }
    }

    /// Zero the modified counter: the entries of the modified zone become
    /// stable.
    pub fn clear_modified(&mut self)
        requires
            old(self)@.wf(),
        ensures
            final(self)@.wf(),
            !(old(self)@.pack is Update) ==> final(self)@ == old(self)@,
            old(self)@.pack is Update ==> final(self)@ == old(self)@.with_counters(
                old(self)@.upd_inserted() as usize,
                0,
            ),
            final(self)@.upd_modified() == 0,
            final(self)@.upd_inserted() == old(self)@.upd_inserted(),
            final(self)@.sparse == old(self)@.sparse,
            final(self)@.dense == old(self)@.dense,
            final(self)@.data == old(self)@.data,
    {
        match &mut self.pack_info.pack {
            Pack::Update(u) => {
                u.modified = 0;
            },
            _ => {},
        }
        proof {
            if old(self)@.pack is Update {
                assert(self@ =~= old(self)@.with_counters(old(self)@.upd_inserted() as usize, 0));
            } else {
                assert(self@ =~= old(self)@);
            }
        }
    }

    /// Zero both change counters: every entry becomes stable.
    pub fn clear_inserted_and_modified(&mut self)
        requires
            old(self)@.wf(),
        ensures
            final(self)@.wf(),
            !(old(self)@.pack is Update) ==> final(self)@ == old(self)@,
            old(self)@.pack is Update ==> final(self)@ == old(self)@.with_counters(0, 0),
            final(self)@.upd_modified() == 0,
            final(self)@.upd_inserted() == 0,
            final(self)@.sparse == old(self)@.sparse,
            final(self)@.dense == old(self)@.dense,
            final(self)@.data == old(self)@.data,
    {
        match &mut self.pack_info.pack {
            Pack::Update(u) => {
                u.inserted = 0;
                u.modified = 0;
            },
            _ => {},
        }
        proof {
            if old(self)@.pack is Update {
                assert(self@ =~= old(self)@.with_counters(0, 0));
            } else {
                assert(self@ =~= old(self)@);
            }
        }
    }

    /// Drain the removal log of an update pack and hand it out; any other
    /// mode has no log to take.
    pub fn take_removed(&mut self) -> (r: Option<Vec<(EntityId, T)>>)
        requires
            old(self)@.wf(),
        ensures
            final(self)@.wf(),
            !(old(self)@.pack is Update) ==> r.is_none() && final(self)@ == old(self)@,
            old(self)@.pack is Update ==> r.is_some() && r.unwrap()@ == old(self)@.removed_log()
                && final(self)@ == old(self)@.with_removed(Seq::empty()),
    {
        let r = match &mut self.pack_info.pack {
            Pack::Update(u) => {
                let mut v: Vec<(EntityId, T)> = Vec::new();
                core::mem::swap(&mut v, &mut u.removed);
                Some(v)
            },
            _ => None,
        };
        proof {
            if old(self)@.pack is Update {
                assert(self@ =~= old(self)@.with_removed(Seq::empty()));
            }
        }
        r
    }

    /// Place the unique component into a completely empty, unpacked
    /// storage; such a storage holds no entities.
    pub fn insert_unique(&mut self, component: T)
        requires
            old(self)@.sparse.len() == 0,
            old(self)@.dense.len() == 0,
            old(self)@.data.len() == 0,
            old(self)@.pack is NoPack,
        ensures
            final(self)@.is_unique_state(),
            final(self)@.wf(),
            final(self)@.data == seq![component],
            final(self)@.sparse == old(self)@.sparse,
            final(self)@.dense == old(self)@.dense,
            final(self)@.pack == old(self)@.pack,
    {
        self.data.push(component);
        proof {
            assert(self@.data =~= seq![component]);
        }
    }

    /// Whether the storage is the degenerate unique one.
    pub fn is_unique(&self) -> (r: bool)
        ensures
            r == self@.is_unique_state(),
    {
        self.sparse.len() == 0 && self.dense.len() == 0 && self.data.len() == 1
    }

    /// A snapshot of the dense entity list.
    pub fn clone_indices(&self) -> (r: Vec<EntityId>)
        ensures
            r@ == self@.dense,
    {
        let mut v: Vec<EntityId> = Vec::new();
        let mut k: usize = 0;
        while k < self.dense.len()
            invariant
                k <= self@.dense.len(),
                v@ == self@.dense.subrange(0, k as int),
            decreases self@.dense.len() - k,
        {
            v.push(self.dense[k]);
            k = k + 1;
            proof {
                assert(v@ =~= self@.dense.subrange(0, k as int));
            }
        }
        proof {
            assert(v@ =~= self@.dense);
        }
        v
    }

    /// Enable a tight pack on an empty storage; `types` opaquely names the
    /// companion storages of the pack.
    pub fn tight_pack(&mut self, types: Vec<u64>)
        requires
            old(self)@.wf(),
            old(self)@.dense.len() == 0,
            old(self)@.data.len() == 0,
        ensures
            final(self)@.wf(),
            final(self)@.pack == (PackModel::<T>::Tight { len: 0usize, types: types@ }),
            final(self)@.sparse == old(self)@.sparse,
            final(self)@.dense == old(self)@.dense,
            final(self)@.data == old(self)@.data,
    {
        self.pack_info.pack = Pack::Tight(TightPack { len: 0, types });
    }

    /// Enable a loose pack on an empty storage; the two lists opaquely name
    /// the companion storages of the pack.
    pub fn loose_pack(&mut self, tight_types: Vec<u64>, loose_types: Vec<u64>)
        requires
            old(self)@.wf(),
            old(self)@.dense.len() == 0,
            old(self)@.data.len() == 0,
        ensures
            final(self)@.wf(),
            final(self)@.pack == (PackModel::<T>::Loose {
                len: 0usize,
                tight_types: tight_types@,
                loose_types: loose_types@,
            }),
            final(self)@.sparse == old(self)@.sparse,
            final(self)@.dense == old(self)@.dense,
            final(self)@.data == old(self)@.data,
    {
        self.pack_info.pack = Pack::Loose(LoosePack { len: 0, tight_types, loose_types });
    }

    /// Enable an update pack on an empty storage.
    pub fn update_pack(&mut self)
        requires
            old(self)@.wf(),
            old(self)@.dense.len() == 0,
            old(self)@.data.len() == 0,
        ensures
            final(self)@.wf(),
            final(self)@.pack is Update,
            final(self)@.upd_inserted() == 0,
            final(self)@.upd_modified() == 0,
            final(self)@.removed_log() == Seq::<(EntityId, T)>::empty(),
            final(self)@.sparse == old(self)@.sparse,
            final(self)@.dense == old(self)@.dense,
            final(self)@.data == old(self)@.data,
    {
        self.pack_info.pack = Pack::Update(
            UpdatePack { inserted: 0, modified: 0, removed: Vec::new() },
        );
        proof {
            assert(self@.removed_log() =~= Seq::<(EntityId, T)>::empty());
        }
    }

    /// Drop the pack mode, with its counters and its removal log; the dense
    /// region is not reordered.
    pub fn remove_pack(&mut self)
        requires
            old(self)@.wf(),
        ensures
            final(self)@.wf(),
            final(self)@.pack is NoPack,
            final(self)@.sparse == old(self)@.sparse,
            final(self)@.dense == old(self)@.dense,
            final(self)@.data == old(self)@.data,
    {
        self.pack_info.pack = Pack::NoPack;
    }

    /// A read-only view of the whole dense region.
    pub fn window(&self) -> (w: Window<'_, T>)
        ensures
            w.sparse@ == self@.sparse,
            w.dense@ == self@.dense,
            w.data@ == self@.data,
            w.offset == 0,
    {
        Window {
            sparse: self.sparse.as_slice(),
            dense: self.dense.as_slice(),
            data: self.data.as_slice(),
            offset: 0,
        }
    }

    /// A read-only view of the inserted zone; empty for a storage that is
    /// not update packed.
    pub fn inserted(&self) -> (w: Window<'_, T>)
        requires
            self@.wf(),
        ensures
            self@.pack is Update ==> w.sparse@ == self@.sparse && w.offset == 0 && w.dense@
                == self@.dense.subrange(0, self@.upd_inserted()) && w.data@
                == self@.data.subrange(0, self@.upd_inserted()),
            !(self@.pack is Update) ==> w.sparse@.len() == 0 && w.dense@.len() == 0
                && w.data@.len() == 0,
    {
        let (kind, i, _m) = self.read_pack();
        if kind == 2 {
            Window {
                sparse: self.sparse.as_slice(),
                dense: vstd::slice::slice_subrange(self.dense.as_slice(), 0, i),
                data: vstd::slice::slice_subrange(self.data.as_slice(), 0, i),
                offset: 0,
            }
        } else {
            Window {
                sparse: vstd::slice::slice_subrange(self.sparse.as_slice(), 0, 0),
                dense: vstd::slice::slice_subrange(self.dense.as_slice(), 0, 0),
                data: vstd::slice::slice_subrange(self.data.as_slice(), 0, 0),
                offset: 0,
            }
        }
    }

    /// A read-only view of the modified zone; empty for a storage that is
    /// not update packed.
    pub fn modified(&self) -> (w: Window<'_, T>)
        requires
            self@.wf(),
        ensures
            self@.pack is Update ==> w.sparse@ == self@.sparse && w.offset
                == self@.upd_inserted() && w.dense@ == self@.dense.subrange(
                self@.upd_inserted(),
                self@.upd_inserted() + self@.upd_modified(),
            ) && w.data@ == self@.data.subrange(
                self@.upd_inserted(),
                self@.upd_inserted() + self@.upd_modified(),
            ),
            !(self@.pack is Update) ==> w.sparse@.len() == 0 && w.dense@.len() == 0
                && w.data@.len() == 0,
    {
        let (kind, i, m) = self.read_pack();
        if kind == 2 {
            Window {
                sparse: self.sparse.as_slice(),
                dense: vstd::slice::slice_subrange(self.dense.as_slice(), i, i + m),
                data: vstd::slice::slice_subrange(self.data.as_slice(), i, i + m),
                offset: i,
            }
        } else {
            Window {
                sparse: vstd::slice::slice_subrange(self.sparse.as_slice(), 0, 0),
                dense: vstd::slice::slice_subrange(self.dense.as_slice(), 0, 0),
                data: vstd::slice::slice_subrange(self.data.as_slice(), 0, 0),
                offset: 0,
            }
        }
    }

    /// A read-only view of the inserted and modified zones together; empty
    /// for a storage that is not update packed.
    pub fn inserted_or_modified(&self) -> (w: Window<'_, T>)
        requires
            self@.wf(),
        ensures
            self@.pack is Update ==> w.sparse@ == self@.sparse && w.offset == 0 && w.dense@
                == self@.dense.subrange(0, self@.upd_inserted() + self@.upd_modified())
                && w.data@ == self@.data.subrange(
                0,
                self@.upd_inserted() + self@.upd_modified(),
            ),
            !(self@.pack is Update) ==> w.sparse@.len() == 0 && w.dense@.len() == 0
                && w.data@.len() == 0,
    {
        let (kind, i, m) = self.read_pack();
        if kind == 2 {
            Window {
                sparse: self.sparse.as_slice(),
                dense: vstd::slice::slice_subrange(self.dense.as_slice(), 0, i + m),
                data: vstd::slice::slice_subrange(self.data.as_slice(), 0, i + m),
                offset: 0,
            }
        } else {
            Window {
                sparse: vstd::slice::slice_subrange(self.sparse.as_slice(), 0, 0),
                dense: vstd::slice::slice_subrange(self.dense.as_slice(), 0, 0),
                data: vstd::slice::slice_subrange(self.data.as_slice(), 0, 0),
                offset: 0,
            }
        }
    }

    /// A view of the whole dense region whose components may be mutated in
    /// place.
    pub fn window_mut(&mut self) -> (w: WindowMut<'_, T>)
        ensures
            w.sparse@ == old(self)@.sparse,
            w.dense@ == old(self)@.dense,
            w.data@ == old(self)@.data,
            w.offset == 0,
            final(self)@ == (Model { data: final(w.data)@, ..old(self)@ }),
    {
        let w = WindowMut {
            sparse: self.sparse.as_slice(),
            dense: self.dense.as_slice(),
            data: self.data.as_mut_slice(),
            offset: 0,
        };
        w
    }

    /// A view of the inserted zone whose components may be mutated in
    /// place; empty for a storage that is not update packed.
    pub fn inserted_mut(&mut self) -> (w: WindowMut<'_, T>)
        requires
            old(self)@.wf(),
        ensures
            old(self)@.pack is Update ==> w.sparse@ == old(self)@.sparse && w.offset == 0
                && w.dense@ == old(self)@.dense.subrange(0, old(self)@.upd_inserted())
                && w.data@ == old(self)@.data.subrange(0, old(self)@.upd_inserted())
                && final(self)@ == (Model {
                data: final(w.data)@ + old(self)@.data.subrange(
                    old(self)@.upd_inserted(),
                    old(self)@.data.len() as int,
                ),
                ..old(self)@
            }),
            !(old(self)@.pack is Update) ==> w.sparse@.len() == 0 && w.dense@.len() == 0
                && w.data@.len() == 0 && final(self)@ == (Model {
                data: final(w.data)@ + old(self)@.data,
                ..old(self)@
            }),
    {
        let (kind, i, _m) = self.read_pack();
        let k: usize = if kind == 2 {
            i
        } else {
            0
        };
        proof {
            assert(k <= self@.data.len());
        }
        let (zone, _rest) = self.data.as_mut_slice().split_at_mut(k);
        if kind == 2 {
            let w = WindowMut {
                sparse: self.sparse.as_slice(),
                dense: vstd::slice::slice_subrange(self.dense.as_slice(), 0, k),
                data: zone,
                offset: 0,
            };
            w
        } else {
            let w = WindowMut {
                sparse: vstd::slice::slice_subrange(self.sparse.as_slice(), 0, 0),
                dense: vstd::slice::slice_subrange(self.dense.as_slice(), 0, 0),
                data: zone,
                offset: 0,
            };
            w
        }
    }

    /// A view of the modified zone whose components may be mutated in
    /// place; empty for a storage that is not update packed.
    pub fn modified_mut(&mut self) -> (w: WindowMut<'_, T>)
        requires
            old(self)@.wf(),
        ensures
            old(self)@.pack is Update ==> w.sparse@ == old(self)@.sparse && w.offset == old(
                self,
            )@.upd_inserted() && w.dense@ == old(self)@.dense.subrange(
                old(self)@.upd_inserted(),
                old(self)@.upd_inserted() + old(self)@.upd_modified(),
            ) && w.data@ == old(self)@.data.subrange(
                old(self)@.upd_inserted(),
                old(self)@.upd_inserted() + old(self)@.upd_modified(),
            ) && final(self)@ == (Model {
                data: old(self)@.data.subrange(0, old(self)@.upd_inserted()) + final(w.data)@
                    + old(self)@.data.subrange(
                    old(self)@.upd_inserted() + old(self)@.upd_modified(),
                    old(self)@.data.len() as int,
                ),
                ..old(self)@
            }),
            !(old(self)@.pack is Update) ==> w.sparse@.len() == 0 && w.dense@.len() == 0
                && w.data@.len() == 0 && final(self)@ == (Model {
                data: final(w.data)@ + old(self)@.data,
                ..old(self)@
            }),
    {
        let (kind, i, m) = self.read_pack();
        if kind == 2 {
            proof {
                assert(i + m <= self@.data.len());
            }
            let (head, tail) = self.data.as_mut_slice().split_at_mut(i);
            let (zone, _rest) = tail.split_at_mut(m);
            let w = WindowMut {
                sparse: self.sparse.as_slice(),
                dense: vstd::slice::slice_subrange(self.dense.as_slice(), i, i + m),
                data: zone,
                offset: i,
            };
            w
        } else {
            let (zone, _rest) = self.data.as_mut_slice().split_at_mut(0);
            let w = WindowMut {
                sparse: vstd::slice::slice_subrange(self.sparse.as_slice(), 0, 0),
                dense: vstd::slice::slice_subrange(self.dense.as_slice(), 0, 0),
                data: zone,
                offset: 0,
            };
            w
        }
    }

    /// A view of the inserted and modified zones together whose components
    /// may be mutated in place; empty for a storage that is not update
    /// packed.
    pub fn inserted_or_modified_mut(&mut self) -> (w: WindowMut<'_, T>)
        requires
            old(self)@.wf(),
        ensures
            old(self)@.pack is Update ==> w.sparse@ == old(self)@.sparse && w.offset == 0
                && w.dense@ == old(self)@.dense.subrange(
                0,
                old(self)@.upd_inserted() + old(self)@.upd_modified(),
            ) && w.data@ == old(self)@.data.subrange(
                0,
                old(self)@.upd_inserted() + old(self)@.upd_modified(),
            ) && final(self)@ == (Model {
                data: final(w.data)@ + old(self)@.data.subrange(
                    old(self)@.upd_inserted() + old(self)@.upd_modified(),
                    old(self)@.data.len() as int,
                ),
                ..old(self)@
            }),
            !(old(self)@.pack is Update) ==> w.sparse@.len() == 0 && w.dense@.len() == 0
                && w.data@.len() == 0 && final(self)@ == (Model {
                data: final(w.data)@ + old(self)@.data,
                ..old(self)@
            }),
    {
        let (kind, i, m) = self.read_pack();
        let k: usize = if kind == 2 {
            proof {
                assert(i + m <= self@.data.len());
            }
            i + m
        } else {
            0
        };
        let (zone, _rest) = self.data.as_mut_slice().split_at_mut(k);
        if kind == 2 {
            let w = WindowMut {
                sparse: self.sparse.as_slice(),
                dense: vstd::slice::slice_subrange(self.dense.as_slice(), 0, k),
                data: zone,
                offset: 0,
            };
            w
        } else {
            let w = WindowMut {
                sparse: vstd::slice::slice_subrange(self.sparse.as_slice(), 0, 0),
                dense: vstd::slice::slice_subrange(self.dense.as_slice(), 0, 0),
                data: zone,
                offset: 0,
            };
            w
        }
    }

    /// The insertion entry point used when an entity is created across
    /// several storages: an insertion, followed under a tight or loose pack
    /// by packing the new entity.
    pub fn view_add_entity(&mut self, value: T, entity: EntityId)
        requires
            old(self)@.wf(),
            !old(self)@.is_unique_state(),
            entity.idx() < usize::MAX,
        ensures
            final(self)@.wf(),
            final(self)@.contains_id(entity),
            final(self)@.value_of(entity) == value,
            (old(self)@.pack is Tight || old(self)@.pack is Loose) ==> final(self)@ == old(
                self,
            )@.spec_insert(value, entity).spec_pack(entity) && final(self)@.in_packed_region(
                entity,
            ),
            !(old(self)@.pack is Tight || old(self)@.pack is Loose) ==> final(self)@ == old(
                self,
            )@.spec_insert(value, entity),
    {
        let _previous = self.insert(value, entity);
        proof {
            vstd::std_specs::vec::axiom_spec_len(&self.dense);
            old(self)@.lemma_insert_props(value, entity);
            old(self)@.spec_insert(value, entity).lemma_pack_props(entity);
        }
        let (kind, _a, _b) = self.read_pack();
        if kind == 1 {
            self.pack(entity);
        }
    }

    /// Sort the dense region by entity index.  Sorting is only allowed
    /// while every packed, inserted and modified zone is empty: an
    /// arbitrary permutation would not preserve those zones' meaning.
    pub fn sort(&mut self)
        requires
            old(self)@.wf(),
            !old(self)@.is_unique_state(),
            old(self)@.pack_len() == 0,
            old(self)@.upd_inserted() == 0,
            old(self)@.upd_modified() == 0,
        ensures
            final(self)@.wf(),
            final(self)@.len() == old(self)@.len(),
            final(self)@.pack == old(self)@.pack,
            forall|x: EntityId|
                #[trigger] final(self)@.contains_id(x) == old(self)@.contains_id(x),
            forall|x: EntityId|
                old(self)@.contains_id(x) ==> final(self)@.value_of(x) == old(self)@.value_of(
                    x,
                ),
            forall|i: int, j: int|
                0 <= i < j < final(self)@.len() ==> (#[trigger] final(self)@.dense[i]).idx() <= (
                #[trigger] final(self)@.dense[j]).idx(),
    {
        let n = self.dense.len();
        let mut i: usize = 0;
        while i < n
            invariant
                n == self@.dense.len(),
                i <= n,
                self@.aligned(),
                self@.link_ok(),
                self@.bounded(),
                self@.sparse.len() == old(self)@.sparse.len(),
                self@.pack == old(self)@.pack,
                forall|x: EntityId| #[trigger] self@.contains_id(x) == old(self)@.contains_id(x),
                forall|x: EntityId|
                    old(self)@.contains_id(x) ==> self@.value_of(x) == old(self)@.value_of(x),
                forall|a: int, b: int|
                    0 <= a < b < i ==> (#[trigger] self@.dense[a]).idx() <= (
                    #[trigger] self@.dense[b]).idx(),
                forall|a: int, b: int|
                    0 <= a < i <= b < n ==> (#[trigger] self@.dense[a]).idx() <= (
                    #[trigger] self@.dense[b]).idx(),
            decreases n - i,
        {
            let mut min: usize = i;
            let mut j: usize = i + 1;
            while j < n
                invariant
                    i < n,
                    i <= min < n,
                    i < j <= n,
                    min < j,
                    n == self@.dense.len(),
                    forall|a: int|
                        i <= a < j ==> self@.dense[min as int].idx() <= (
                        #[trigger] self@.dense[a]).idx(),
                decreases n - j,
            {
                if self.dense[j].index() < self.dense[min].index() {
                    min = j;
                }
                j = j + 1;
            }
            let ghost pre = self@;
            proof {
                pre.lemma_swap_at_preserves(i as int, min as int);
            }
            self.swap_dense(i, min);
            proof {
                assert(self@ == pre.swap_at(i as int, min as int));
                assert forall|x: EntityId| #[trigger] self@.contains_id(x) == old(
                    self,
                )@.contains_id(x) by {
                    assert(pre.swap_at(i as int, min as int).contains_id(x) == pre.contains_id(
                        x,
                    ));
                }
                assert forall|x: EntityId|
                    old(self)@.contains_id(x) implies self@.value_of(x) == old(self)@.value_of(
                    x,
                ) by {
                    assert(pre.contains_id(x));
                    assert(pre.swap_at(i as int, min as int).value_of(x) == pre.value_of(x));
                }
                assert forall|a: int, b: int|
                    0 <= a < b < i + 1 implies (#[trigger] self@.dense[a]).idx() <= (
                #[trigger] self@.dense[b]).idx() by {
                    if b < i {
                        assert(self@.dense[a] == pre.dense[a] && self@.dense[b] == pre.dense[b]);
                    } else {
                        assert(self@.dense[b] == pre.dense[min as int]);
                        if a < i {
                            assert(self@.dense[a] == pre.dense[a]);
                            assert(pre.dense[a].idx() <= pre.dense[min as int].idx());
                        }
                    }
                }
                assert forall|a: int, b: int|
                    0 <= a < i + 1 <= b < n implies (#[trigger] self@.dense[a]).idx() <= (
                #[trigger] self@.dense[b]).idx() by {
                    let db = if b == min as int {
                        pre.dense[i as int]
                    } else {
                        pre.dense[b]
                    };
                    assert(self@.dense[b] == db);
                    assert(pre.dense[min as int].idx() <= db.idx());
                    if a < i {
                        assert(self@.dense[a] == pre.dense[a]);
                        assert(pre.dense[a].idx() <= db.idx());
                    } else {
                        assert(self@.dense[a] == pre.dense[min as int]);
                    }
                }
            }
            i = i + 1;
        }
        proof {
            assert(self@.pack_wf());
            assert(self@.wf());
        }
    }

    /// The prefix length of a tight or loose pack, zero in any other mode.
    pub fn pack_len(&self) -> (r: usize)
        ensures
            r as int == self@.pack_len(),
    {
        match &self.pack_info.pack {
            Pack::Tight(t) => t.len,
            Pack::Loose(l) => l.len,
            _ => 0,
        }
    }

    /// Number of live entries.
    pub fn len(&self) -> (r: usize)
        ensures
            r == self@.dense.len(),
    {
        self.dense.len()
    }

    /// Whether the storage holds no entries.
    pub fn is_empty(&self) -> (r: bool)
        ensures
            r == (self@.dense.len() == 0),
    {
        self.dense.len() == 0
    }
}

impl<T: Clone> SparseSet<T> {
    /// Remove the entry of an entity and return its component.  The entity
    /// first cascades out of the packed prefix or out of its update-pack
    /// zone, whose counter shrinks by one, and is then swap-removed from the
    /// end of the dense region.  Under an update pack a successful removal
    /// appends the pair of the entity and a clone of its component to the
    /// removal log.
    pub fn remove(&mut self, entity: EntityId) -> (r: Option<T>)
        requires
            old(self)@.wf(),
            !old(self)@.is_unique_state(),
        ensures
            r == old(self)@.spec_remove_result(entity),
            final(self)@.wf(),
            !final(self)@.is_unique_state(),
            !final(self)@.contains_id(entity),
            !(old(self)@.pack is Update && old(self)@.contains_id(entity)) ==> final(self)@
                == old(self)@.spec_remove(entity),
            old(self)@.pack is Update && old(self)@.contains_id(entity) ==> exists|w: T|
                cloned::<T>(old(self)@.value_of(entity), w) && final(self)@ == old(
                    self,
                )@.spec_remove(entity).with_removed_push(entity, w),
    {
        if !self.contains(entity) {
            proof {
                old(self)@.lemma_remove_props(entity);
            }
            return None;
        }
        proof {
            old(self)@.lemma_remove_phase1(entity);
            old(self)@.lemma_remove_props(entity);
        }
        let _dl: usize = self.dense.len();
        let p0: usize = self.sparse[entity.index()];
        let (kind, c1, c2) = self.read_pack();
        let logged: Option<T> = if kind == 2 {
            Some(self.data[p0].clone())
        } else {
            None
        };
        let ghost lgg = logged;
        let mut d: usize = p0;
        if kind == 1 {
            let pl = c1;
            if d < pl {
                self.swap_dense(d, pl - 1);
                self.write_pack_len(pl - 1);
                d = pl - 1;
            }
        } else if kind == 2 {
            let i = c1;
            let m = c2;
            if d < i {
                self.swap_dense(d, i - 1);
                self.write_counters(i - 1, m);
                if m > 0 {
                    self.swap_dense(i - 1, i - 1 + m);
                    d = i - 1 + m;
                } else {
                    d = i - 1;
                }
            } else if d < i + m {
                self.swap_dense(d, i + m - 1);
                self.write_counters(i, m - 1);
                d = i + m - 1;
            }
        }
        proof {
            assert(self@ =~= old(self)@.remove_phase1(entity).0);
            assert(d as int == old(self)@.remove_phase1(entity).1);
        }
        let last: usize = self.dense.len() - 1;
        self.swap_dense(d, last);
        self.dense.pop();
        let v = self.data.pop().unwrap();
        proof {
            assert(self@ =~= old(self)@.spec_remove(entity));
        }
        if kind == 2 {
            match &mut self.pack_info.pack {
                Pack::Update(u) => {
                    u.removed.push((entity, logged.unwrap()));
                },
                _ => {},
            }
            proof {
                let w = lgg.unwrap();
                assert(cloned::<T>(old(self)@.value_of(entity), w));
                assert(self@ =~= old(self)@.spec_remove(entity).with_removed_push(entity, w));
            }
        }
        Some(v)
    }
}

} // verus!
