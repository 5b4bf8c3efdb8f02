//! The mathematical model of a storage.
//!
//! A [`Model`] mirrors the three parallel arrays of a sparse set and its pack
//! bookkeeping as sequences.  All contracts of the executable storage are
//! phrased over this model: well-formedness, membership, the zone a dense
//! position belongs to, and the exact effect of every mutation.

use vstd::prelude::*;

use crate::entity::EntityId;

verus! {

/// The pack bookkeeping of a model, one variant per pack mode.
#[verifier::ext_equal]
pub enum PackModel<T> {
    NoPack,
    Tight { len: usize, types: Seq<u64> },
    Loose { len: usize, tight_types: Seq<u64>, loose_types: Seq<u64> },
    Update { inserted: usize, modified: usize, removed: Seq<(EntityId, T)> },
}

/// The abstract state of a sparse set: the three parallel sequences and the
/// pack bookkeeping.
#[verifier::ext_equal]
pub struct Model<T> {
    pub sparse: Seq<usize>,
    pub dense: Seq<EntityId>,
    pub data: Seq<T>,
    pub pack: PackModel<T>,
}

impl<T> Model<T> {
    /// Number of live entries.
    pub open spec fn len(self) -> int {
        self.dense.len() as int
    }

    /// The dense and data sequences are index-aligned.
    pub open spec fn aligned(self) -> bool {
        self.dense.len() == self.data.len()
    }

    /// Every dense entry is pointed back at by its sparse slot.
    pub open spec fn link_ok(self) -> bool {
        forall|i: int|
            0 <= i < self.dense.len() ==> {
                &&& (#[trigger] self.dense[i]).idx() < self.sparse.len()
                &&& self.sparse[self.dense[i].idx() as int] as int == i
            }
    }

    /// The degenerate state of a storage that holds a single unique
    /// component and no entities.
    pub open spec fn is_unique_state(self) -> bool {
        self.sparse.len() == 0 && self.dense.len() == 0 && self.data.len() == 1
    }

    /// The pack counters stay inside the dense region.
    pub open spec fn pack_wf(self) -> bool {
        match self.pack {
            PackModel::NoPack => true,
            PackModel::Tight { len, .. } => len <= self.dense.len(),
            PackModel::Loose { len, .. } => len <= self.dense.len(),
            PackModel::Update { inserted, modified, .. } => inserted + modified
                <= self.dense.len(),
        }
    }

    /// The sequences are no longer than an executable vector can be.
    pub open spec fn bounded(self) -> bool {
        self.sparse.len() <= usize::MAX && self.dense.len() <= usize::MAX && self.data.len()
            <= usize::MAX
    }

    /// Well-formedness: either the unique degenerate state, or the three
    /// arrays are linked and the pack counters are in range.
    pub open spec fn wf(self) -> bool {
        if self.is_unique_state() {
            self.pack is NoPack
        } else {
            self.bounded() && self.aligned() && self.link_ok() && self.pack_wf()
        }
    }

    /// Membership: the sparse slot of the index resolves to a dense entry
    /// with that same index.
    pub open spec fn contains_id(self, e: EntityId) -> bool {
        &&& e.idx() < self.sparse.len()
        &&& self.sparse[e.idx() as int] < self.dense.len()
        &&& self.dense[self.sparse[e.idx() as int] as int].idx() == e.idx()
    }

    /// The dense position of an entity, meaningful when `contains_id` holds.
    pub open spec fn pos_of(self, e: EntityId) -> int {
        self.sparse[e.idx() as int] as int
    }

    /// The component stored for an entity, meaningful when `contains_id`
    /// holds.
    pub open spec fn value_of(self, e: EntityId) -> T {
        self.data[self.pos_of(e)]
    }

    /// What a lookup returns.
    pub open spec fn spec_get(self, e: EntityId) -> Option<T> {
        if self.contains_id(e) {
            Some(self.value_of(e))
        } else {
            None
        }
    }

    /// The `inserted` counter of an update pack, zero in any other mode.
    pub open spec fn upd_inserted(self) -> int {
        match self.pack {
            PackModel::Update { inserted, .. } => inserted as int,
            _ => 0,
        }
    }

    /// The `modified` counter of an update pack, zero in any other mode.
    pub open spec fn upd_modified(self) -> int {
        match self.pack {
            PackModel::Update { modified, .. } => modified as int,
            _ => 0,
        }
    }

    /// The prefix length of a tight or loose pack, zero in any other mode.
    pub open spec fn pack_len(self) -> int {
        match self.pack {
            PackModel::Tight { len, .. } => len as int,
            PackModel::Loose { len, .. } => len as int,
            _ => 0,
        }
    }

    /// The removal log of an update pack, empty in any other mode.
    pub open spec fn removed_log(self) -> Seq<(EntityId, T)> {
        match self.pack {
            PackModel::Update { removed, .. } => removed,
            _ => Seq::empty(),
        }
    }

    /// The entity sits in the inserted zone of an update pack.
    pub open spec fn in_inserted_zone(self, e: EntityId) -> bool {
        self.pack is Update && self.contains_id(e) && self.pos_of(e) < self.upd_inserted()
    }

    /// The entity sits in the modified zone of an update pack.
    pub open spec fn in_modified_zone(self, e: EntityId) -> bool {
        self.pack is Update && self.contains_id(e) && self.upd_inserted() <= self.pos_of(e)
            && self.pos_of(e) < self.upd_inserted() + self.upd_modified()
    }

    /// The entity sits in the packed prefix of a tight or loose pack.
    pub open spec fn in_packed_region(self, e: EntityId) -> bool {
        (self.pack is Tight || self.pack is Loose) && self.contains_id(e) && self.pos_of(e)
            < self.pack_len()
    }

    /// The same state with the dense entries (and their data) at `a` and `b`
    /// exchanged and both sparse slots rewritten.
    pub open spec fn swap_at(self, a: int, b: int) -> Model<T> {
        Model {
            sparse: self.sparse.update(self.dense[a].idx() as int, b as usize).update(
                self.dense[b].idx() as int,
                a as usize,
            ),
            dense: self.dense.update(a, self.dense[b]).update(b, self.dense[a]),
            data: self.data.update(a, self.data[b]).update(b, self.data[a]),
            pack: self.pack,
        }
    }

    /// The same state with the prefix length of a tight or loose pack
    /// replaced.
    pub open spec fn with_pack_len(self, len: usize) -> Model<T> {
        Model {
            pack: match self.pack {
                PackModel::Tight { types, .. } => PackModel::Tight { len, types },
                PackModel::Loose { tight_types, loose_types, .. } => PackModel::Loose {
                    len,
                    tight_types,
                    loose_types,
                },
                _ => self.pack,
            },
            ..self
        }
    }

    /// The same state with the counters of an update pack replaced.
    pub open spec fn with_counters(self, inserted: usize, modified: usize) -> Model<T> {
        Model {
            pack: match self.pack {
                PackModel::Update { removed, .. } => PackModel::Update {
                    inserted,
                    modified,
                    removed,
                },
                _ => self.pack,
            },
            ..self
        }
    }

    /// The same state with one pair appended to the removal log of an update
    /// pack.
    pub open spec fn with_removed_push(self, e: EntityId, v: T) -> Model<T> {
        Model {
            pack: match self.pack {
                PackModel::Update { inserted, modified, removed } => PackModel::Update {
                    inserted,
                    modified,
                    removed: removed.push((e, v)),
                },
                _ => self.pack,
            },
            ..self
        }
    }

    /// The same state with the sparse array grown to at least `n` slots,
    /// new slots zeroed.
    pub open spec fn grown(self, n: int) -> Model<T> {
        if n <= self.sparse.len() {
            self
        } else {
            Model { sparse: self.sparse + Seq::new((n - self.sparse.len()) as nat, |i: int| 0usize), ..self }
        }
    }

    /// The same state with a fresh entry appended at the end of the dense
    /// region and its sparse slot set.
    pub open spec fn appended(self, value: T, e: EntityId) -> Model<T> {
        Model {
            sparse: self.sparse.update(e.idx() as int, self.dense.len() as usize),
            dense: self.dense.push(e),
            data: self.data.push(value),
            pack: self.pack,
        }
    }

    /// The same state with the removal log of an update pack replaced.
    pub open spec fn with_removed(self, log: Seq<(EntityId, T)>) -> Model<T> {
        Model {
            pack: match self.pack {
                PackModel::Update { inserted, modified, .. } => PackModel::Update {
                    inserted,
                    modified,
                    removed: log,
                },
                _ => self.pack,
            },
            ..self
        }
    }

    /// The same state with the component of a present entity overwritten.
    pub open spec fn write_value(self, e: EntityId, v: T) -> Model<T> {
        Model { data: self.data.update(self.pos_of(e), v), ..self }
    }

    /// The migration a mutable lookup performs: under an update pack, an
    /// entry in the stable tail is swapped to the head of the tail and the
    /// modified zone grows over it.
    pub open spec fn touch(self, e: EntityId) -> Model<T> {
        if self.pack is Update && self.pos_of(e) >= self.upd_inserted() + self.upd_modified() {
            let nm = self.upd_inserted() + self.upd_modified();
            self.swap_at(self.pos_of(e), nm).with_counters(
                self.upd_inserted() as usize,
                (self.upd_modified() + 1) as usize,
            )
        } else {
            self
        }
    }

    /// The state after an insertion.  An entity already present keeps its
    /// dense entry (after the mutable-lookup migration) and has its component
    /// overwritten; a fresh entity is appended and, under an update pack,
    /// swapped into the inserted zone, which grows by one.
    pub open spec fn spec_insert(self, value: T, e: EntityId) -> Model<T> {
        if self.contains_id(e) {
            let t = self.touch(e);
            Model { data: t.data.update(t.pos_of(e), value), ..t }
        } else {
            let g = self.grown(e.idx() + 1).appended(value, e);
            if g.pack is Update {
                let i = g.upd_inserted();
                let m = g.upd_modified();
                let l = g.len() - 1;
                g.swap_at(l, i + m).swap_at(i + m, i).with_counters(
                    (i + 1) as usize,
                    m as usize,
                )
            } else {
                g
            }
        }
    }

    /// What an insertion returns: the previous component of the entity, if
    /// any.
    pub open spec fn spec_insert_result(self, e: EntityId) -> Option<T> {
        if self.contains_id(e) {
            Some(self.value_of(e))
        } else {
            None
        }
    }

    /// The eviction phase of a removal: the entity cascades out of the
    /// packed prefix or out of its update-pack zone, and the counter of the
    /// zone it occupied shrinks by one.  Yields the intermediate state and
    /// the dense position the entity came to rest at.
    pub open spec fn remove_phase1(self, e: EntityId) -> (Model<T>, int) {
        let d = self.pos_of(e);
        match self.pack {
            PackModel::NoPack => (self, d),
            PackModel::Tight { len, .. } => if d < len {
                (self.swap_at(d, len - 1).with_pack_len((len - 1) as usize), len - 1)
            } else {
                (self, d)
            },
            PackModel::Loose { len, .. } => if d < len {
                (self.swap_at(d, len - 1).with_pack_len((len - 1) as usize), len - 1)
            } else {
                (self, d)
            },
            PackModel::Update { inserted, modified, .. } => if d < inserted {
                let s = self.swap_at(d, inserted - 1).with_counters(
                    (inserted - 1) as usize,
                    modified,
                );
                if modified > 0 {
                    (s.swap_at(inserted - 1, inserted - 1 + modified), inserted - 1 + modified)
                } else {
                    (s, inserted - 1)
                }
            } else if d < inserted + modified {
                (
                    self.swap_at(d, inserted + modified - 1).with_counters(
                        inserted,
                        (modified - 1) as usize,
                    ),
                    inserted + modified - 1,
                )
            } else {
                (self, d)
            },
        }
    }

    /// The state after a removal, except for the removal log, which the
    /// executable operation fills with a clone of the evicted component.
    pub open spec fn spec_remove(self, e: EntityId) -> Model<T> {
        if !self.contains_id(e) {
            self
        } else {
            let (m1, d) = self.remove_phase1(e);
            let l = m1.len() - 1;
            let m2 = m1.swap_at(d, l);
            Model { dense: m2.dense.drop_last(), data: m2.data.drop_last(), ..m2 }
        }
    }

    /// What a removal returns: the component the entity held, if any.
    pub open spec fn spec_remove_result(self, e: EntityId) -> Option<T> {
        if self.contains_id(e) {
            Some(self.value_of(e))
        } else {
            None
        }
    }

    /// The state after packing one entity: a present entity outside the
    /// packed prefix is swapped onto its end and the prefix grows by one.
    pub open spec fn spec_pack(self, e: EntityId) -> Model<T> {
        if (self.pack is Tight || self.pack is Loose) && self.contains_id(e) && self.pos_of(e)
            >= self.pack_len() {
            self.swap_at(self.pos_of(e), self.pack_len()).with_pack_len(
                (self.pack_len() + 1) as usize,
            )
        } else {
            self
        }
    }

    /// The state after unpacking one entity: a present entity inside the
    /// packed prefix is swapped onto its last slot and the prefix shrinks by
    /// one.
    pub open spec fn spec_unpack(self, e: EntityId) -> Model<T> {
        if (self.pack is Tight || self.pack is Loose) && self.contains_id(e) && self.pos_of(e)
            < self.pack_len() {
            self.swap_at(self.pos_of(e), self.pack_len() - 1).with_pack_len(
                (self.pack_len() - 1) as usize,
            )
        } else {
            self
        }
    }

    /// The mutable-lookup migration keeps the state well formed, moves the
    /// entity into the modified zone when it sat in the stable tail, and
    /// leaves every other entity's membership, component and zone untouched.
    pub proof fn lemma_touch_props(self, e: EntityId)
        requires
            self.wf(),
            self.contains_id(e),
        ensures
            self.touch(e).wf(),
            self.touch(e).aligned(),
            self.touch(e).link_ok(),
            self.touch(e).sparse.len() == self.sparse.len(),
            self.touch(e).len() == self.len(),
            self.touch(e).data.len() == self.data.len(),
            forall|x: EntityId| self.touch(e).contains_id(x) == self.contains_id(x),
            forall|x: EntityId|
                self.contains_id(x) ==> self.touch(e).value_of(x) == self.value_of(x),
            self.touch(e).upd_inserted() == self.upd_inserted(),
            self.touch(e).pack_len() == self.pack_len(),
            self.touch(e).removed_log() == self.removed_log(),
            !(self.pack is Update && self.pos_of(e) >= self.upd_inserted() + self.upd_modified())
                ==> self.touch(e) == self,
            self.pack is Update && self.pos_of(e) >= self.upd_inserted() + self.upd_modified()
                ==> {
                &&& self.touch(e).pack is Update
                &&& self.touch(e).upd_modified() == self.upd_modified() + 1
                &&& self.touch(e).pos_of(e) == self.upd_inserted() + self.upd_modified()
                &&& self.touch(e).in_modified_zone(e)
                &&& forall|x: EntityId|
                    x.idx() != e.idx() ==> self.touch(e).in_modified_zone(x)
                        == self.in_modified_zone(x)
                &&& forall|x: EntityId|
                    x.idx() != e.idx() ==> self.touch(e).in_inserted_zone(x)
                        == self.in_inserted_zone(x)
            },
    {
        if self.pack is Update && self.pos_of(e) >= self.upd_inserted() + self.upd_modified() {
            let i = self.upd_inserted();
            let m = self.upd_modified();
            let nm = i + m;
            let p = self.pos_of(e);
            let s = self.touch(e);
            self.lemma_link_injective();
            self.lemma_swap_at_preserves(p, nm);
            let w = self.swap_at(p, nm);
            assert(w.dense[i + m].idx() == e.idx());
            assert(s.contains_id(e) && s.pos_of(e) == i + m);
            assert forall|x: EntityId|
                x.idx() != e.idx() implies s.in_modified_zone(x) == self.in_modified_zone(x)
                && s.in_inserted_zone(x) == self.in_inserted_zone(x) by {
                assert(w.contains_id(x) == self.contains_id(x));
                assert(s.contains_id(x) == w.contains_id(x));
                if self.contains_id(x) {
                    let px = self.pos_of(x);
                    if px == p {
                        assert(self.dense[p].idx() == x.idx() && self.dense[p].idx() == e.idx());
                        assert(false);
                    } else if px == nm {
                        assert(w.pos_of(self.dense[nm]) == p);
                        assert(self.dense[nm].idx() == x.idx());
                        assert(w.pos_of(x) == w.sparse[x.idx() as int] as int);
                        assert(s.pos_of(x) == p);
                        assert(p != nm);
                        assert(p >= nm + 1);
                    } else {
                        assert(w.pos_of(x) == px);
                        assert(s.pos_of(x) == px);
                    }
                }
            }
        }
    }

    /// Growing the sparse array and appending a fresh entry keeps the state
    /// linked; the new entity becomes the last dense entry and nothing else
    /// changes.
    proof fn lemma_append_props(self, value: T, e: EntityId)
        requires
            self.bounded(),
            self.aligned(),
            self.link_ok(),
            !self.contains_id(e),
            e.idx() < usize::MAX,
            self.dense.len() < usize::MAX,
        ensures
            ({
                let g = self.grown(e.idx() + 1).appended(value, e);
                &&& g.bounded()
                &&& g.aligned()
                &&& g.link_ok()
                &&& g.len() == self.len() + 1
                &&& g.pack == self.pack
                &&& g.contains_id(e)
                &&& g.pos_of(e) == self.len()
                &&& g.value_of(e) == value
                &&& forall|x: EntityId|
                    #[trigger] g.contains_id(x) == (self.contains_id(x) || x.idx() == e.idx())
                &&& forall|x: EntityId|
                    self.contains_id(x) ==> g.pos_of(x) == self.pos_of(x) && g.value_of(x)
                        == self.value_of(x)
            }),
    {
        let gr = self.grown(e.idx() + 1);
        let g = gr.appended(value, e);
        self.lemma_link_injective();
        assert forall|i: int| 0 <= i < self.dense.len() implies (#[trigger] self.dense[i]).idx()
            != e.idx() by {
            if self.dense[i].idx() == e.idx() {
                assert(self.contains_id(e));
            }
        }
        assert(gr.link_ok());
        assert forall|x: EntityId| #[trigger] g.contains_id(x) == (self.contains_id(x) || x.idx()
            == e.idx()) by {
            if x.idx() == e.idx() {
                assert(g.contains_id(x));
            } else {
                if x.idx() < gr.sparse.len() {
                    let p = gr.sparse[x.idx() as int] as int;
                    if x.idx() < self.sparse.len() {
                        assert(gr.sparse[x.idx() as int] == self.sparse[x.idx() as int]);
                        if 0 <= p < g.dense.len() {
                            if p < self.dense.len() {
                                assert(g.dense[p] == self.dense[p]);
                            } else {
                                assert(g.dense[p].idx() == e.idx());
                            }
                        }
                    } else {
                        assert(gr.sparse[x.idx() as int] == 0);
                        if 0 < g.dense.len() {
                            if self.dense.len() > 0 {
                                assert(g.dense[0] == self.dense[0]);
                                assert(self.dense[0].idx() < self.sparse.len());
                                assert(self.dense[0].idx() != x.idx());
                            } else {
                                assert(g.dense[0].idx() == e.idx());
                            }
                        }
                        assert(!g.contains_id(x) && !self.contains_id(x));
                    }
                }
            }
        }
    }

    /// An insertion keeps the state well formed, stores the value for the
    /// entity, preserves every other entity's membership, component and
    /// zone, and under an update pack places a fresh entity in the inserted
    /// zone, which grows by one.
    #[verifier::rlimit(60)]
    pub proof fn lemma_insert_props(self, value: T, e: EntityId)
        requires
            self.wf(),
            !self.is_unique_state(),
            e.idx() < usize::MAX,
            !self.contains_id(e) ==> self.dense.len() < usize::MAX,
        ensures
            ({
                let s = self.spec_insert(value, e);
                &&& s.wf()
                &&& !s.is_unique_state()
                &&& s.contains_id(e)
                &&& s.value_of(e) == value
                &&& s.len() == self.len() + (if self.contains_id(e) {
                    0int
                } else {
                    1int
                })
                &&& forall|x: EntityId|
                    #[trigger] s.contains_id(x) == (self.contains_id(x) || x.idx() == e.idx())
                &&& forall|x: EntityId|
                    self.contains_id(x) && x.idx() != e.idx() ==> s.value_of(x) == self.value_of(
                        x,
                    )
                &&& s.removed_log() == self.removed_log()
                &&& s.pack_len() == self.pack_len()
                &&& (s.pack is Update) == (self.pack is Update)
                &&& (s.pack is Tight) == (self.pack is Tight)
                &&& (s.pack is Loose) == (self.pack is Loose)
                &&& (s.pack is NoPack) == (self.pack is NoPack)
                &&& s.upd_inserted() == self.upd_inserted() + (if !self.contains_id(e)
                    && self.pack is Update {
                    1int
                } else {
                    0int
                })
                &&& s.upd_modified() == self.upd_modified() + (if self.contains_id(e)
                    && self.pack is Update && self.pos_of(e) >= self.upd_inserted()
                    + self.upd_modified() {
                    1int
                } else {
                    0int
                })
                &&& self.pack is Update && !self.contains_id(e) ==> s.in_inserted_zone(e)
                    && s.pos_of(e) == self.upd_inserted()
                &&& forall|x: EntityId|
                    x.idx() != e.idx() ==> #[trigger] s.in_modified_zone(x)
                        == self.in_modified_zone(x)
                &&& forall|x: EntityId|
                    x.idx() != e.idx() ==> #[trigger] s.in_inserted_zone(x)
                        == self.in_inserted_zone(x)
            }),
    {
        let s = self.spec_insert(value, e);
        if self.contains_id(e) {
            self.lemma_touch_props(e);
            let t = self.touch(e);
            t.lemma_link_injective();
            assert(t.contains_id(e) && t.pos_of(e) < t.len());
            assert forall|x: EntityId|
                self.contains_id(x) && x.idx() != e.idx() implies s.value_of(x) == self.value_of(
                x,
            ) by {
                assert(t.contains_id(x));
                assert(t.dense[t.pos_of(x)].idx() == x.idx());
                assert(t.dense[t.pos_of(e)].idx() == e.idx());
                assert(t.pos_of(x) != t.pos_of(e));
            }
            assert forall|x: EntityId|
                x.idx() != e.idx() implies #[trigger] s.in_modified_zone(x)
                == self.in_modified_zone(x) && #[trigger] s.in_inserted_zone(x)
                == self.in_inserted_zone(x) by {
                assert(s.in_modified_zone(x) == t.in_modified_zone(x));
                assert(s.in_inserted_zone(x) == t.in_inserted_zone(x));
            }
        } else {
            self.lemma_append_props(value, e);
            let g = self.grown(e.idx() + 1).appended(value, e);
            if g.pack is Update {
                let i = self.upd_inserted();
                let m = self.upd_modified();
                let l = g.len() - 1;
                let nm = i + m;
                assert(g.upd_inserted() == i && g.upd_modified() == m);
                assert(nm <= l);
                g.lemma_link_injective();
                g.lemma_swap_at_preserves(l, nm);
                let g1 = g.swap_at(l, nm);
                g1.lemma_link_injective();
                g1.lemma_swap_at_preserves(nm, i);
                let g2 = g1.swap_at(nm, i);
                assert(g1.pos_of(e) == nm) by {
                    if g.dense[nm].idx() == g.dense[l].idx() {
                        assert(nm == l);
                    }
                }
                assert(g1.contains_id(e) && g1.dense[nm].idx() == e.idx());
                assert(g2.pos_of(e) == i) by {
                    if g1.dense[i].idx() == g1.dense[nm].idx() {
                        assert(i == nm);
                    }
                }
                assert(s == g2.with_counters((i + 1) as usize, m as usize));
                assert(s.contains_id(e) && s.pos_of(e) == i && s.value_of(e) == value);
                assert(s.wf());
                assert forall|x: EntityId|
                    x.idx() != e.idx() implies #[trigger] s.in_modified_zone(x)
                    == self.in_modified_zone(x) && #[trigger] s.in_inserted_zone(x)
                    == self.in_inserted_zone(x) by {
                    assert(g1.contains_id(x) == g.contains_id(x));
                    assert(g2.contains_id(x) == g1.contains_id(x));
                    if self.contains_id(x) {
                        let px = self.pos_of(x);
                        assert(g.pos_of(x) == px && px < self.len());
                        assert(g.dense[px].idx() == x.idx());
                        if px == nm {
                            assert(g1.pos_of(g.dense[nm]) == l);
                            assert(g1.pos_of(x) == l);
                            assert(l != nm && l != i);
                            assert(g2.pos_of(x) == l);
                        } else if px == i {
                            assert(g1.pos_of(x) == px);
                            assert(g2.pos_of(g1.dense[i]) == nm);
                            assert(g1.dense[i].idx() == x.idx());
                            assert(g2.pos_of(x) == nm);
                        } else {
                            assert(g1.pos_of(x) == px);
                            assert(g2.pos_of(x) == px);
                        }
                    } else {
                        assert(!s.contains_id(x));
                    }
                }
            } else {
                assert(s == g);
                assert(s.wf());
            }
        }
    }

    /// The eviction phase of a removal keeps the arrays linked, moves the
    /// entity to the boundary of the zones, shrinks exactly the counter of
    /// the zone it occupied, and leaves every other entity's membership,
    /// component and zone untouched.
    #[verifier::rlimit(100)]
    pub(crate) proof fn lemma_remove_phase1(self, e: EntityId)
        requires
            self.wf(),
            !self.is_unique_state(),
            self.contains_id(e),
        ensures
            ({
                let (m1, d) = self.remove_phase1(e);
                &&& m1.bounded()
                &&& m1.aligned()
                &&& m1.link_ok()
                &&& m1.pack_wf()
                &&& m1.sparse.len() == self.sparse.len()
                &&& m1.len() == self.len()
                &&& m1.removed_log() == self.removed_log()
                &&& (m1.pack is Update) == (self.pack is Update)
                &&& (m1.pack is Tight) == (self.pack is Tight)
                &&& (m1.pack is Loose) == (self.pack is Loose)
                &&& (m1.pack is NoPack) == (self.pack is NoPack)
                &&& forall|x: EntityId| #[trigger] m1.contains_id(x) == self.contains_id(x)
                &&& forall|x: EntityId|
                    self.contains_id(x) ==> m1.value_of(x) == self.value_of(x)
                &&& m1.contains_id(e)
                &&& m1.pos_of(e) == d
                &&& 0 <= d < m1.len()
                &&& m1.dense[d].idx() == e.idx()
                &&& m1.pack is Update ==> d >= m1.upd_inserted() + m1.upd_modified()
                &&& (m1.pack is Tight || m1.pack is Loose) ==> d >= m1.pack_len()
                &&& m1.pack_len() == self.pack_len() - (if self.in_packed_region(e) {
                    1int
                } else {
                    0int
                })
                &&& m1.upd_inserted() == self.upd_inserted() - (if self.in_inserted_zone(e) {
                    1int
                } else {
                    0int
                })
                &&& m1.upd_modified() == self.upd_modified() - (if self.in_modified_zone(e) {
                    1int
                } else {
                    0int
                })
                &&& forall|x: EntityId|
                    x.idx() != e.idx() ==> #[trigger] m1.in_modified_zone(x)
                        == self.in_modified_zone(x)
                &&& forall|x: EntityId|
                    x.idx() != e.idx() ==> #[trigger] m1.in_inserted_zone(x)
                        == self.in_inserted_zone(x)
                &&& forall|x: EntityId|
                    x.idx() != e.idx() ==> #[trigger] m1.in_packed_region(x)
                        == self.in_packed_region(x)
            }),
    {
        let (m1, d) = self.remove_phase1(e);
        let d0 = self.pos_of(e);
        self.lemma_link_injective();
        match self.pack {
            PackModel::NoPack => {}
            PackModel::Tight { len, .. } => {
                if d0 < len {
                    self.lemma_swap_at_preserves(d0, len - 1);
                    let w = self.swap_at(d0, len - 1);
                    assert(w.dense[len - 1].idx() == e.idx());
                    self.lemma_phase1_prefix_zones(e, len as int);
                }
            }
            PackModel::Loose { len, .. } => {
                if d0 < len {
                    self.lemma_swap_at_preserves(d0, len - 1);
                    let w = self.swap_at(d0, len - 1);
                    assert(w.dense[len - 1].idx() == e.idx());
                    self.lemma_phase1_prefix_zones(e, len as int);
                }
            }
            PackModel::Update { inserted, modified, .. } => {
                let i = inserted as int;
                let m = modified as int;
                if d0 < i {
                    self.lemma_swap_at_preserves(d0, i - 1);
                    let w = self.swap_at(d0, i - 1);
                    let s1 = w.with_counters((i - 1) as usize, modified);
                    assert(w.dense[i - 1].idx() == e.idx());
                    assert(w.pos_of(e) == i - 1);
                    if m > 0 {
                        w.lemma_link_injective();
                        w.lemma_swap_at_preserves(i - 1, i - 1 + m);
                        let w2 = w.swap_at(i - 1, i - 1 + m);
                        assert(w2.dense[i - 1 + m].idx() == e.idx());
                        assert(m1 == w2.with_counters((i - 1) as usize, modified));
                        assert(m1.pos_of(e) == i - 1 + m);
                        assert forall|x: EntityId|
                            x.idx() != e.idx() implies #[trigger] m1.in_modified_zone(x)
                            == self.in_modified_zone(x) && #[trigger] m1.in_inserted_zone(x)
                            == self.in_inserted_zone(x) && #[trigger] m1.in_packed_region(x)
                            == self.in_packed_region(x) by {
                            assert(w.contains_id(x) == self.contains_id(x));
                            assert(w2.contains_id(x) == w.contains_id(x));
                            if self.contains_id(x) {
                                let px = self.pos_of(x);
                                assert(self.dense[px].idx() == x.idx());
                                if px == d0 {
                                    assert(false);
                                } else if px == i - 1 {
                                    assert(w.pos_of(self.dense[i - 1]) == d0);
                                    assert(w.pos_of(x) == d0);
                                    assert(d0 != i - 1 && d0 < i - 1);
                                    assert(w2.pos_of(x) == d0);
                                } else if px == i - 1 + m {
                                    assert(w.pos_of(x) == px);
                                    assert(w.dense[i - 1 + m].idx() == x.idx());
                                    assert(w2.pos_of(w.dense[i - 1 + m]) == i - 1);
                                    assert(w2.pos_of(x) == i - 1);
                                } else {
                                    assert(w.pos_of(x) == px);
                                    assert(w2.pos_of(x) == px);
                                }
                            } else {
                                assert(!m1.contains_id(x));
                            }
                        }
                    } else {
                        assert(m1 == s1);
                        assert(m1.pos_of(e) == i - 1);
                        assert forall|x: EntityId|
                            x.idx() != e.idx() implies #[trigger] m1.in_modified_zone(x)
                            == self.in_modified_zone(x) && #[trigger] m1.in_inserted_zone(x)
                            == self.in_inserted_zone(x) && #[trigger] m1.in_packed_region(x)
                            == self.in_packed_region(x) by {
                            assert(w.contains_id(x) == self.contains_id(x));
                            if self.contains_id(x) {
                                let px = self.pos_of(x);
                                if px == d0 {
                                    assert(false);
                                } else if px == i - 1 {
                                    assert(w.pos_of(self.dense[i - 1]) == d0);
                                    assert(w.pos_of(x) == d0);
                                } else {
                                    assert(w.pos_of(x) == px);
                                }
                            }
                        }
                    }
                } else if d0 < i + m {
                    self.lemma_swap_at_preserves(d0, i + m - 1);
                    let w = self.swap_at(d0, i + m - 1);
                    assert(w.dense[i + m - 1].idx() == e.idx());
                    assert(m1 == w.with_counters(inserted, (m - 1) as usize));
                    assert(m1.pos_of(e) == i + m - 1);
                    assert forall|x: EntityId|
                        x.idx() != e.idx() implies #[trigger] m1.in_modified_zone(x)
                        == self.in_modified_zone(x) && #[trigger] m1.in_inserted_zone(x)
                        == self.in_inserted_zone(x) && #[trigger] m1.in_packed_region(x)
                        == self.in_packed_region(x) by {
                        assert(w.contains_id(x) == self.contains_id(x));
                        if self.contains_id(x) {
                            let px = self.pos_of(x);
                            if px == d0 {
                                assert(false);
                            } else if px == i + m - 1 {
                                assert(w.pos_of(self.dense[i + m - 1]) == d0);
                                assert(w.pos_of(x) == d0);
                                assert(d0 < i + m - 1);
                            } else {
                                assert(w.pos_of(x) == px);
                            }
                        }
                    }
                }
            }
        }
    }

    /// In a tight or loose pack, evicting the entity by swapping it onto the
    /// last packed slot and shrinking the prefix keeps every other entity's
    /// zones.
    proof fn lemma_phase1_prefix_zones(self, e: EntityId, len: int)
        requires
            self.wf(),
            !self.is_unique_state(),
            self.contains_id(e),
            self.pack_len() == len,
            self.pos_of(e) < len,
            0 < len <= self.len(),
            (self.pack is Tight || self.pack is Loose),
        ensures
            ({
                let w = self.swap_at(self.pos_of(e), len - 1);
                forall|x: EntityId|
                    x.idx() != e.idx() ==> {
                        &&& (#[trigger] w.contains_id(x) && w.pos_of(x) < len - 1)
                            == self.in_packed_region(x)
                        &&& w.contains_id(x) == self.contains_id(x)
                        &&& w.contains_id(x) ==> 0 <= w.pos_of(x) < w.len()
                    }
            }),
    {
        let d0 = self.pos_of(e);
        self.lemma_link_injective();
        self.lemma_swap_at_preserves(d0, len - 1);
        let w = self.swap_at(d0, len - 1);
        assert forall|x: EntityId| x.idx() != e.idx() implies {
            &&& (#[trigger] w.contains_id(x) && w.pos_of(x) < len - 1) == self.in_packed_region(
                x,
            )
            &&& w.contains_id(x) == self.contains_id(x)
            &&& w.contains_id(x) ==> 0 <= w.pos_of(x) < w.len()
        } by {
            assert(w.contains_id(x) == self.contains_id(x));
            if self.contains_id(x) {
                let px = self.pos_of(x);
                assert(self.dense[px].idx() == x.idx());
                if px == d0 {
                    assert(false);
                } else if px == len - 1 {
                    assert(w.pos_of(self.dense[len - 1]) == d0);
                    assert(w.pos_of(x) == d0);
                    assert(d0 < len - 1);
                } else {
                    assert(w.pos_of(x) == px);
                }
            }
        }
    }

    /// A removal keeps the state well formed, takes the entity out, shrinks
    /// exactly the counter of the zone it occupied, and leaves every other
    /// entity's membership, component and zone untouched.
    #[verifier::rlimit(100)]
    pub proof fn lemma_remove_props(self, e: EntityId)
        requires
            self.wf(),
            !self.is_unique_state(),
        ensures
            ({
                let s = self.spec_remove(e);
                &&& s.wf()
                &&& !s.is_unique_state()
                &&& !s.contains_id(e)
                &&& s.len() == self.len() - (if self.contains_id(e) {
                    1int
                } else {
                    0int
                })
                &&& forall|x: EntityId|
                    #[trigger] s.contains_id(x) == (self.contains_id(x) && x.idx() != e.idx())
                &&& forall|x: EntityId|
                    self.contains_id(x) && x.idx() != e.idx() ==> s.value_of(x) == self.value_of(
                        x,
                    )
                &&& s.removed_log() == self.removed_log()
                &&& (s.pack is Update) == (self.pack is Update)
                &&& (s.pack is Tight) == (self.pack is Tight)
                &&& (s.pack is Loose) == (self.pack is Loose)
                &&& (s.pack is NoPack) == (self.pack is NoPack)
                &&& s.pack_len() == self.pack_len() - (if self.in_packed_region(e) {
                    1int
                } else {
                    0int
                })
                &&& s.upd_inserted() == self.upd_inserted() - (if self.in_inserted_zone(e) {
                    1int
                } else {
                    0int
                })
                &&& s.upd_modified() == self.upd_modified() - (if self.in_modified_zone(e) {
                    1int
                } else {
                    0int
                })
                &&& forall|x: EntityId|
                    x.idx() != e.idx() ==> #[trigger] s.in_modified_zone(x)
                        == self.in_modified_zone(x)
                &&& forall|x: EntityId|
                    x.idx() != e.idx() ==> #[trigger] s.in_inserted_zone(x)
                        == self.in_inserted_zone(x)
                &&& forall|x: EntityId|
                    x.idx() != e.idx() ==> #[trigger] s.in_packed_region(x)
                        == self.in_packed_region(x)
            }),
    {
        if self.contains_id(e) {
            self.lemma_remove_phase1(e);
            let (m1, d) = self.remove_phase1(e);
            let l = m1.len() - 1;
            m1.lemma_link_injective();
            m1.lemma_swap_at_preserves(d, l);
            let m2 = m1.swap_at(d, l);
            let s = self.spec_remove(e);
            assert(m2.dense[l].idx() == e.idx());
            assert(s.sparse == m2.sparse && s.dense == m2.dense.drop_last() && s.data
                == m2.data.drop_last() && s.pack == m2.pack);
            assert(s.link_ok()) by {
                assert forall|i: int| 0 <= i < s.dense.len() implies (
                #[trigger] s.dense[i]).idx() < s.sparse.len() && s.sparse[s.dense[i].idx()
                    as int] as int == i by {
                    assert(s.dense[i] == m2.dense[i]);
                }
            }
            assert(!s.contains_id(e)) by {
                assert(m2.pos_of(m1.dense[d]) == (if m1.dense[l].idx() == m1.dense[d].idx() {
                    d
                } else {
                    l
                }));
                if m1.dense[l].idx() == m1.dense[d].idx() {
                    assert(d == l);
                }
                assert(m2.sparse[e.idx() as int] as int == l);
            }
            assert forall|x: EntityId| #[trigger] s.contains_id(x) == (self.contains_id(x)
                && x.idx() != e.idx()) by {
                assert(m2.contains_id(x) == self.contains_id(x));
                if x.idx() == e.idx() {
                    assert(!s.contains_id(x));
                } else {
                    if m2.contains_id(x) {
                        let px = m2.pos_of(x);
                        assert(m2.dense[px].idx() == x.idx());
                        if px == l {
                            assert(x.idx() == e.idx());
                        }
                        assert(px < l);
                        assert(s.dense[px] == m2.dense[px]);
                        assert(s.contains_id(x));
                    } else {
                        if x.idx() < s.sparse.len() {
                            let px = s.sparse[x.idx() as int] as int;
                            if 0 <= px < s.dense.len() {
                                assert(s.dense[px] == m2.dense[px]);
                            }
                        }
                        assert(!s.contains_id(x));
                    }
                }
            }
            assert forall|x: EntityId|
                x.idx() != e.idx() implies (#[trigger] s.in_modified_zone(x)
                == self.in_modified_zone(x)) && (#[trigger] s.in_inserted_zone(x)
                == self.in_inserted_zone(x)) && (#[trigger] s.in_packed_region(x)
                == self.in_packed_region(x)) && (self.contains_id(x) ==> s.value_of(x)
                == self.value_of(x)) by {
                assert(m1.contains_id(x) == self.contains_id(x));
                if self.contains_id(x) {
                    let px = m1.pos_of(x);
                    assert(m1.dense[px].idx() == x.idx());
                    if px == d {
                        assert(x.idx() == e.idx());
                        assert(false);
                    } else if px == l {
                        assert(m2.pos_of(m1.dense[l]) == d);
                        assert(s.pos_of(x) == d);
                        assert(s.value_of(x) == m2.data[d]);
                        assert(m1.pack is Update ==> l >= m1.upd_inserted()
                            + m1.upd_modified());
                        assert((m1.pack is Tight || m1.pack is Loose) ==> l >= m1.pack_len());
                    } else {
                        assert(m2.pos_of(x) == px);
                        assert(s.pos_of(x) == px);
                    }
                    assert(s.in_modified_zone(x) == m1.in_modified_zone(x));
                    assert(s.in_inserted_zone(x) == m1.in_inserted_zone(x));
                    assert(s.in_packed_region(x) == m1.in_packed_region(x));
                } else {
                    assert(!s.contains_id(x));
                }
            }
            assert(s.pack_wf());
            assert(!s.is_unique_state());
            assert(s.wf());
        }
    }

    /// Packing an entity keeps the state well formed, swaps the entity onto
    /// the end of the packed prefix, which grows by one, and leaves every
    /// other entity's membership, component and packed status untouched.
    pub proof fn lemma_pack_props(self, e: EntityId)
        requires
            self.wf(),
            !self.is_unique_state(),
        ensures
            ({
                let s = self.spec_pack(e);
                &&& s.wf()
                &&& !s.is_unique_state()
                &&& s.len() == self.len()
                &&& forall|x: EntityId| #[trigger] s.contains_id(x) == self.contains_id(x)
                &&& forall|x: EntityId|
                    self.contains_id(x) ==> s.value_of(x) == self.value_of(x)
                &&& (s.pack is Update) == (self.pack is Update)
                &&& (s.pack is Tight) == (self.pack is Tight)
                &&& (s.pack is Loose) == (self.pack is Loose)
                &&& (s.pack is NoPack) == (self.pack is NoPack)
                &&& s.removed_log() == self.removed_log()
                &&& s.upd_inserted() == self.upd_inserted()
                &&& s.upd_modified() == self.upd_modified()
                &&& if (self.pack is Tight || self.pack is Loose) && self.contains_id(e)
                    && self.pos_of(e) >= self.pack_len() {
                    &&& s.pack_len() == self.pack_len() + 1
                    &&& s.in_packed_region(e)
                    &&& s.pos_of(e) == self.pack_len()
                } else {
                    s == self
                }
                &&& forall|x: EntityId|
                    x.idx() != e.idx() ==> #[trigger] s.in_packed_region(x)
                        == self.in_packed_region(x)
            }),
    {
        if (self.pack is Tight || self.pack is Loose) && self.contains_id(e) && self.pos_of(e)
            >= self.pack_len() {
            let pl = self.pack_len();
            let p = self.pos_of(e);
            let s = self.spec_pack(e);
            self.lemma_link_injective();
            self.lemma_swap_at_preserves(p, pl);
            let w = self.swap_at(p, pl);
            assert(w.dense[pl].idx() == e.idx());
            assert(s.pos_of(e) == pl);
            assert forall|x: EntityId|
                x.idx() != e.idx() implies #[trigger] s.in_packed_region(x)
                == self.in_packed_region(x) by {
                assert(w.contains_id(x) == self.contains_id(x));
                if self.contains_id(x) {
                    let px = self.pos_of(x);
                    assert(self.dense[px].idx() == x.idx());
                    if px == p {
                        assert(false);
                    } else if px == pl {
                        assert(w.pos_of(self.dense[pl]) == p);
                        assert(w.pos_of(x) == p);
                        assert(p != pl && p > pl);
                    } else {
                        assert(w.pos_of(x) == px);
                    }
                }
            }
        }
    }

    /// Unpacking an entity keeps the state well formed, swaps the entity
    /// onto the last packed slot, the prefix shrinking by one, and leaves
    /// every other entity's membership, component and packed status
    /// untouched.
    pub proof fn lemma_unpack_props(self, e: EntityId)
        requires
            self.wf(),
            !self.is_unique_state(),
        ensures
            ({
                let s = self.spec_unpack(e);
                &&& s.wf()
                &&& !s.is_unique_state()
                &&& s.len() == self.len()
                &&& forall|x: EntityId| #[trigger] s.contains_id(x) == self.contains_id(x)
                &&& forall|x: EntityId|
                    self.contains_id(x) ==> s.value_of(x) == self.value_of(x)
                &&& (s.pack is Update) == (self.pack is Update)
                &&& (s.pack is Tight) == (self.pack is Tight)
                &&& (s.pack is Loose) == (self.pack is Loose)
                &&& (s.pack is NoPack) == (self.pack is NoPack)
                &&& s.removed_log() == self.removed_log()
                &&& s.upd_inserted() == self.upd_inserted()
                &&& s.upd_modified() == self.upd_modified()
                &&& if (self.pack is Tight || self.pack is Loose) && self.contains_id(e)
                    && self.pos_of(e) < self.pack_len() {
                    &&& s.pack_len() == self.pack_len() - 1
                    &&& !s.in_packed_region(e)
                    &&& s.pos_of(e) == self.pack_len() - 1
                } else {
                    s == self
                }
                &&& forall|x: EntityId|
                    x.idx() != e.idx() ==> #[trigger] s.in_packed_region(x)
                        == self.in_packed_region(x)
            }),
    {
        if (self.pack is Tight || self.pack is Loose) && self.contains_id(e) && self.pos_of(e)
            < self.pack_len() {
            let pl = self.pack_len();
            let p = self.pos_of(e);
            let s = self.spec_unpack(e);
            self.lemma_link_injective();
            self.lemma_swap_at_preserves(p, pl - 1);
            let w = self.swap_at(p, pl - 1);
            assert(w.dense[pl - 1].idx() == e.idx());
            assert(s.pos_of(e) == pl - 1);
            assert forall|x: EntityId|
                x.idx() != e.idx() implies #[trigger] s.in_packed_region(x)
                == self.in_packed_region(x) by {
                assert(w.contains_id(x) == self.contains_id(x));
                if self.contains_id(x) {
                    let px = self.pos_of(x);
                    assert(self.dense[px].idx() == x.idx());
                    if px == p {
                        assert(false);
                    } else if px == pl - 1 {
                        assert(w.pos_of(self.dense[pl - 1]) == p);
                        assert(w.pos_of(x) == p);
                        assert(p < pl - 1);
                    } else {
                        assert(w.pos_of(x) == px);
                    }
                }
            }
        }
    }

    /// Packing an entity twice is the same as packing it once.
    pub proof fn lemma_pack_idempotent(self, e: EntityId)
        requires
            self.wf(),
            !self.is_unique_state(),
        ensures
            self.spec_pack(e).spec_pack(e) == self.spec_pack(e),
    {
        self.lemma_pack_props(e);
        let s = self.spec_pack(e);
        if (self.pack is Tight || self.pack is Loose) && self.contains_id(e) && self.pos_of(e)
            >= self.pack_len() {
            assert(s.pos_of(e) < s.pack_len());
            assert(s.spec_pack(e) == s);
        } else {
            assert(s == self);
        }
    }

    /// One step of the rotation that clears the inserted zone: the last
    /// inserted entry swaps with the last modified entry and the inserted
    /// counter shrinks by one.  Membership, components and the modified zone
    /// are untouched.
    pub(crate) proof fn lemma_rotate_step(self)
        requires
            self.wf(),
            self.pack is Update,
            self.upd_inserted() > 0,
        ensures
            ({
                let i = self.upd_inserted();
                let m = self.upd_modified();
                let s = self.swap_at(i - 1, i - 1 + m).with_counters((i - 1) as usize, m as usize);
                &&& s.wf()
                &&& s.pack is Update
                &&& s.upd_inserted() == i - 1
                &&& s.upd_modified() == m
                &&& s.len() == self.len()
                &&& s.sparse.len() == self.sparse.len()
                &&& s.removed_log() == self.removed_log()
                &&& forall|x: EntityId| #[trigger] s.contains_id(x) == self.contains_id(x)
                &&& forall|x: EntityId|
                    self.contains_id(x) ==> s.value_of(x) == self.value_of(x)
                &&& forall|x: EntityId|
                    #[trigger] s.in_modified_zone(x) == self.in_modified_zone(x)
            }),
    {
        let i = self.upd_inserted();
        let m = self.upd_modified();
        let a = i - 1;
        let b = i - 1 + m;
        self.lemma_link_injective();
        self.lemma_swap_at_preserves(a, b);
        let w = self.swap_at(a, b);
        let s = w.with_counters((i - 1) as usize, m as usize);
        assert forall|x: EntityId| #[trigger] s.in_modified_zone(x) == self.in_modified_zone(
            x,
        ) by {
            assert(w.contains_id(x) == self.contains_id(x));
            if self.contains_id(x) {
                let px = self.pos_of(x);
                assert(self.dense[px].idx() == x.idx());
                if px == a {
                    assert(w.pos_of(self.dense[a]) == (if self.dense[b].idx()
                        == self.dense[a].idx() {
                        a
                    } else {
                        b
                    }));
                    assert(s.pos_of(x) == (if a == b {
                        a
                    } else {
                        b
                    }));
                } else if px == b {
                    assert(w.pos_of(self.dense[b]) == a);
                    assert(s.pos_of(x) == a);
                } else {
                    assert(w.pos_of(x) == px);
                }
            }
        }
    }

    /// Distinct dense positions hold entities with distinct indices.
    pub proof fn lemma_link_injective(self)
        requires
            self.link_ok(),
        ensures
            forall|i: int, j: int|
                0 <= i < self.dense.len() && 0 <= j < self.dense.len() && (
                #[trigger] self.dense[i]).idx() == (#[trigger] self.dense[j]).idx() ==> i == j,
    {
    }

    /// Exchanging two dense entries keeps the arrays linked and preserves
    /// membership, stored values, and the position of every uninvolved
    /// entity.
    pub proof fn lemma_swap_at_preserves(self, a: int, b: int)
        requires
            self.aligned(),
            self.link_ok(),
            0 <= a < self.len(),
            0 <= b < self.len(),
        ensures
            self.swap_at(a, b).aligned(),
            self.swap_at(a, b).link_ok(),
            self.swap_at(a, b).sparse.len() == self.sparse.len(),
            self.swap_at(a, b).dense.len() == self.dense.len(),
            self.swap_at(a, b).data.len() == self.data.len(),
            self.swap_at(a, b).pack == self.pack,
            forall|x: EntityId| self.swap_at(a, b).contains_id(x) == self.contains_id(x),
            forall|x: EntityId|
                self.contains_id(x) ==> self.swap_at(a, b).value_of(x) == self.value_of(x),
            forall|x: EntityId|
                self.contains_id(x) && self.pos_of(x) != a && self.pos_of(x) != b
                    ==> self.swap_at(a, b).pos_of(x) == self.pos_of(x),
            self.swap_at(a, b).pos_of(self.dense[a]) == (if self.dense[b].idx()
                == self.dense[a].idx() {
                a
            } else {
                b
            }),
            self.swap_at(a, b).pos_of(self.dense[b]) == a,
    {
        self.lemma_link_injective();
        let s = self.swap_at(a, b);
        assert forall|x: EntityId| s.contains_id(x) == self.contains_id(x) by {
            if x.idx() == self.dense[a].idx() || x.idx() == self.dense[b].idx() {
            } else {
                if x.idx() < self.sparse.len() {
                    let p = self.sparse[x.idx() as int] as int;
                    if 0 <= p < self.dense.len() {
                        assert(s.dense[p].idx() == x.idx() ==> self.dense[p].idx() == x.idx());
                        assert(self.dense[p].idx() == x.idx() ==> s.dense[p].idx() == x.idx());
                    }
                }
            }
        }
    }
}

} // verus!
