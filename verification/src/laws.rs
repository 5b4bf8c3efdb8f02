//! Laws of the storage, stated over the model and proved once for every
//! well-formed state.

use vstd::prelude::*;

use crate::entity::EntityId;
use crate::model::Model;

verus! {

/// The dense and data sequences of any well-formed, non-unique state are
/// index-aligned.
pub proof fn lemma_alignment<T>(s: Model<T>)
    requires
        s.wf(),
        !s.is_unique_state(),
    ensures
        s.dense.len() == s.data.len(),
{
}

/// In any well-formed, non-unique state, every dense entry is pointed back
/// at by its sparse slot.
pub proof fn lemma_sparse_dense_agree<T>(s: Model<T>)
    requires
        s.wf(),
        !s.is_unique_state(),
    ensures
        forall|i: int|
            0 <= i < s.dense.len() ==> (#[trigger] s.dense[i]).idx() < s.sparse.len()
                && s.sparse[s.dense[i].idx() as int] as int == i,
{
}

/// The zones of an update pack are well nested inside the dense region.
pub proof fn lemma_update_zones_wf<T>(s: Model<T>)
    requires
        s.wf(),
        s.pack is Update,
    ensures
        0 <= s.upd_inserted(),
        s.upd_inserted() <= s.upd_inserted() + s.upd_modified(),
        s.upd_inserted() + s.upd_modified() <= s.len(),
{
}

/// Membership is governed exactly by insertion and removal: inserting an
/// entity makes it and only it a member, removing an entity takes it and
/// only it out.
pub proof fn lemma_membership_round_trip<T>(s: Model<T>, value: T, e: EntityId)
    requires
        s.wf(),
        !s.is_unique_state(),
        e.idx() < usize::MAX,
        !s.contains_id(e) ==> s.dense.len() < usize::MAX,
    ensures
        s.spec_insert(value, e).contains_id(e),
        !s.spec_remove(e).contains_id(e),
        forall|x: EntityId|
            x.idx() != e.idx() ==> #[trigger] s.spec_insert(value, e).contains_id(x)
                == s.contains_id(x),
        forall|x: EntityId|
            x.idx() != e.idx() ==> #[trigger] s.spec_remove(e).contains_id(x) == s.contains_id(
                x,
            ),
{
    s.lemma_insert_props(value, e);
    s.lemma_remove_props(e);
}

/// Inserting a component and then looking the entity up yields that very
/// component, in every pack mode.
pub proof fn lemma_insert_get_round_trip<T>(s: Model<T>, value: T, e: EntityId)
    requires
        s.wf(),
        !s.is_unique_state(),
        e.idx() < usize::MAX,
        !s.contains_id(e) ==> s.dense.len() < usize::MAX,
    ensures
        s.spec_insert(value, e).spec_get(e) == Some(value),
{
    s.lemma_insert_props(value, e);
}

/// Removing an entity yields the component last inserted for it.
pub proof fn lemma_insert_remove_round_trip<T>(s: Model<T>, value: T, e: EntityId)
    requires
        s.wf(),
        !s.is_unique_state(),
        e.idx() < usize::MAX,
        !s.contains_id(e) ==> s.dense.len() < usize::MAX,
    ensures
        s.spec_insert(value, e).spec_remove_result(e) == Some(value),
{
    s.lemma_insert_props(value, e);
}

/// A mutable lookup on a stable-tail entry moves it into the modified zone,
/// which grows by exactly one; a second lookup on the same entity changes
/// nothing more.
pub proof fn lemma_touch_migration<T>(s: Model<T>, e: EntityId)
    requires
        s.wf(),
        s.contains_id(e),
        s.pack is Update,
        s.pos_of(e) >= s.upd_inserted() + s.upd_modified(),
    ensures
        s.touch(e).in_modified_zone(e),
        s.touch(e).upd_modified() == s.upd_modified() + 1,
        s.touch(e).touch(e) == s.touch(e),
{
    s.lemma_touch_props(e);
}

/// A mutable lookup on an entry already in the inserted or modified zone
/// leaves the state untouched.
pub proof fn lemma_touch_idempotent<T>(s: Model<T>, e: EntityId)
    requires
        s.wf(),
        s.contains_id(e),
    ensures
        s.touch(e).touch(e) == s.touch(e),
{
    s.lemma_touch_props(e);
    if s.pack is Update && s.pos_of(e) >= s.upd_inserted() + s.upd_modified() {
        let t = s.touch(e);
        assert(t.pos_of(e) < t.upd_inserted() + t.upd_modified());
    }
}

} // verus!
