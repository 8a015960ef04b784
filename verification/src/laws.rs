//! What holds of the pools whatever is done with them.
//!
//! Each law is stated over the models that the contracts of the managers and of the
//! store speak of, so that it holds of every state a manager or a store can be in.

use crate::presignature::PresignatureManagerModel;
use crate::store::PoolModel;
use crate::triple::TripleManagerModel;
use crate::types::PoolItem;
use crate::types::Presignature;
use crate::types::PresignatureId;
use crate::types::Triple;
use crate::types::TripleId;
use vstd::prelude::*;

verus! {

/// At most once: an id names a completed triple or a running generator, never both.
pub proof fn law_completed_or_generating(manager: TripleManagerModel, id: TripleId)
    requires
        manager.wf(),
    ensures
        manager.pool.contains(id) ==> !manager.generating.contains_key(id),
        manager.generating.contains_key(id) ==> !manager.pool.contains(id),
{
}

/// The potential triples are the completed ones and the generators, counted together;
/// and starting a generator adds one, while a generator that finishes adds none.
pub proof fn law_potential_len(manager: TripleManagerModel, id: TripleId, triple: Triple)
    requires
        manager.wf(),
    ensures
        manager.potential_len() == manager.pool.len() + manager.generating.len(),
        manager.is_free(id) ==> manager.start(id, true).potential_len() == manager.potential_len()
            + 1,
        manager.generating.contains_key(triple.id) ==> manager.complete(triple).potential_len()
            == manager.potential_len(),
{
    if manager.generating.contains_key(triple.id) {
        manager.lemma_complete_wf(triple);
    }
}

/// Epoch fencing and participant consistency: every running generator was started in the
/// manager's epoch, with the participants and the threshold of that epoch, for this node.
pub proof fn law_generators_of_this_epoch(manager: TripleManagerModel, id: TripleId)
    requires
        manager.wf(),
        manager.generating.contains_key(id),
    ensures
        manager.generating[id].setup.epoch == manager.epoch(),
        manager.generating[id].setup.participants == manager.participants,
        manager.generating[id].setup.threshold == manager.threshold,
        manager.generating[id].setup.me == manager.me,
{
}

/// The same of presignings.
pub proof fn law_presignings_of_this_epoch(manager: PresignatureManagerModel, id: PresignatureId)
    requires
        manager.wf(),
        manager.generating.contains_key(id),
    ensures
        manager.generating[id].generator.setup.epoch == manager.epoch(),
        manager.generating[id].generator.setup.participants == manager.participants,
        manager.generating[id].generator.setup.threshold == manager.threshold,
        manager.generating[id].generator.setup.me == manager.me,
{
}

/// At most once, of presignatures: an id names a completed presignature or a running
/// presigning, never both; and the potential presignatures are the two counted together.
pub proof fn law_presignature_completed_or_generating(
    manager: PresignatureManagerModel,
    id: PresignatureId,
)
    requires
        manager.wf(),
    ensures
        manager.pool.contains(id) ==> !manager.generating.contains_key(id),
        manager.generating.contains_key(id) ==> !manager.pool.contains(id),
        manager.potential_len() == manager.pool.len() + manager.generating.len(),
{
}

/// No reuse, of presignatures: a presignature that has been taken is in the pool no more,
/// and is no more among this node's own.
pub proof fn law_presignature_take_removes(manager: PresignatureManagerModel, id: PresignatureId)
    requires
        manager.wf(),
    ensures
        !manager.take(id).pool.contains(id),
        !manager.take(id).pool.contains_mine(id),
{
    manager.pool.lemma_remove_wf(id);
}

/// A presigning that finishes leaves the number of potential presignatures as it was.
pub proof fn law_presignature_complete(
    manager: PresignatureManagerModel,
    presignature: Presignature,
)
    requires
        manager.wf(),
        manager.generating.contains_key(presignature.id),
    ensures
        manager.complete(presignature).wf(),
        manager.complete(presignature).pool.contains(presignature.id),
        manager.complete(presignature).potential_len() == manager.potential_len(),
{
    manager.lemma_complete_wf(presignature);
}

/// No reuse: a triple that has been taken is in the pool no more, and is no more among
/// this node's own; and no other triple has left with it.
pub proof fn law_take_removes(manager: TripleManagerModel, id: TripleId, other: TripleId)
    requires
        manager.wf(),
        other != id,
    ensures
        !manager.take(id).pool.contains(id),
        !manager.take(id).pool.contains_mine(id),
        manager.take(id).pool.contains(other) == manager.pool.contains(other),
        manager.take(id).pool.contains_mine(other) == manager.pool.contains_mine(other),
        manager.take(id).pool.len() == if manager.pool.contains(id) {
            manager.pool.len() - 1
        } else {
            manager.pool.len() as int
        },
{
    manager.pool.lemma_remove_wf(id);
    crate::store::lemma_drop_id(manager.pool.mine, id);
}

/// All or nothing: where the pool holds a pair, taking it makes both triples leave the
/// pool, and leaves two fewer in it; where it does not, nothing changes.
pub proof fn law_take_two(manager: TripleManagerModel, id0: TripleId, id1: TripleId)
    requires
        manager.wf(),
    ensures
        manager.pool.holds_pair(id0, id1) ==> ({
            let after = manager.take_two(id0, id1);
            &&& !after.pool.contains(id0)
            &&& !after.pool.contains(id1)
            &&& !after.pool.contains_mine(id0)
            &&& !after.pool.contains_mine(id1)
            &&& after.pool.len() == manager.pool.len() - 2
        }),
        !manager.pool.holds_pair(id0, id1) ==> manager.take_two(id0, id1) == manager,
{
    if manager.pool.holds_pair(id0, id1) {
        manager.lemma_take_wf(id0);
        manager.pool.lemma_remove_wf(id0);
        manager.take(id0).pool.lemma_remove_wf(id1);
        crate::store::lemma_drop_id(manager.pool.mine, id0);
        crate::store::lemma_drop_id(manager.take(id0).pool.mine, id1);
    }
}

/// A triple of this node's own that is put into the pool under a free id is in the
/// pool, is among this node's own, and makes them one more.
pub proof fn law_insert_mine(manager: TripleManagerModel, triple: Triple)
    requires
        manager.wf(),
        manager.is_free(triple.id),
    ensures
        manager.insert(triple, true).pool.contains(triple.id),
        manager.insert(triple, true).pool.contains_mine(triple.id),
        manager.insert(triple, true).pool.len_mine() == manager.pool.len_mine() + 1,
        manager.insert(triple, true).pool.len() == manager.pool.len() + 1,
{
    crate::store::lemma_push_contains(manager.pool.mine, triple.id, triple.id);
}

/// The same of a store, for any kind of item.
pub proof fn law_store_insert_mine<T: PoolItem>(store: PoolModel<T>, item: T)
    requires
        store.wf(),
        !store.contains(item.spec_id()),
    ensures
        store.insert(item, true).contains(item.spec_id()),
        store.insert(item, true).contains_mine(item.spec_id()),
        store.insert(item, true).len_mine() == store.len_mine() + 1,
        store.insert(item, true).len() == store.len() + 1,
{
    crate::store::lemma_push_contains(store.mine, item.spec_id(), item.spec_id());
}

/// `insert` followed by `remove` of the same id leaves the id out of the store, and one
/// item fewer in it.
pub proof fn law_store_insert_remove<T: PoolItem>(store: PoolModel<T>, item: T, mine: bool)
    requires
        store.wf(),
    ensures
        !store.insert(item, mine).remove(item.spec_id()).contains(item.spec_id()),
        !store.insert(item, mine).remove(item.spec_id()).contains_mine(item.spec_id()),
        store.insert(item, mine).remove(item.spec_id()).len() == store.insert(item, mine).len() - 1,
{
    store.lemma_insert_wf(item, mine);
    store.insert(item, mine).lemma_remove_wf(item.spec_id());
}

/// Round trip: take a fresh store, insert any items into it one after the other, and
/// list what it then holds; a second fresh store that is given the listing holds the same
/// items, has the same items as this node's own, and so answers every question as the
/// first does.
pub proof fn law_round_trip<T: PoolItem>(
    epoch: u64,
    inserts: Seq<(T, bool)>,
    listing: Seq<(T, bool)>,
    id: u64,
)
    requires
        PoolModel::restore(epoch, inserts).lists(listing),
    ensures
        PoolModel::restore(epoch, listing) == PoolModel::restore(epoch, inserts),
        PoolModel::restore(epoch, listing).contains(id) == PoolModel::restore(
            epoch,
            inserts,
        ).contains(id),
        PoolModel::restore(epoch, listing).contains_mine(id) == PoolModel::restore(
            epoch,
            inserts,
        ).contains_mine(id),
        PoolModel::restore(epoch, listing).len() == PoolModel::restore(epoch, inserts).len(),
        PoolModel::restore(epoch, listing).len_mine() == PoolModel::restore(
            epoch,
            inserts,
        ).len_mine(),
{
    PoolModel::lemma_restore_wf(epoch, inserts);
    PoolModel::restore(epoch, inserts).lemma_round_trip(listing);
}

} // verus!
