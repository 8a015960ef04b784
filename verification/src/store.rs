//! The keyed store behind a pool.
//!
//! A store belongs to one epoch.  It holds completed items by id, and beside them a queue
//! of the ids that this node initiated, oldest first.  Whatever is in the queue is in the
//! store, so an item that leaves the store leaves the queue with it.

use crate::types::PoolItem;
use std::collections::HashMap;
use std::collections::VecDeque;
use vstd::prelude::*;
use vstd::std_specs::iter::IteratorSpec;

verus! {

broadcast use vstd::std_specs::hash::group_hash_axioms;

/// `queue` without `id`, the order of the others kept.
pub open spec fn drop_id(queue: Seq<u64>, id: u64) -> Seq<u64> {
    if queue.contains(id) {
        queue.remove(queue.index_of(id))
    } else {
        queue
    }
}

/// What dropping an id does to a queue that names nothing twice.
pub proof fn lemma_drop_id(queue: Seq<u64>, id: u64)
    requires
        queue.no_duplicates(),
    ensures
        drop_id(queue, id).no_duplicates(),
        !drop_id(queue, id).contains(id),
        forall|other: u64|
            other != id ==> (#[trigger] drop_id(queue, id).contains(other) <==> queue.contains(
                other,
            )),
        drop_id(queue, id).len() == if queue.contains(id) {
            queue.len() - 1
        } else {
            queue.len() as int
        },
{
    if queue.contains(id) {
        let at = queue.index_of(id);
        let rest = queue.remove(at);
        assert forall|i: int, j: int| 0 <= i < j < rest.len() implies rest[i] != rest[j] by {
            let oi = if i < at { i } else { i + 1 };
            let oj = if j < at { j } else { j + 1 };
            assert(rest[i] == queue[oi] && rest[j] == queue[oj]);
        }
        assert forall|k: int| 0 <= k < rest.len() implies rest[k] != id by {
            let ok = if k < at { k } else { k + 1 };
            assert(rest[k] == queue[ok]);
        }
        assert forall|other: u64| other != id implies (rest.contains(other) <==> queue.contains(
            other,
        )) by {
            if queue.contains(other) {
                let o = queue.index_of(other);
                let k = if o < at { o } else { o - 1 };
                assert(rest[k] == other);
            }
            if rest.contains(other) {
                let k = rest.index_of(other);
                let ok = if k < at { k } else { k + 1 };
                assert(queue[ok] == other);
            }
        }
    }
}

/// Dropping the id at the head of a queue leaves its tail.
pub proof fn lemma_drop_head(queue: Seq<u64>)
    requires
        queue.no_duplicates(),
        queue.len() > 0,
    ensures
        drop_id(queue, queue[0]) == queue.subrange(1, queue.len() as int),
{
    assert(queue.contains(queue[0]));
    assert(queue.index_of(queue[0]) == 0);
    assert(queue.remove(0) =~= queue.subrange(1, queue.len() as int));
}

/// What a queue holds after one more id has joined it.
pub proof fn lemma_push_contains(queue: Seq<u64>, pushed: u64, id: u64)
    ensures
        queue.push(pushed).contains(id) <==> queue.contains(id) || id == pushed,
{
    let longer = queue.push(pushed);
    if queue.contains(id) {
        let at = queue.index_of(id);
        assert(longer[at] == id);
    }
    if id == pushed {
        assert(longer[queue.len() as int] == id);
    }
    if longer.contains(id) {
        let at = longer.index_of(id);
        if at < queue.len() {
            assert(queue[at] == id);
        }
    }
}

/// One if `holds`, and zero if not.
pub open spec fn one_if(holds: bool) -> int {
    if holds {
        1
    } else {
        0
    }
}

/// What a store holds, as a mathematical value.
#[verifier::ext_equal]
pub struct PoolModel<T> {
    /// The epoch that every item in the store was made in.
    pub epoch: u64,
    /// The completed items, by id.
    pub items: Map<u64, T>,
    /// The ids that this node initiated, oldest first.
    pub mine: Seq<u64>,
}

impl<T: PoolItem> PoolModel<T> {
    /// The store is keyed by the items' own ids, and its queue names only what it holds,
    /// and nothing twice.
    pub open spec fn wf(self) -> bool {
        &&& self.items.dom().finite()
        &&& self.mine.no_duplicates()
        &&& forall|i: int|
            0 <= i < self.mine.len() ==> self.items.contains_key(#[trigger] self.mine[i])
        &&& forall|id: u64| #[trigger] self.items.contains_key(id) ==> self.items[id].spec_id() == id
    }

    pub open spec fn empty(epoch: u64) -> Self {
        PoolModel { epoch, items: Map::empty(), mine: Seq::empty() }
    }

    pub open spec fn contains(self, id: u64) -> bool {
        self.items.contains_key(id)
    }

    pub open spec fn contains_mine(self, id: u64) -> bool {
        self.mine.contains(id)
    }

    pub open spec fn len(self) -> nat {
        self.items.len()
    }

    pub open spec fn len_mine(self) -> nat {
        self.mine.len()
    }

    /// The store after `insert`: an item whose id is taken changes nothing, the one that
    /// is there stays.
    pub open spec fn insert(self, item: T, mine: bool) -> Self {
        if self.contains(item.spec_id()) {
            self
        } else {
            PoolModel {
                epoch: self.epoch,
                items: self.items.insert(item.spec_id(), item),
                mine: if mine {
                    self.mine.push(item.spec_id())
                } else {
                    self.mine
                },
            }
        }
    }

    /// The store after `remove`.
    pub open spec fn remove(self, id: u64) -> Self {
        PoolModel {
            epoch: self.epoch,
            items: self.items.remove(id),
            mine: drop_id(self.mine, id),
        }
    }

    /// Whether the store holds what `before` held, but for the item `id`: every other id is
    /// in the store, and among this node's own, exactly if it was.
    pub open spec fn same_but(self, before: Self, id: u64) -> bool {
        &&& forall|other: u64|
            other != id ==> (#[trigger] self.contains(other)) == before.contains(other)
        &&& forall|other: u64|
            other != id ==> (#[trigger] self.contains_mine(other)) == before.contains_mine(other)
    }

    /// Whether `remove_two` finds its pair: two different ids, both in the store.
    pub open spec fn holds_pair(self, id0: u64, id1: u64) -> bool {
        id0 != id1 && self.contains(id0) && self.contains(id1)
    }

    /// The store after `purge_epoch`: every item is tagged with the store's epoch, so
    /// purging that epoch empties the store and purging another changes nothing.
    pub open spec fn purge_epoch(self, epoch: u64) -> Self {
        if epoch == self.epoch {
            Self::empty(self.epoch)
        } else {
            self
        }
    }

    /// `entries` lists the store: every item once, beside it whether this node initiated
    /// it, the node's own items first and in the order of the queue.
    pub open spec fn lists(self, entries: Seq<(T, bool)>) -> bool {
        &&& forall|i: int|
            0 <= i < entries.len() ==> self.items.contains_key(
                (#[trigger] entries[i]).0.spec_id(),
            ) && self.items[entries[i].0.spec_id()] == entries[i].0
        &&& forall|i: int, j: int|
            0 <= i < j < entries.len() ==> (#[trigger] entries[i]).0.spec_id() != (
            #[trigger] entries[j]).0.spec_id()
        &&& forall|id: u64|
            self.items.contains_key(id) ==> exists|i: int|
                0 <= i < entries.len() && (#[trigger] entries[i]).0.spec_id() == id
        &&& self.mine.len() <= entries.len()
        &&& forall|i: int|
            0 <= i < entries.len() ==> ((#[trigger] entries[i]).1 <==> i < self.mine.len())
        &&& forall|i: int|
            0 <= i < self.mine.len() ==> (#[trigger] entries[i]).0.spec_id() == self.mine[i]
    }

    /// A fresh store of `epoch` after the entries have been inserted one by one.
    pub open spec fn restore(epoch: u64, entries: Seq<(T, bool)>) -> Self
        decreases entries.len(),
    {
        if entries.len() == 0 {
            Self::empty(epoch)
        } else {
            Self::restore(epoch, entries.drop_last()).insert(entries.last().0, entries.last().1)
        }
    }

    /// Whether `entries` holds an item of the id `id`.
    pub open spec fn listed(entries: Seq<(T, bool)>, id: u64) -> bool {
        exists|i: int| 0 <= i < entries.len() && (#[trigger] entries[i]).0.spec_id() == id
    }

    /// What a fresh store holds after the first `k` of the entries that list `self` have
    /// been inserted: the items that were inserted, and the head of the queue.
    pub proof fn lemma_restore_prefix(self, entries: Seq<(T, bool)>, k: int)
        requires
            self.wf(),
            self.lists(entries),
            0 <= k <= entries.len(),
        ensures
            Self::restore(self.epoch, entries.take(k)).epoch == self.epoch,
            forall|id: u64|
                #[trigger] Self::restore(self.epoch, entries.take(k)).items.contains_key(id)
                    <==> Self::listed(entries.take(k), id),
            forall|id: u64|
                #[trigger] Self::restore(self.epoch, entries.take(k)).items.contains_key(id)
                    ==> Self::restore(self.epoch, entries.take(k)).items[id] == self.items[id],
            Self::restore(self.epoch, entries.take(k)).mine == self.mine.take(
                if k <= self.mine.len() {
                    k
                } else {
                    self.mine.len() as int
                },
            ),
        decreases k,
    {
        let part = entries.take(k);
        let built = Self::restore(self.epoch, part);
        if k == 0 {
            assert(built.mine =~= self.mine.take(0));
            assert forall|id: u64| !Self::listed(part, id) by {}
        } else {
            let shorter = entries.take(k - 1);
            let before = Self::restore(self.epoch, shorter);
            let entry = entries[k - 1];
            let id = entry.0.spec_id();
            self.lemma_restore_prefix(entries, k - 1);
            assert(part.drop_last() =~= shorter);
            assert(part.last() == entry);
            assert(built == before.insert(entry.0, entry.1));
            assert(!Self::listed(shorter, id)) by {
                if Self::listed(shorter, id) {
                    let i = choose|i: int|
                        0 <= i < shorter.len() && (#[trigger] shorter[i]).0.spec_id() == id;
                    assert(entries[i].0.spec_id() == entries[k - 1].0.spec_id());
                }
            }
            assert(!before.contains(id));
            assert forall|other: u64| #[trigger]
                built.items.contains_key(other) <==> Self::listed(part, other) by {
                if Self::listed(part, other) {
                    let i = choose|i: int|
                        0 <= i < part.len() && (#[trigger] part[i]).0.spec_id() == other;
                    if i < k - 1 {
                        assert(shorter[i].0.spec_id() == other);
                        assert(Self::listed(shorter, other));
                    }
                }
                if built.items.contains_key(other) {
                    if other == id {
                        assert(part[k - 1].0.spec_id() == other);
                    } else {
                        assert(Self::listed(shorter, other));
                        let i = choose|i: int|
                            0 <= i < shorter.len() && (#[trigger] shorter[i]).0.spec_id() == other;
                        assert(part[i].0.spec_id() == other);
                    }
                }
            }
            assert(self.items[id] == entry.0);
            if entry.1 {
                assert(k - 1 < self.mine.len());
                assert(self.mine[k - 1] == id);
                assert(built.mine =~= self.mine.take(k));
            } else {
                assert(k - 1 >= self.mine.len());
            }
        }
    }

    /// A store comes back from its listing: whatever lists a store, a fresh store of the
    /// same epoch that is given the listed items one by one ends up as the store that was
    /// listed.
    pub proof fn lemma_round_trip(self, entries: Seq<(T, bool)>)
        requires
            self.wf(),
            self.lists(entries),
        ensures
            Self::restore(self.epoch, entries) == self,
    {
        let built = Self::restore(self.epoch, entries);
        self.lemma_restore_prefix(entries, entries.len() as int);
        assert(entries.take(entries.len() as int) =~= entries);
        assert(built.mine =~= self.mine) by {
            assert(self.mine.take(self.mine.len() as int) =~= self.mine);
        }
        assert forall|id: u64| built.items.contains_key(id) <==> self.items.contains_key(id) by {
            if built.items.contains_key(id) {
                assert(Self::listed(entries, id));
                let i = choose|i: int|
                    0 <= i < entries.len() && (#[trigger] entries[i]).0.spec_id() == id;
                assert(self.items.contains_key(entries[i].0.spec_id()));
            }
            if self.items.contains_key(id) {
                assert(Self::listed(entries, id));
            }
        }
        assert(built.items =~= self.items);
    }

    /// A fresh store after a sequence of inserts is well formed.
    pub proof fn lemma_restore_wf(epoch: u64, entries: Seq<(T, bool)>)
        ensures
            Self::restore(epoch, entries).wf(),
            Self::restore(epoch, entries).epoch == epoch,
        decreases entries.len(),
    {
        if entries.len() > 0 {
            Self::lemma_restore_wf(epoch, entries.drop_last());
            Self::restore(epoch, entries.drop_last()).lemma_insert_wf(
                entries.last().0,
                entries.last().1,
            );
        }
    }

    /// `insert` keeps a store well formed.
    pub proof fn lemma_insert_wf(self, item: T, mine: bool)
        requires
            self.wf(),
        ensures
            self.insert(item, mine).wf(),
    {
        let id = item.spec_id();
        let after = self.insert(item, mine);
        if !self.contains(id) {
            if self.mine.contains(id) {
                let at = self.mine.index_of(id);
                assert(self.items.contains_key(self.mine[at]));
            }
            assert forall|i: int| 0 <= i < after.mine.len() implies after.items.contains_key(
                #[trigger] after.mine[i],
            ) by {
                if i < self.mine.len() {
                    assert(self.items.contains_key(self.mine[i]));
                }
            }
        }
    }

    /// `remove` keeps a store well formed.
    pub proof fn lemma_remove_wf(self, id: u64)
        requires
            self.wf(),
        ensures
            self.remove(id).wf(),
            !self.remove(id).contains(id),
            !self.remove(id).contains_mine(id),
    {
        lemma_drop_id(self.mine, id);
        let after = self.remove(id);
        assert forall|i: int| 0 <= i < after.mine.len() implies after.items.contains_key(
            #[trigger] after.mine[i],
        ) by {
            let other = after.mine[i];
            assert(after.mine.contains(other));
            assert(self.mine.contains(other));
            let at = self.mine.index_of(other);
            assert(self.items.contains_key(self.mine[at]));
        }
    }
}

/// A pool's completed items, with the queue of those that this node initiated.
pub struct PoolStore<T> {
    epoch: u64,
    items: HashMap<u64, T>,
    mine: VecDeque<u64>,
}

impl<T: PoolItem> View for PoolStore<T> {
    type V = PoolModel<T>;

    closed spec fn view(&self) -> PoolModel<T> {
        PoolModel { epoch: self.epoch, items: self.items@, mine: self.mine@ }
    }
}

impl<T: PoolItem> PoolStore<T> {
    /// The invariant of every store: see [`PoolModel::wf`].
    pub open spec fn wf(&self) -> bool {
        self@.wf()
    }

    /// An empty store for `epoch`.
    pub fn new(epoch: u64) -> (store: Self)
        ensures
            store.wf(),
            store@ == PoolModel::<T>::empty(epoch),
    {
        PoolStore { epoch, items: HashMap::new(), mine: VecDeque::new() }
    }

    /// The epoch of the store's items.
    pub fn epoch(&self) -> (epoch: u64)
        ensures
            epoch == self@.epoch,
    {
        self.epoch
    }

    /// How many items the store holds.
    pub fn len(&self) -> (len: usize)
        ensures
            len == self@.len(),
    {
        self.items.len()
    }

    /// How many of the items this node initiated.
    pub fn len_mine(&self) -> (len: usize)
        ensures
            len == self@.len_mine(),
    {
        self.mine.len()
    }

    /// Whether the store holds nothing.
    pub fn is_empty(&self) -> (empty: bool)
        requires
            self.wf(),
        ensures
            empty == (self@.len() == 0),
            empty ==> self@.len_mine() == 0,
    {
        proof {
            if self@.len() == 0 && self@.mine.len() > 0 {
                assert(self@.items.contains_key(self@.mine[0]));
                assert(self@.items.dom() =~= Set::empty());
            }
        }
        self.items.len() == 0
    }

    /// Whether the store holds the item `id`.
    pub fn contains(&self, id: u64) -> (found: bool)
        ensures
            found == self@.contains(id),
    {
        self.items.contains_key(&id)
    }

    /// Where `id` stands in the queue of this node's own items, if it is there.
    fn position_mine(&self, id: u64) -> (at: Option<usize>)
        ensures
            match at {
                Some(i) => i < self@.mine.len() && self@.mine[i as int] == id,
                None => !self@.mine.contains(id),
            },
    {
        let mut i: usize = 0;
        while i < self.mine.len()
            invariant
                i <= self.mine@.len(),
                forall|j: int| 0 <= j < i ==> self.mine@[j] != id,
            decreases self.mine@.len() - i,
        {
            if self.mine[i] == id {
                return Some(i);
            }
            i += 1;
        }
        None
    }

    /// Whether the store holds the item `id` and this node initiated it.
    pub fn contains_mine(&self, id: u64) -> (found: bool)
        ensures
            found == self@.contains_mine(id),
    {
        self.position_mine(id).is_some()
    }

    /// The item `id`, if the store holds it.
    pub fn get(&self, id: u64) -> (item: Option<&T>)
        ensures
            match item {
                Some(found) => self@.contains(id) && *found == self@.items[id],
                None => !self@.contains(id),
            },
    {
        self.items.get(&id)
    }

    /// The ids of this node's own items, oldest first.
    pub fn iter_mine_ids(&self) -> (ids: Vec<u64>)
        ensures
            ids@ == self@.mine,
    {
        let mut ids: Vec<u64> = Vec::new();
        let mut i: usize = 0;
        while i < self.mine.len()
            invariant
                i <= self.mine@.len(),
                ids@ == self.mine@.take(i as int),
            decreases self.mine@.len() - i,
        {
            ids.push(self.mine[i]);
            proof {
                assert(self.mine@.take(i as int + 1) =~= self.mine@.take(i as int).push(
                    self.mine@[i as int],
                ));
            }
            i += 1;
        }
        proof {
            assert(self.mine@.take(self.mine@.len() as int) =~= self.mine@);
        }
        ids
    }

    /// The ids of all items, each once, in no particular order.
    pub fn ids(&self) -> (ids: Vec<u64>)
        ensures
            ids@.no_duplicates(),
            forall|id: u64| ids@.contains(id) <==> self@.contains(id),
    {
        collect_keys(&self.items)
    }

    /// Puts `item` into the store, and into the queue of this node's own items if `mine`.
    /// Where the store already holds an item of that id, nothing changes.
    pub fn insert(&mut self, item: T, mine: bool) -> (inserted: bool)
        requires
            old(self).wf(),
        ensures
            final(self).wf(),
            final(self)@ == old(self)@.insert(item, mine),
            inserted == !old(self)@.contains(item.spec_id()),
            final(self)@.contains(item.spec_id()),
            inserted ==> final(self)@.len() == old(self)@.len() + 1,
            inserted && mine ==> final(self)@.contains_mine(item.spec_id()),
            inserted && mine ==> final(self)@.len_mine() == old(self)@.len_mine() + 1,
            final(self)@.same_but(old(self)@, item.spec_id()),
    {
        proof {
            self@.lemma_insert_wf(item, mine);
            lemma_push_contains(self@.mine, item.spec_id(), item.spec_id());
            assert forall|other: u64| other != item.spec_id() implies (#[trigger] self@.insert(
                item,
                mine,
            ).contains_mine(other)) == self@.contains_mine(other) by {
                lemma_push_contains(self@.mine, item.spec_id(), other);
            }
        }
        let id = item.id();
        if self.items.contains_key(&id) {
            false
        } else {
            self.items.insert(id, item);
            if mine {
                self.mine.push_back(id);
            }
            true
        }
    }

    /// Takes `id` out of the queue of this node's own items, if it is there.
    fn unqueue(&mut self, id: u64)
        requires
            old(self).mine@.no_duplicates(),
        ensures
            final(self).mine@ == drop_id(old(self).mine@, id),
            final(self).items == old(self).items,
            final(self).epoch == old(self).epoch,
    {
        match self.position_mine(id) {
            Some(at) => {
                proof {
                    assert(self.mine@.contains(id));
                    assert(self.mine@.index_of(id) == at);
                }
                self.mine.remove(at);
            },
            None => {},
        }
    }

    /// Takes the item `id` out of the store, and out of the queue of this node's own items.
    pub fn remove(&mut self, id: u64) -> (item: Option<T>)
        requires
            old(self).wf(),
        ensures
            final(self).wf(),
            final(self)@ == old(self)@.remove(id),
            item == old(self)@.items.get(id),
            !final(self)@.contains(id),
            !final(self)@.contains_mine(id),
            final(self)@.len() == old(self)@.len() - one_if(old(self)@.contains(id)),
            final(self)@.len_mine() == old(self)@.len_mine() - one_if(old(self)@.contains_mine(id)),
            final(self)@.same_but(old(self)@, id),
    {
        proof {
            self@.lemma_remove_wf(id);
            lemma_drop_id(self@.mine, id);
        }
        let item = self.items.remove(&id);
        self.unqueue(id);
        item
    }

    /// Takes the items `id0` and `id1` out of the store, both or neither.
    pub fn remove_two(&mut self, id0: u64, id1: u64) -> (pair: Option<(T, T)>)
        requires
            old(self).wf(),
        ensures
            final(self).wf(),
            old(self)@.holds_pair(id0, id1) ==> ({
                &&& final(self)@ == old(self)@.remove(id0).remove(id1)
                &&& pair == Some((old(self)@.items[id0], old(self)@.items[id1]))
            }),
            !old(self)@.holds_pair(id0, id1) ==> final(self)@ == old(self)@ && pair is None,
            pair is Some ==> !final(self)@.contains(id0) && !final(self)@.contains(id1),
            pair is Some ==> final(self)@.len() == old(self)@.len() - 2,
            pair is Some ==> final(self)@.len_mine() == old(self)@.len_mine() - one_if(
                old(self)@.contains_mine(id0),
            ) - one_if(old(self)@.contains_mine(id1)),
    {
        proof {
            lemma_drop_id(self@.mine, id0);
        }
        if id0 == id1 || !self.items.contains_key(&id0) || !self.items.contains_key(&id1) {
            return None;
        }
        let first = self.remove(id0);
        let second = self.remove(id1);
        match (first, second) {
            (Some(a), Some(b)) => Some((a, b)),
            _ => None,
        }
    }

    /// Takes the oldest of this node's own items out of the store.
    pub fn pop_mine(&mut self) -> (item: Option<T>)
        requires
            old(self).wf(),
        ensures
            final(self).wf(),
            old(self)@.len_mine() == 0 ==> final(self)@ == old(self)@ && item is None,
            old(self)@.len_mine() > 0 ==> ({
                &&& final(self)@ == old(self)@.remove(old(self)@.mine[0])
                &&& item == Some(old(self)@.items[old(self)@.mine[0]])
                &&& final(self)@.len() == old(self)@.len() - 1
                &&& final(self)@.len_mine() == old(self)@.len_mine() - 1
            }),
    {
        if self.mine.len() == 0 {
            return None;
        }
        let id = self.mine[0];
        assert(self@.items.contains_key(self@.mine[0]));
        self.remove(id)
    }

    /// Takes the two oldest of this node's own items out of the store, both or neither.
    pub fn pop_two_mine(&mut self) -> (pair: Option<(T, T)>)
        requires
            old(self).wf(),
        ensures
            final(self).wf(),
            old(self)@.len_mine() < 2 ==> final(self)@ == old(self)@ && pair is None,
            old(self)@.len_mine() >= 2 ==> ({
                let (id0, id1) = (old(self)@.mine[0], old(self)@.mine[1]);
                &&& final(self)@ == old(self)@.remove(id0).remove(id1)
                &&& pair == Some((old(self)@.items[id0], old(self)@.items[id1]))
                &&& final(self)@.len() == old(self)@.len() - 2
                &&& final(self)@.len_mine() == old(self)@.len_mine() - 2
            }),
    {
        if self.mine.len() < 2 {
            return None;
        }
        let id0 = self.mine[0];
        let id1 = self.mine[1];
        assert(self@.items.contains_key(self@.mine[0]));
        assert(self@.items.contains_key(self@.mine[1]));
        assert(self@.mine.contains(self@.mine[0]) && self@.mine.contains(self@.mine[1]));
        self.remove_two(id0, id1)
    }

    /// Takes the store apart into a listing of what it held: every item once, beside it
    /// whether this node initiated it, the node's own items first and in the order of the
    /// queue.  A fresh store that is given the listing item by item holds what this one
    /// held.
    pub fn into_entries(self) -> (entries: Vec<(T, bool)>)
        requires
            self.wf(),
        ensures
            self@.lists(entries@),
    {
        let ghost start = self@;
        let mut store = self;
        let mut entries: Vec<(T, bool)> = Vec::new();
        while store.mine.len() > 0
            invariant
                start.wf(),
                store.wf(),
                entries@.len() <= start.mine.len(),
                store@.mine == start.mine.subrange(entries@.len() as int, start.mine.len() as int),
                forall|i: int|
                    0 <= i < entries@.len() ==> (#[trigger] entries@[i]).1 && entries@[i].0.spec_id()
                        == start.mine[i] && start.items[start.mine[i]] == entries@[i].0,
                forall|id: u64|
                    #[trigger] store@.items.contains_key(id) <==> start.items.contains_key(id)
                        && !PoolModel::<T>::listed(entries@, id),
                forall|id: u64|
                    #[trigger] store@.items.contains_key(id) ==> store@.items[id] == start.items[id],
            decreases store@.mine.len(),
        {
            let ghost held = store@;
            let ghost done = entries@;
            let ghost k = entries@.len() as int;
            proof {
                lemma_drop_head(held.mine);
                assert(held.mine[0] == start.mine[k]);
                assert(held.items.contains_key(held.mine[0]));
            }
            match store.pop_mine() {
                Some(item) => {
                    entries.push((item, true));
                    proof {
                        let id = start.mine[k];
                        assert(store@.mine =~= start.mine.subrange(k + 1, start.mine.len() as int));
                        assert forall|other: u64| #[trigger]
                            store@.items.contains_key(other) <==> start.items.contains_key(other)
                                && !PoolModel::<T>::listed(entries@, other) by {
                            if PoolModel::<T>::listed(entries@, other) {
                                let i = choose|i: int|
                                    0 <= i < entries@.len() && (#[trigger] entries@[i]).0.spec_id()
                                        == other;
                                if i < k {
                                    assert(done[i].0.spec_id() == other);
                                    assert(PoolModel::<T>::listed(done, other));
                                }
                            }
                            if PoolModel::<T>::listed(done, other) {
                                let i = choose|i: int|
                                    0 <= i < done.len() && (#[trigger] done[i]).0.spec_id()
                                        == other;
                                assert(entries@[i].0.spec_id() == other);
                            }
                            if other == id {
                                assert(entries@[k].0.spec_id() == other);
                            }
                        }
                    }
                },
                None => {},
            }
        }
        let ghost own = entries@.len() as int;
        let ids = store.ids();
        let mut i: usize = 0;
        proof {
            assert(own == start.mine.len());
            assert forall|j: int| 0 <= j < ids@.len() implies store@.items.contains_key(
                #[trigger] ids@[j],
            ) by {
                assert(ids@.contains(ids@[j]));
            }
            assert forall|a: int, j: int| 0 <= a < own && 0 <= j < ids@.len() implies (
            #[trigger] start.mine[a]) != (#[trigger] ids@[j]) by {
                if start.mine[a] == ids@[j] {
                    assert(entries@[a].0.spec_id() == ids@[j]);
                    assert(PoolModel::<T>::listed(entries@, ids@[j]));
                }
            }
            assert forall|id: u64| #[trigger] store@.items.contains_key(id) implies exists|j: int|
                0 <= j < ids@.len() && ids@[j] == id by {
                assert(ids@.contains(id));
                let j = ids@.index_of(id);
                assert(ids@[j] == id);
            }
        }
        while i < ids.len()
            invariant
                i <= ids@.len(),
                start.wf(),
                store.wf(),
                ids@.no_duplicates(),
                own == start.mine.len(),
                entries@.len() == own + i,
                forall|a: int, j: int|
                    0 <= a < own && 0 <= j < ids@.len() ==> (#[trigger] start.mine[a]) != (
                    #[trigger] ids@[j]),
                store@.mine.len() == 0,
                forall|j: int| i <= j < ids@.len() ==> store@.items.contains_key(#[trigger] ids@[j]),
                forall|id: u64|
                    #[trigger] store@.items.contains_key(id) ==> exists|j: int|
                        i <= j < ids@.len() && ids@[j] == id,
                forall|j: int|
                    0 <= j < own ==> (#[trigger] entries@[j]).1 && entries@[j].0.spec_id()
                        == start.mine[j] && start.items[start.mine[j]] == entries@[j].0,
                forall|j: int|
                    own <= j < entries@.len() ==> !(#[trigger] entries@[j]).1
                        && start.items.contains_key(entries@[j].0.spec_id())
                        && start.items[entries@[j].0.spec_id()] == entries@[j].0
                        && entries@[j].0.spec_id() == ids@[j - own],
                forall|id: u64|
                    #[trigger] store@.items.contains_key(id) <==> start.items.contains_key(id)
                        && !PoolModel::<T>::listed(entries@, id),
                forall|id: u64|
                    #[trigger] store@.items.contains_key(id) ==> store@.items[id] == start.items[id],
            decreases ids@.len() - i,
        {
            let id = ids[i];
            let ghost held = store@;
            let ghost done = entries@;
            proof {
                assert(held.items.contains_key(ids@[i as int]));
                assert(drop_id(held.mine, id) =~= held.mine);
            }
            match store.remove(id) {
                Some(item) => {
                    entries.push((item, false));
                    proof {
                        assert forall|other: u64| #[trigger]
                            store@.items.contains_key(other) <==> start.items.contains_key(other)
                                && !PoolModel::<T>::listed(entries@, other) by {
                            if PoolModel::<T>::listed(entries@, other) {
                                let j = choose|j: int|
                                    0 <= j < entries@.len() && (#[trigger] entries@[j]).0.spec_id()
                                        == other;
                                if j < done.len() {
                                    assert(done[j].0.spec_id() == other);
                                    assert(PoolModel::<T>::listed(done, other));
                                }
                            }
                            if PoolModel::<T>::listed(done, other) {
                                let j = choose|j: int|
                                    0 <= j < done.len() && (#[trigger] done[j]).0.spec_id()
                                        == other;
                                assert(entries@[j].0.spec_id() == other);
                            }
                            if other == id {
                                assert(entries@[done.len() as int].0.spec_id() == other);
                            }
                        }
                        assert forall|other: u64| #[trigger]
                            store@.items.contains_key(other) implies exists|j: int|
                            i + 1 <= j < ids@.len() && ids@[j] == other by {
                            assert(held.items.contains_key(other));
                            let j = choose|j: int| i <= j < ids@.len() && ids@[j] == other;
                            assert(j != i);
                        }
                        assert forall|j: int| i + 1 <= j < ids@.len() implies store@.items.contains_key(
                            #[trigger] ids@[j],
                        ) by {
                            assert(held.items.contains_key(ids@[j]));
                        }
                    }
                },
                None => {},
            }
            i += 1;
        }
        proof {
            assert forall|id: u64| !store@.items.contains_key(id) by {
                if store@.items.contains_key(id) {
                    let j = choose|j: int| i <= j < ids@.len() && ids@[j] == id;
                }
            }
            assert forall|a: int, b: int| 0 <= a < b < entries@.len() implies (
            #[trigger] entries@[a]).0.spec_id() != (#[trigger] entries@[b]).0.spec_id() by {
                if b < own {
                    assert(start.mine[a] != start.mine[b]);
                } else if a >= own {
                    assert(ids@[a - own] != ids@[b - own]);
                } else {
                    assert(start.mine[a] != ids@[b - own]);
                }
            }
            assert forall|id: u64| start.items.contains_key(id) implies PoolModel::<T>::listed(
                entries@,
                id,
            ) by {
                assert(!store@.items.contains_key(id));
            }
            assert forall|j: int| 0 <= j < entries@.len() implies start.items.contains_key(
                (#[trigger] entries@[j]).0.spec_id(),
            ) && start.items[entries@[j].0.spec_id()] == entries@[j].0 by {
                if j < own {
                    assert(start.items.contains_key(start.mine[j]));
                }
            }
        }
        entries
    }

    /// Removes every item tagged with `epoch`.
    pub fn purge_epoch(&mut self, epoch: u64)
        requires
            old(self).wf(),
        ensures
            final(self).wf(),
            final(self)@ == old(self)@.purge_epoch(epoch),
    {
        if epoch == self.epoch {
            self.items.clear();
            self.mine.clear();
        }
    }

    /// Moves the store to `epoch`.  What it held belongs to the epoch it leaves, and is
    /// evicted.
    pub fn advance_epoch(&mut self, epoch: u64)
        requires
            old(self).wf(),
        ensures
            final(self).wf(),
            final(self)@ == PoolModel::<T>::empty(epoch),
    {
        self.items.clear();
        self.mine.clear();
        self.epoch = epoch;
    }
}

/// The keys of `map`, each once, in no particular order.
pub fn collect_keys<V>(map: &HashMap<u64, V>) -> (keys: Vec<u64>)
    ensures
        keys@.no_duplicates(),
        forall|key: u64| keys@.contains(key) <==> map@.contains_key(key),
{
    let mut keys: Vec<u64> = Vec::new();
    let ghost all = vstd::std_specs::hash::spec_keys_iter(map).remaining();
    for key in it: map.keys()
        invariant
            it.seq() == all,
            keys@ == all.take(it.index() as int).unref(),
    {
        proof {
            assert(all.take(it.index() as int + 1).unref() =~= all.take(it.index() as int).unref().push(
                *key,
            ));
        }
        keys.push(*key);
    }
    proof {
        assert(all.take(all.len() as int) =~= all);
        assert forall|i: int, j: int| 0 <= i < j < keys@.len() implies keys@[i] != keys@[j] by {
            assert(all[i] != all[j]);
        }
        assert forall|key: u64| keys@.contains(key) <==> map@.contains_key(key) by {
            assert(all.unref().to_set().contains(key) <==> map@.dom().contains(key));
        }
    }
    keys
}

} // verus!
