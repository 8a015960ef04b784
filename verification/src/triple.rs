//! The triple manager: completed triples, and the generators that are making more.

use crate::errors::failed_ids;
use crate::errors::GenerateError;
use crate::errors::ProtocolFailure;
use crate::errors::TriplePokeError;
use crate::generator::infos;
use crate::generator::GeneratorInfo;
use crate::generator::failures_of;
use crate::generator::goes_on;
use crate::generator::is_turn;
use crate::generator::kept_but;
use crate::generator::lemma_failures_append;
use crate::generator::progress_of;
use crate::generator::round_steps;
use crate::generator::turn_steps;
use crate::generator::Turn;
use crate::generator::triple_protocols;
use crate::generator::Progress;
use crate::generator::Setup;
use crate::generator::TripleGenerator;
use crate::generator::ACTION_BUDGET;
use crate::outbox::fan_out;
use crate::outbox::lemma_others_push;
use crate::outbox::others;
use crate::outbox::outbox;
use crate::protocol::copy_bytes;
use crate::protocol::random_id;
use crate::protocol::valid_parameters;
use crate::protocol::Action;
use crate::protocol::TripleProtocol;
use crate::store::collect_keys;
use crate::store::lemma_push_contains;
use crate::store::one_if;
use crate::store::PoolModel;
use crate::store::PoolStore;
use crate::types::Participant;
use crate::types::Triple;
use crate::types::TripleId;
use crate::types::TripleMessage;
use crate::types::TripleMessageView;
use crate::types::TriplePub;
use crate::types::TripleShare;
use std::collections::hash_map::Entry;
use std::collections::HashMap;
use vstd::prelude::*;

verus! {

broadcast use {
    vstd::std_specs::hash::group_hash_axioms,
    crate::generator::lemma_infos_dom,
    crate::generator::lemma_infos_insert,
    crate::generator::lemma_infos_remove,
    crate::generator::lemma_triple_protocols_dom,
    crate::generator::lemma_triple_protocols_insert,
    crate::generator::lemma_triple_protocols_remove,
};

/// A triple manager, as a mathematical value.
#[verifier::ext_equal]
pub struct TripleManagerModel {
    /// The completed, unspent triples.
    pub pool: PoolModel<Triple>,
    /// The running generators, by the id of the triple they make.
    pub generating: Map<TripleId, GeneratorInfo>,
    /// The participants of the current epoch.
    pub participants: Seq<Participant>,
    /// This node.
    pub me: Participant,
    /// The threshold of the current epoch.
    pub threshold: usize,
    /// The number of triples, completed or in the making, that supply aims for.
    pub target_count: usize,
}

impl TripleManagerModel {
    /// The invariant of every manager.  An id names a completed triple or a generator,
    /// never both; the two together can be counted; and every generator was started in
    /// the manager's epoch, with the participants and the threshold of that epoch.
    pub open spec fn wf(self) -> bool {
        &&& self.pool.wf()
        &&& self.generating.dom().finite()
        &&& forall|id: TripleId|
            !(self.pool.contains(id) && #[trigger] self.generating.contains_key(id))
        &&& self.pool.len() + self.generating.len() <= usize::MAX
        &&& forall|id: TripleId|
            #[trigger] self.generating.contains_key(id) ==> self.generating[id].setup == self.setup()
    }

    /// What a generator of this manager is started with.
    pub open spec fn setup(self) -> Setup {
        Setup {
            epoch: self.epoch(),
            participants: self.participants,
            me: self.me,
            threshold: self.threshold,
        }
    }

    pub open spec fn epoch(self) -> u64 {
        self.pool.epoch
    }

    /// Whether `id` names neither a completed triple nor a generator.
    pub open spec fn is_free(self, id: TripleId) -> bool {
        !self.pool.contains(id) && !self.generating.contains_key(id)
    }

    /// The number of triples there will be once every generator has finished.
    pub open spec fn potential_len(self) -> nat {
        self.pool.len() + self.generating.len()
    }

    /// Whether the protocol accepts the manager's participants and threshold.
    pub open spec fn can_start(self) -> bool {
        valid_parameters(self.participants, self.threshold as int)
    }

    /// The manager with another pool.
    pub open spec fn with_pool(self, pool: PoolModel<Triple>) -> Self {
        TripleManagerModel {
            pool,
            generating: self.generating,
            participants: self.participants,
            me: self.me,
            threshold: self.threshold,
            target_count: self.target_count,
        }
    }

    /// The manager with other generators.
    pub open spec fn with_generating(self, generating: Map<TripleId, GeneratorInfo>) -> Self {
        TripleManagerModel {
            pool: self.pool,
            generating,
            participants: self.participants,
            me: self.me,
            threshold: self.threshold,
            target_count: self.target_count,
        }
    }

    /// The manager after a generator for `id` has been started.
    pub open spec fn start(self, id: TripleId, mine: bool) -> Self {
        self.with_generating(
            self.generating.insert(
                id,
                GeneratorInfo { mine, started_at: None, setup: self.setup() },
            ),
        )
    }

    /// The manager after `take`.
    pub open spec fn take(self, id: TripleId) -> Self {
        self.with_pool(self.pool.remove(id))
    }

    /// The manager after `take_two`: both triples leave, or neither.
    pub open spec fn take_two(self, id0: TripleId, id1: TripleId) -> Self {
        if self.pool.holds_pair(id0, id1) {
            self.take(id0).take(id1)
        } else {
            self
        }
    }

    /// The manager after `insert`: an id that names a completed triple or a generator
    /// is refused.
    pub open spec fn insert(self, triple: Triple, mine: bool) -> Self {
        if self.is_free(triple.id) {
            self.with_pool(self.pool.insert(triple, mine))
        } else {
            self
        }
    }

    /// The manager after the generator `id` has been dropped.
    pub open spec fn drop_generator(self, id: TripleId) -> Self {
        self.with_generating(self.generating.remove(id))
    }

    /// The manager after the generator `id` has finished with `triple`.
    pub open spec fn complete(self, triple: Triple) -> Self {
        self.with_pool(self.pool.insert(triple, self.generating[triple.id].mine)).drop_generator(
            triple.id,
        )
    }

    /// The manager after `purge_epoch`.
    pub open spec fn purge_epoch(self, epoch: u64) -> Self {
        self.with_pool(self.pool.purge_epoch(epoch))
    }

    /// The manager after the cluster has moved to a later epoch.
    pub open spec fn advance(
        self,
        participants: Seq<Participant>,
        threshold: usize,
        epoch: u64,
    ) -> Self {
        TripleManagerModel {
            pool: PoolModel::empty(epoch),
            generating: Map::empty(),
            participants,
            me: self.me,
            threshold,
            target_count: self.target_count,
        }
    }

    /// The generators that a sweep at `now` leaves, each marked as seen.
    pub open spec fn expire(self, now: u64, timeout: u64) -> Self {
        self.with_generating(
            Map::new(
                |id: TripleId|
                    self.generating.contains_key(id) && !self.generating[id].expired(now, timeout),
                |id: TripleId| self.generating[id].seen(now),
            ),
        )
    }

    /// The message that the generator `id` sends with the payload `data`.
    pub open spec fn message(self, id: TripleId, data: Seq<u8>) -> TripleMessageView {
        TripleMessageView { id, epoch: self.epoch(), from: self.me, data }
    }

    /// A payload for everyone: one message to each participant but this node, in the
    /// order of the participants.
    pub open spec fn broadcast(self, id: TripleId, data: Seq<u8>) -> Seq<
        (Participant, TripleMessageView),
    > {
        fan_out(others(self.participants, self.me), self.message(id, data))
    }

    /// What the action of the generator `id` adds to the outbox.
    pub open spec fn emitted(self, id: TripleId, action: Action<(TripleShare, TriplePub)>) -> Seq<
        (Participant, TripleMessageView),
    > {
        match action {
            Action::SendBroadcast(data) => self.broadcast(id, data@),
            Action::SendPrivate(to, data) => seq![(to, self.message(id, data@))],
            _ => Seq::empty(),
        }
    }

    /// The manager after the action of the generator `id`.
    pub open spec fn apply(self, id: TripleId, action: Action<(TripleShare, TriplePub)>) -> Self {
        match action {
            Action::Done((share, public)) => self.complete(Triple { id, share, public }),
            Action::Failed(_) => self.drop_generator(id),
            _ => self,
        }
    }

    /// The manager after the steps, each applied in its turn.
    pub open spec fn play(self, steps: Seq<(TripleId, Action<(TripleShare, TriplePub)>)>) -> Self
        decreases steps.len(),
    {
        if steps.len() == 0 {
            self
        } else {
            self.play(steps.drop_last()).apply(steps.last().0, steps.last().1)
        }
    }

    /// What the steps add to the outbox, in their order.
    pub open spec fn played_out(
        self,
        steps: Seq<(TripleId, Action<(TripleShare, TriplePub)>)>,
    ) -> Seq<(Participant, TripleMessageView)>
        decreases steps.len(),
    {
        if steps.len() == 0 {
            Seq::empty()
        } else {
            self.played_out(steps.drop_last()) + self.play(steps.drop_last()).emitted(
                steps.last().0,
                steps.last().1,
            )
        }
    }

    /// Whether `turns` is a round of this manager: every generator has its turn, once.
    pub open spec fn is_round(
        self,
        turns: Seq<(TripleId, Seq<Action<(TripleShare, TriplePub)>>)>,
    ) -> bool {
        &&& forall|k: int|
            0 <= k < turns.len() ==> self.generating.contains_key((#[trigger] turns[k]).0)
                && is_turn(turns[k].1)
        &&& forall|k: int, l: int|
            0 <= k < l < turns.len() ==> (#[trigger] turns[k]).0 != (#[trigger] turns[l]).0
        &&& forall|id: TripleId|
            self.generating.contains_key(id) ==> exists|k: int|
                0 <= k < turns.len() && (#[trigger] turns[k]).0 == id
    }

    /// Whether a round of poking in which the protocols have yielded `turns` leaves the
    /// manager as `after`, with `outbox` to send and `failures` to report.  The manager is
    /// what the actions make of it, one after the other; the outbox holds what they emit,
    /// in their order; and the failures are those among them, in their order.
    pub open spec fn round_of(
        self,
        turns: Seq<(TripleId, Seq<Action<(TripleShare, TriplePub)>>)>,
        after: Self,
        outbox: Seq<(Participant, TripleMessageView)>,
        failures: Seq<ProtocolFailure>,
    ) -> bool {
        &&& self.is_round(turns)
        &&& after == self.play(round_steps(turns))
        &&& outbox == self.played_out(round_steps(turns))
        &&& failures == failures_of(round_steps(turns))
    }

    /// Steps that follow one another: the manager after all of them is the manager after
    /// the first, after the second; and so is the outbox.
    pub proof fn lemma_play_append(
        self,
        steps: Seq<(TripleId, Action<(TripleShare, TriplePub)>)>,
        more: Seq<(TripleId, Action<(TripleShare, TriplePub)>)>,
    )
        ensures
            self.play(steps + more) == self.play(steps).play(more),
            self.played_out(steps + more) == self.played_out(steps) + self.play(
                steps,
            ).played_out(more),
        decreases more.len(),
    {
        if more.len() == 0 {
            assert(steps + more =~= steps);
            assert(self.played_out(steps) + self.play(steps).played_out(more)
                =~= self.played_out(steps));
        } else {
            assert((steps + more).drop_last() =~= steps + more.drop_last());
            assert((steps + more).last() == more.last());
            self.lemma_play_append(steps, more.drop_last());
            assert(self.played_out(steps + more) =~= self.played_out(steps) + self.play(
                steps,
            ).played_out(more));
        }
    }

    /// Whether `message` is one that a generator of this manager sends: it names the
    /// generator, the manager's epoch, and this node as its sender.
    pub open spec fn owns(self, message: TripleMessageView) -> bool {
        &&& self.generating.contains_key(message.id)
        &&& message.epoch == self.epoch()
        &&& message.from == self.me
    }

    /// Whether every message of `outbox` from `start` on is one that the generator `id`
    /// sends.
    pub open spec fn sent_by(
        self,
        id: TripleId,
        outbox: Seq<(Participant, TripleMessageView)>,
        start: int,
    ) -> bool {
        forall|i: int|
            start <= i < outbox.len() ==> (#[trigger] outbox[i]).1.id == id && self.owns(outbox[i].1)
    }

    /// What a round of poking can make of a manager, whatever the protocols do.  No
    /// completed triple is lost or changed, and none changes hands.  A triple that is new
    /// comes from a generator, and is this node's own exactly if the generator was.  No
    /// generator is started or altered.  This node's own triples keep their order, the new
    /// ones behind the old.  And there are no more potential triples than before.
    pub open spec fn poked(self, after: Self) -> bool {
        &&& after.participants == self.participants
        &&& after.me == self.me
        &&& after.threshold == self.threshold
        &&& after.target_count == self.target_count
        &&& after.epoch() == self.epoch()
        &&& forall|id: TripleId|
            self.pool.contains(id) ==> #[trigger] after.pool.contains(id) && after.pool.items[id]
                == self.pool.items[id] && (after.pool.contains_mine(id) <==> self.pool.contains_mine(
                id,
            ))
        &&& forall|id: TripleId|
            #[trigger] after.pool.contains(id) && !self.pool.contains(id)
                ==> self.generating.contains_key(id) && (after.pool.contains_mine(id)
                <==> self.generating[id].mine)
        &&& forall|id: TripleId|
            #[trigger] after.generating.contains_key(id) ==> self.generating.contains_key(id)
                && after.generating[id] == self.generating[id]
        &&& self.pool.mine.is_prefix_of(after.pool.mine)
        &&& after.potential_len() <= self.potential_len()
    }

    /// Whether every generator of `self` is accounted for in `after`: it is still running,
    /// or its triple is in the pool, or it is one of those that have `failed`.
    pub open spec fn settled(self, after: Self, failed: Set<TripleId>) -> bool {
        forall|id: TripleId|
            #[trigger] self.generating.contains_key(id) ==> after.generating.contains_key(id)
                || after.pool.contains(id) || failed.contains(id)
    }

    /// Whether `failures` reports generators of `self` that are gone in `after`: each was
    /// running, none is reported twice, and the id of each is free again.
    pub open spec fn reported(self, after: Self, failures: Seq<ProtocolFailure>) -> bool {
        &&& forall|k: int|
            0 <= k < failures.len() ==> self.generating.contains_key((#[trigger] failures[k]).id)
                && after.is_free(failures[k].id)
        &&& forall|k: int, l: int|
            0 <= k < l < failures.len() ==> (#[trigger] failures[k]).id != (
            #[trigger] failures[l]).id
    }

    /// Whether every message of `outbox` is one that a generator of this manager sends.
    pub open spec fn owns_all(self, outbox: Seq<(Participant, TripleMessageView)>) -> bool {
        forall|i: int| 0 <= i < outbox.len() ==> self.owns((#[trigger] outbox[i]).1)
    }

    /// A manager that has not changed has been poked.
    pub proof fn lemma_poked_same(self)
        requires
            self.wf(),
        ensures
            self.poked(self),
    {
    }

    /// A manager one of whose generators has finished has been poked.
    pub proof fn lemma_poked_complete(self, triple: Triple)
        requires
            self.wf(),
            self.generating.contains_key(triple.id),
        ensures
            self.poked(self.complete(triple)),
    {
        self.lemma_complete_wf(triple);
        let after = self.complete(triple);
        let mine = self.generating[triple.id].mine;
        assert forall|id: TripleId| self.pool.contains(id) implies #[trigger] after.pool.contains(
            id,
        ) && after.pool.items[id] == self.pool.items[id] && (after.pool.contains_mine(id)
            <==> self.pool.contains_mine(id)) by {
            if mine {
                lemma_push_contains(self.pool.mine, triple.id, id);
            }
        }
        assert forall|id: TripleId| #[trigger]
            after.pool.contains(id) && !self.pool.contains(id) implies self.generating.contains_key(
            id,
        ) && (after.pool.contains_mine(id) <==> self.generating[id].mine) by {
            assert(id == triple.id);
            if after.pool.mine.contains(id) && !mine {
                let at = after.pool.mine.index_of(id);
                assert(self.pool.items.contains_key(self.pool.mine[at]));
            }
            if mine {
                lemma_push_contains(self.pool.mine, triple.id, id);
            }
        }
    }

    /// A manager one of whose generators has been dropped has been poked.
    pub proof fn lemma_poked_drop(self, id: TripleId)
        requires
            self.wf(),
            self.generating.contains_key(id),
        ensures
            self.poked(self.drop_generator(id)),
    {
    }

    /// Poking twice is poking.
    pub proof fn lemma_poked_twice(self, middle: Self, after: Self)
        requires
            self.poked(middle),
            middle.poked(after),
        ensures
            self.poked(after),
    {
        assert forall|id: TripleId| #[trigger]
            after.pool.contains(id) && !self.pool.contains(id) implies self.generating.contains_key(
            id,
        ) && (after.pool.contains_mine(id) <==> self.generating[id].mine) by {
            if middle.pool.contains(id) {
                assert(after.pool.contains(id));
            } else {
                assert(middle.generating.contains_key(id));
            }
        }
        assert forall|id: TripleId| self.pool.contains(id) implies #[trigger] after.pool.contains(
            id,
        ) && after.pool.items[id] == self.pool.items[id] && (after.pool.contains_mine(id)
            <==> self.pool.contains_mine(id)) by {
            assert(middle.pool.contains(id));
        }
        assert forall|id: TripleId| #[trigger]
            after.generating.contains_key(id) implies self.generating.contains_key(id)
            && after.generating[id] == self.generating[id] by {
            assert(middle.generating.contains_key(id));
        }
    }

    /// The ids that a sweep at `now` drops.
    pub open spec fn expired(self, now: u64, timeout: u64) -> Set<TripleId> {
        Set::new(
            |id: TripleId|
                self.generating.contains_key(id) && self.generating[id].expired(now, timeout),
        )
    }

    /// The generators in the middle of a sweep at `now`, when those in `swept` have been
    /// looked at and the others have not.
    pub open spec fn swept(self, swept: Set<TripleId>, now: u64, timeout: u64) -> Self {
        self.with_generating(
            Map::new(
                |id: TripleId|
                    self.generating.contains_key(id) && !(swept.contains(id)
                        && self.generating[id].expired(now, timeout)),
                |id: TripleId|
                    if swept.contains(id) {
                        self.generating[id].seen(now)
                    } else {
                        self.generating[id]
                    },
            ),
        )
    }

    /// Marking a generator as seen keeps a manager well formed.
    pub proof fn lemma_mark_wf(self, id: TripleId, now: u64)
        requires
            self.wf(),
            self.generating.contains_key(id),
        ensures
            self.with_generating(self.generating.insert(id, self.generating[id].seen(now))).wf(),
    {
        assert(self.generating.insert(id, self.generating[id].seen(now)).dom()
            =~= self.generating.dom());
    }

    /// `start` keeps a manager well formed, where the id is free and there is room.
    pub proof fn lemma_start_wf(self, id: TripleId, mine: bool)
        requires
            self.wf(),
            self.is_free(id),
            self.potential_len() < usize::MAX,
        ensures
            self.start(id, mine).wf(),
            self.start(id, mine).potential_len() == self.potential_len() + 1,
    {
    }

    /// `take` keeps a manager well formed.
    pub proof fn lemma_take_wf(self, id: TripleId)
        requires
            self.wf(),
        ensures
            self.take(id).wf(),
    {
        self.pool.lemma_remove_wf(id);
    }

    /// `insert` keeps a manager well formed, where there is room.
    pub proof fn lemma_insert_wf(self, triple: Triple, mine: bool)
        requires
            self.wf(),
            self.is_free(triple.id) ==> self.potential_len() < usize::MAX,
        ensures
            self.insert(triple, mine).wf(),
    {
        self.pool.lemma_insert_wf(triple, mine);
    }

    /// Dropping a generator keeps a manager well formed.
    pub proof fn lemma_drop_generator_wf(self, id: TripleId)
        requires
            self.wf(),
        ensures
            self.drop_generator(id).wf(),
    {
    }

    /// Completing a generator keeps a manager well formed, and the number of potential
    /// triples as it was.
    pub proof fn lemma_complete_wf(self, triple: Triple)
        requires
            self.wf(),
            self.generating.contains_key(triple.id),
        ensures
            self.complete(triple).wf(),
            self.complete(triple).potential_len() == self.potential_len(),
            self.complete(triple).pool.contains(triple.id),
    {
        self.pool.lemma_insert_wf(triple, self.generating[triple.id].mine);
    }
}

/// Abstracts how triples are generated: a new triple can be requested, which will be
/// complete some time in the future, and a completed triple can be taken, once.
pub struct TripleManager {
    /// Completed unspent triples, and the queue of those that this node initiated.
    store: PoolStore<Triple>,
    /// Ongoing triple generation protocols.
    generators: HashMap<TripleId, TripleGenerator>,
    participants: Vec<Participant>,
    me: Participant,
    threshold: usize,
    target_count: usize,
}

impl View for TripleManager {
    type V = TripleManagerModel;

    closed spec fn view(&self) -> TripleManagerModel {
        TripleManagerModel {
            pool: self.store@,
            generating: infos(self.generators@),
            participants: self.participants@,
            me: self.me,
            threshold: self.threshold,
            target_count: self.target_count,
        }
    }
}

impl TripleManager {
    /// The invariant of every manager: see [`TripleManagerModel::wf`].
    pub open spec fn wf(&self) -> bool {
        self@.wf()
    }

    /// The protocol objects of the generators, by id.  The model of the manager leaves
    /// them out, since the rules do not read them; what a function does to them is stated
    /// beside what it does to the model.
    pub closed spec fn protocols(&self) -> Map<TripleId, TripleProtocol> {
        triple_protocols(self.generators@)
    }

    /// Whether no protocol object has been touched since `before`.
    pub open spec fn untouched(&self, before: &Self) -> bool {
        kept_but(before.protocols(), self.protocols(), None)
    }

    /// Whether no protocol object but that of the generator `id` has been touched since
    /// `before`.
    pub open spec fn untouched_but(&self, before: &Self, id: TripleId) -> bool {
        kept_but(before.protocols(), self.protocols(), Some(id))
    }

    /// The generators are what has a protocol object.
    pub proof fn lemma_protocols(&self)
        ensures
            self.protocols().dom() == self@.generating.dom(),
    {
    }

    /// A manager for `epoch` with no triples and no generators.  It has no target yet:
    /// its target is the largest number there is.
    pub fn new(
        participants: Vec<Participant>,
        me: Participant,
        threshold: usize,
        epoch: u64,
    ) -> (manager: Self)
        ensures
            manager.wf(),
            manager@.pool == PoolModel::<Triple>::empty(epoch),
            manager@.generating == Map::<TripleId, GeneratorInfo>::empty(),
            manager@.participants == participants@,
            manager@.me == me,
            manager@.threshold == threshold,
            manager@.target_count == usize::MAX,
    {
        let manager = TripleManager {
            store: PoolStore::new(epoch),
            generators: HashMap::new(),
            participants,
            me,
            threshold,
            target_count: usize::MAX,
        };
        proof {
            assert(manager@.generating =~= Map::<TripleId, GeneratorInfo>::empty());
        }
        manager
    }

    /// Returns the number of unspent triples available in the manager.
    pub fn len(&self) -> (len: usize)
        ensures
            len == self@.pool.len(),
    {
        self.store.len()
    }

    /// Returns the number of unspent triples that this node initiated.
    pub fn my_len(&self) -> (len: usize)
        ensures
            len == self@.pool.len_mine(),
    {
        self.store.len_mine()
    }

    /// Returns the number of ongoing generators.
    pub fn generating_len(&self) -> (len: usize)
        ensures
            len == self@.generating.len(),
    {
        proof {
            assert(self@.generating.dom() =~= self.generators@.dom());
        }
        self.generators.len()
    }

    /// Returns the number of unspent triples we will have in the manager once
    /// all ongoing generation protocols complete.
    pub fn potential_len(&self) -> (len: usize)
        requires
            self.wf(),
        ensures
            len == self@.potential_len(),
            len == self@.pool.len() + self@.generating.len(),
    {
        self.store.len() + self.generating_len()
    }

    /// Whether the manager holds no unspent triple.
    pub fn is_empty(&self) -> (empty: bool)
        requires
            self.wf(),
        ensures
            empty == (self@.pool.len() == 0),
    {
        self.store.is_empty()
    }

    /// Whether the manager holds the unspent triple `id`.
    pub fn contains(&self, id: TripleId) -> (found: bool)
        ensures
            found == self@.pool.contains(id),
    {
        self.store.contains(id)
    }

    /// Whether the manager holds the unspent triple `id`, and this node initiated it.
    pub fn contains_mine(&self, id: TripleId) -> (found: bool)
        ensures
            found == self@.pool.contains_mine(id),
    {
        self.store.contains_mine(id)
    }

    /// Whether a generator for the triple `id` is running.
    pub fn is_generating(&self, id: TripleId) -> (found: bool)
        ensures
            found == self@.generating.contains_key(id),
    {
        self.generators.contains_key(&id)
    }

    /// The unspent triple `id`, if the manager holds it.  The triple stays in the pool.
    pub fn get(&self, id: TripleId) -> (triple: Option<&Triple>)
        ensures
            match triple {
                Some(found) => self@.pool.contains(id) && *found == self@.pool.items[id],
                None => !self@.pool.contains(id),
            },
    {
        self.store.get(id)
    }

    /// Gives up the manager for a listing of its unspent triples: every triple once,
    /// beside it whether this node initiated it, the node's own first and oldest first.
    /// The generators are dropped.
    pub fn into_entries(self) -> (entries: Vec<(Triple, bool)>)
        requires
            self.wf(),
        ensures
            self@.pool.lists(entries@),
    {
        self.store.into_entries()
    }

    /// Puts a completed triple into the manager, as this node's own if `mine`.  An id that
    /// already names a triple or a generator is refused, and what is there stays.
    pub fn insert(&mut self, triple: Triple, mine: bool) -> (inserted: bool)
        requires
            old(self).wf(),
            old(self)@.is_free(triple.id) ==> old(self)@.potential_len() < usize::MAX,
        ensures
            final(self).wf(),
            final(self).untouched(old(self)),
            final(self)@ == old(self)@.insert(triple, mine),
            inserted == old(self)@.is_free(triple.id),
            inserted ==> final(self)@.pool.contains(triple.id),
            inserted ==> final(self)@.pool.len() == old(self)@.pool.len() + 1,
            inserted && mine ==> final(self)@.pool.contains_mine(triple.id),
            inserted ==> final(self)@.pool.len_mine() == old(self)@.pool.len_mine() + one_if(mine),
            final(self)@.pool.same_but(old(self)@.pool, triple.id),
    {
        proof {
            self@.lemma_insert_wf(triple, mine);
        }
        if self.generators.contains_key(&triple.id) {
            false
        } else {
            self.store.insert(triple, mine)
        }
    }

    /// Take an unspent triple by its id with no way to return it.
    /// It is very important to NOT reuse the same triple twice for two different
    /// protocols.
    pub fn take(&mut self, id: TripleId) -> (triple: Option<Triple>)
        requires
            old(self).wf(),
        ensures
            final(self).wf(),
            final(self).untouched(old(self)),
            final(self)@ == old(self)@.take(id),
            triple == old(self)@.pool.items.get(id),
            !final(self)@.pool.contains(id),
            !final(self)@.pool.contains_mine(id),
            final(self)@.pool.len() == old(self)@.pool.len() - one_if(old(self)@.pool.contains(id)),
            final(self)@.pool.len_mine() == old(self)@.pool.len_mine() - one_if(
                old(self)@.pool.contains_mine(id),
            ),
            final(self)@.pool.same_but(old(self)@.pool, id),
    {
        proof {
            self@.lemma_take_wf(id);
            self@.pool.lemma_remove_wf(id);
        }
        self.store.remove(id)
    }

    /// Take two unspent triples by their ids.  Either takes both or none.
    pub fn take_two(&mut self, id0: TripleId, id1: TripleId) -> (pair: Option<(Triple, Triple)>)
        requires
            old(self).wf(),
        ensures
            final(self).wf(),
            final(self).untouched(old(self)),
            final(self)@ == old(self)@.take_two(id0, id1),
            pair == if old(self)@.pool.holds_pair(id0, id1) {
                Some((old(self)@.pool.items[id0], old(self)@.pool.items[id1]))
            } else {
                None
            },
            pair is Some ==> !final(self)@.pool.contains(id0) && !final(self)@.pool.contains(id1),
            pair is Some ==> final(self)@.pool.len() == old(self)@.pool.len() - 2,
    {
        proof {
            self@.lemma_take_wf(id0);
            self@.take(id0).lemma_take_wf(id1);
        }
        self.store.remove_two(id0, id1)
    }

    /// Take the two oldest unspent triples that this node initiated.  Either takes both
    /// or none.
    /// It is very important to NOT reuse the same triple twice for two different
    /// protocols.
    pub fn take_mine_twice(&mut self) -> (pair: Option<(Triple, Triple)>)
        requires
            old(self).wf(),
        ensures
            final(self).wf(),
            final(self).untouched(old(self)),
            old(self)@.pool.len_mine() < 2 ==> final(self)@ == old(self)@ && pair is None,
            old(self)@.pool.len_mine() >= 2 ==> ({
                let (id0, id1) = (old(self)@.pool.mine[0], old(self)@.pool.mine[1]);
                &&& final(self)@ == old(self)@.take(id0).take(id1)
                &&& pair == Some((old(self)@.pool.items[id0], old(self)@.pool.items[id1]))
                &&& final(self)@.pool.len() == old(self)@.pool.len() - 2
                &&& final(self)@.pool.len_mine() == old(self)@.pool.len_mine() - 2
            }),
    {
        proof {
            if self@.pool.len_mine() >= 2 {
                self@.lemma_take_wf(self@.pool.mine[0]);
                self@.take(self@.pool.mine[0]).lemma_take_wf(self@.pool.mine[1]);
            }
        }
        self.store.pop_two_mine()
    }

    /// Removes every completed triple tagged with `epoch`.
    pub fn purge_epoch(&mut self, epoch: u64)
        requires
            old(self).wf(),
        ensures
            final(self).wf(),
            final(self).untouched(old(self)),
            final(self)@ == old(self)@.purge_epoch(epoch),
    {
        self.store.purge_epoch(epoch);
    }

    /// Sets the number of triples, completed or in the making, that supply aims for.
    pub fn set_target_count(&mut self, target_count: usize)
        ensures
            final(self).untouched(old(self)),
            final(self)@ == (TripleManagerModel { target_count, ..old(self)@ }),
    {
        self.target_count = target_count;
    }

    /// Starts a new Beaver triple generation protocol under the id `id`, on this node's
    /// initiative.  The protocol must accept the manager's participants and threshold,
    /// and the id must be free.
    pub fn generate_with_id(&mut self, id: TripleId) -> (started: Result<(), GenerateError>)
        requires
            old(self).wf(),
            old(self)@.potential_len() < old(self)@.target_count,
        ensures
            final(self).wf(),
            final(self).untouched(old(self)),
            match started {
                Ok(()) => old(self)@.can_start() && old(self)@.is_free(id) && final(self)@ == old(
                    self,
                )@.start(id, true),
                Err(GenerateError::Init(_)) => !old(self)@.can_start() && final(self)@ == old(self)@,
                Err(GenerateError::IdCollision) => old(self)@.can_start() && !old(self)@.is_free(id)
                    && final(self)@ == old(self)@,
                Err(GenerateError::InsufficientTriples) => false,
            },
    {
        proof {
            if self@.is_free(id) {
                self@.lemma_start_wf(id, true);
            }
        }
        let ghost setup = self@.setup();
        match TripleProtocol::start(&self.participants, self.me, self.threshold) {
            Err(cause) => Err(GenerateError::Init(cause)),
            Ok(protocol) => {
                if self.store.contains(id) || self.generators.contains_key(&id) {
                    Err(GenerateError::IdCollision)
                } else {
                    self.generators.insert(
                        id,
                        TripleGenerator {
                            protocol,
                            mine: true,
                            started_at: None,
                            setup: Ghost(setup),
                        },
                    );
                    proof {
                        assert(self@.generating =~= old(self)@.generating.insert(
                            id,
                            GeneratorInfo { mine: true, started_at: None, setup },
                        ));
                    }
                    Ok(())
                }
            },
        }
    }

    /// Starts a new Beaver triple generation protocol under an id drawn at random.
    pub fn generate(&mut self) -> (started: Result<(), GenerateError>)
        requires
            old(self).wf(),
            old(self)@.potential_len() < old(self)@.target_count,
        ensures
            final(self).wf(),
            final(self).untouched(old(self)),
            match started {
                Ok(()) => old(self)@.can_start() && exists|id: TripleId|
                    old(self)@.is_free(id) && final(self)@ == #[trigger] old(self)@.start(id, true),
                Err(GenerateError::Init(_)) => !old(self)@.can_start() && final(self)@ == old(self)@,
                Err(GenerateError::IdCollision) => old(self)@.can_start() && final(self)@ == old(
                    self,
                )@,
                Err(GenerateError::InsufficientTriples) => false,
            },
    {
        let id = random_id();
        self.generate_with_id(id)
    }

    /// Ensures that the triple with the given id is either:
    /// 1) Already generated in which case returns `None`, or
    /// 2) Is currently being generated by `protocol` in which case returns `Some(protocol)`, or
    /// 3) Has never been seen by the manager in which case start a new protocol and returns
    ///    `Some(protocol)`
    pub fn get_or_generate(
        &mut self,
        id: TripleId,
    ) -> (found: Result<Option<&mut TripleProtocol>, GenerateError>)
        requires
            old(self).wf(),
            old(self)@.is_free(id) ==> old(self)@.potential_len() < usize::MAX,
        ensures
            final(self).wf(),
            final(self).untouched_but(old(self), id),
            match found {
                Ok(None) => old(self)@.pool.contains(id) && final(self)@ == old(self)@,
                Ok(Some(protocol)) => {
                    &&& !old(self)@.pool.contains(id)
                    &&& final(self).protocols().contains_key(id)
                    &&& final(self).protocols()[id] == *final(protocol)
                    &&& if old(self)@.generating.contains_key(id) {
                        &&& *protocol == old(self).protocols()[id]
                        &&& final(self)@ == old(self)@
                    } else {
                        &&& old(self)@.can_start()
                        &&& final(self)@ == old(self)@.start(id, false)
                    }
                },
                Err(GenerateError::Init(_)) => {
                    &&& old(self)@.is_free(id)
                    &&& !old(self)@.can_start()
                    &&& final(self)@ == old(self)@
                },
                Err(_) => false,
            },
    {
        proof {
            if self@.is_free(id) {
                self@.lemma_start_wf(id, false);
            }
            if self@.generating.contains_key(id) {
                assert(self@.generating.insert(id, self@.generating[id]) =~= self@.generating);
            }
        }
        let ghost setup = self@.setup();
        if self.store.contains(id) {
            Ok(None)
        } else {
            match self.generators.entry(id) {
                Entry::Vacant(e) => {
                    match TripleProtocol::start(&self.participants, self.me, self.threshold) {
                        Ok(protocol) => {
                            let generator = e.insert(
                                TripleGenerator {
                                    protocol,
                                    mine: false,
                                    started_at: None,
                                    setup: Ghost(setup),
                                },
                            );
                            Ok(Some(&mut generator.protocol))
                        },
                        Err(cause) => Err(GenerateError::Init(cause)),
                    }
                },
                Entry::Occupied(e) => Ok(Some(&mut e.into_mut().protocol)),
            }
        }
    }

    /// Pokes the protocol of the generator `id`, once.
    fn step(&mut self, id: TripleId) -> (action: Action<(TripleShare, TriplePub)>)
        requires
            old(self).wf(),
            old(self)@.generating.contains_key(id),
        ensures
            final(self).untouched_but(old(self), id),
            final(self)@ == old(self)@,
    {
        proof {
            assert(self@.generating.insert(id, self@.generating[id]) =~= self@.generating);
        }
        match self.generators.entry(id) {
            Entry::Occupied(e) => e.into_mut().protocol.poke(),
            Entry::Vacant(_) => Action::Wait,
        }
    }

    /// Adds to the outbox one copy of the payload for each participant but this node.
    fn push_broadcast(
        &self,
        id: TripleId,
        data: &Vec<u8>,
        messages: &mut Vec<(Participant, TripleMessage)>,
    )
        ensures
            outbox(final(messages)@) == outbox(old(messages)@) + self@.broadcast(id, data@),
    {
        let ghost message = self@.message(id, data@);
        let ghost before = outbox(messages@);
        let mut i: usize = 0;
        proof {
            lemma_others_push(Seq::empty(), self.me, 0);
            assert(self.participants@.take(0) =~= Seq::<Participant>::empty());
            assert(outbox(messages@) =~= before + fan_out(
                others(self.participants@.take(0), self.me),
                message,
            ));
        }
        while i < self.participants.len()
            invariant
                i <= self.participants@.len(),
                message == self@.message(id, data@),
                outbox(messages@) == before + fan_out(
                    others(self.participants@.take(i as int), self.me),
                    message,
                ),
            decreases self.participants@.len() - i,
        {
            let to = self.participants[i];
            proof {
                lemma_others_push(self.participants@.take(i as int), self.me, to);
                assert(self.participants@.take(i as int + 1) =~= self.participants@.take(
                    i as int,
                ).push(to));
            }
            if to != self.me {
                let ghost sent = outbox(messages@);
                messages.push(
                    (
                        to,
                        TripleMessage {
                            id,
                            epoch: self.store.epoch(),
                            from: self.me,
                            data: copy_bytes(data),
                        },
                    ),
                );
                proof {
                    assert(outbox(messages@) =~= sent.push((to, message)));
                    assert(sent.push((to, message)) =~= before + fan_out(
                        others(self.participants@.take(i as int + 1), self.me),
                        message,
                    ));
                }
            }
            i += 1;
        }
        proof {
            assert(self.participants@.take(self.participants@.len() as int) =~= self.participants@);
        }
    }

    /// Does what the action of the generator `id` asks for.  A payload goes to the outbox;
    /// a finished triple goes to the pool, as this node's own if the generator is, and the
    /// generator leaves; a generator that failed leaves, and its id is free again.
    pub fn apply(
        &mut self,
        id: TripleId,
        action: Action<(TripleShare, TriplePub)>,
        messages: &mut Vec<(Participant, TripleMessage)>,
    ) -> (progress: Progress)
        requires
            old(self).wf(),
            old(self)@.generating.contains_key(id),
        ensures
            final(self).wf(),
            final(self).untouched(old(self)),
            final(self)@ == old(self)@.apply(id, action),
            outbox(final(messages)@) == outbox(old(messages)@) + old(self)@.emitted(id, action),
            match action {
                Action::Wait => progress is Waiting,
                Action::SendBroadcast(_) => progress is Continue,
                Action::SendPrivate(_, _) => progress is Continue,
                Action::Done(_) => progress is Completed,
                Action::Failed(cause) => progress == Progress::Failed(
                    ProtocolFailure { id, cause },
                ),
            },
    {
        let ghost before = outbox(messages@);
        match action {
            Action::Wait => {
                assert(outbox(messages@) =~= before + Seq::empty());
                Progress::Waiting
            },
            Action::SendBroadcast(data) => {
                self.push_broadcast(id, &data, messages);
                Progress::Continue
            },
            Action::SendPrivate(to, data) => {
                let ghost message = self@.message(id, data@);
                messages.push(
                    (to, TripleMessage { id, epoch: self.store.epoch(), from: self.me, data }),
                );
                proof {
                    assert(outbox(messages@) =~= before + seq![(to, message)]);
                }
                Progress::Continue
            },
            Action::Done((share, public)) => {
                proof {
                    self@.lemma_complete_wf(Triple { id, share, public });
                    assert(outbox(messages@) =~= before + Seq::empty());
                }
                let mine = match self.generators.remove(&id) {
                    Some(generator) => generator.mine,
                    None => false,
                };
                self.store.insert(Triple { id, share, public }, mine);
                Progress::Completed
            },
            Action::Failed(cause) => {
                proof {
                    self@.lemma_drop_generator_wf(id);
                    assert(outbox(messages@) =~= before + Seq::empty());
                }
                self.generators.remove(&id);
                Progress::Failed(ProtocolFailure { id, cause })
            },
        }
    }

    /// Takes the generator `id` through its turn: asks its protocol for an action and does
    /// what the action asks for, again and again, until the generator waits, finishes or
    /// fails, or has been asked as often as the budget allows.
    fn advance(
        &mut self,
        id: TripleId,
        messages: &mut Vec<(Participant, TripleMessage)>,
    ) -> (turn: Turn<(TripleShare, TriplePub)>)
        requires
            old(self).wf(),
            old(self)@.generating.contains_key(id),
        ensures
            final(self).wf(),
            final(self).untouched_but(old(self), id),
            is_turn(turn.actions@),
            turn.progress == progress_of(id, turn.actions@.last()),
            final(self)@ == old(self)@.play(turn_steps(id, turn.actions@)),
            outbox(final(messages)@) == outbox(old(messages)@) + old(self)@.played_out(
                turn_steps(id, turn.actions@),
            ),
            failures_of(turn_steps(id, turn.actions@)) == (match turn.progress {
                Progress::Failed(failure) => seq![failure],
                _ => Seq::empty(),
            }),
            match turn.progress {
                Progress::Continue => final(self)@ == old(self)@,
                Progress::Waiting => final(self)@ == old(self)@,
                Progress::Completed => exists|triple: Triple|
                    triple.id == id && final(self)@ == #[trigger] old(self)@.complete(triple),
                Progress::Failed(failure) => failure.id == id && final(self)@ == old(
                    self,
                )@.drop_generator(id),
            },
            outbox(old(messages)@).is_prefix_of(outbox(final(messages)@)),
            old(self)@.sent_by(id, outbox(final(messages)@), old(messages)@.len() as int),
    {
        let ghost start = self@;
        let ghost before = outbox(messages@);
        let ghost untouched = self.protocols();
        let ghost mut actions: Seq<Action<(TripleShare, TriplePub)>> = Seq::empty();
        let mut budget: usize = ACTION_BUDGET;
        proof {
            assert(turn_steps(id, actions) =~= Seq::empty());
            assert(before + start.played_out(turn_steps(id, actions)) =~= before);
        }
        while budget > 0
            invariant
                self.wf(),
                self@ == start,
                untouched == old(self).protocols(),
                untouched.dom() == self.protocols().dom(),
                kept_but(untouched, self.protocols(), Some(id)),
                start == old(self)@,
                before == outbox(old(messages)@),
                start.generating.contains_key(id),
                before.is_prefix_of(outbox(messages@)),
                start.sent_by(id, outbox(messages@), before.len() as int),
                actions.len() + budget == ACTION_BUDGET,
                forall|i: int| 0 <= i < actions.len() ==> goes_on(#[trigger] actions[i]),
                start.play(turn_steps(id, actions)) == start,
                outbox(messages@) == before + start.played_out(turn_steps(id, actions)),
                failures_of(turn_steps(id, actions)) == Seq::<ProtocolFailure>::empty(),
            decreases budget,
        {
            let ghost sent = outbox(messages@);
            let ghost asked = actions;
            let action = self.step(id);
            let ghost taken = action;
            let progress = self.apply(id, action, messages);
            proof {
                let emitted = start.emitted(id, taken);
                assert(outbox(messages@) == sent + emitted);
                assert forall|i: int| 0 <= i < emitted.len() implies (#[trigger] emitted[i]).1
                    == start.message(id, emitted[i].1.data) by {}
                assert(sent.is_prefix_of(sent + emitted));
                assert(before.is_prefix_of(outbox(messages@))) by {
                    assert(before =~= sent.subrange(0, before.len() as int));
                    assert(before =~= outbox(messages@).subrange(0, before.len() as int));
                }
                match taken {
                    Action::Done((share, public)) => {
                        assert(self@ == start.complete(Triple { id, share, public }));
                    },
                    _ => {},
                }
                actions = asked.push(taken);
                let steps = turn_steps(id, actions);
                assert(steps.drop_last() =~= turn_steps(id, asked));
                assert(steps.last() == (id, taken));
                assert(start.play(steps) == self@);
                assert(outbox(messages@) =~= before + start.played_out(steps));
            }
            match progress {
                Progress::Continue => {
                    budget -= 1;
                },
                other => {
                    return Turn { progress: other, actions: Ghost(actions) };
                },
            }
        }
        Turn { progress: Progress::Continue, actions: Ghost(actions) }
    }

    /// Pokes all of the ongoing generation protocols and returns a vector of
    /// messages to be sent to the respective participant.
    ///
    /// An empty vector means we cannot progress until we receive a new message.
    ///
    /// Every generator has its turn, once: its protocol is asked for an action, and again
    /// after every message, until it waits, finishes or fails, or has been asked as often
    /// as the budget allows.  One that finishes leaves its triple in the pool; one that
    /// fails is dropped, and the round goes on with the others.  The messages are in the
    /// order in which the protocols have emitted them.  Where a generator has failed, the
    /// round ends in an error that names every failure; the messages of the round are then
    /// in the error.  Without generators nothing happens.
    pub fn poke(&mut self) -> (sent: Result<Vec<(Participant, TripleMessage)>, TriplePokeError>)
        requires
            old(self).wf(),
        ensures
            final(self).wf(),
            old(self)@.poked(final(self)@),
            match sent {
                Ok(messages) => {
                    &&& exists|turns: Seq<(TripleId, Seq<Action<(TripleShare, TriplePub)>>)>|
                        #[trigger] old(self)@.round_of(
                            turns,
                            final(self)@,
                            outbox(messages@),
                            Seq::empty(),
                        )
                    &&& old(self)@.settled(final(self)@, Set::empty())
                    &&& old(self)@.owns_all(outbox(messages@))
                },
                Err(error) => {
                    &&& error.failures@.len() > 0
                    &&& exists|turns: Seq<(TripleId, Seq<Action<(TripleShare, TriplePub)>>)>|
                        #[trigger] old(self)@.round_of(
                            turns,
                            final(self)@,
                            outbox(error.messages@),
                            error.failures@,
                        )
                    &&& old(self)@.reported(final(self)@, error.failures@)
                    &&& old(self)@.settled(final(self)@, failed_ids(error.failures@))
                    &&& old(self)@.owns_all(outbox(error.messages@))
                },
            },
            old(self)@.generating.len() == 0 ==> ({
                &&& sent matches Ok(messages)
                &&& messages@.len() == 0
                &&& final(self)@ == old(self)@
            }),
    {
        let ghost start = self@;
        // the turns that the generators have had, in the order of `ids`
        let ghost mut turns: Seq<(TripleId, Seq<Action<(TripleShare, TriplePub)>>)> = Seq::empty();
        let ids = collect_keys(&self.generators);
        let mut messages: Vec<(Participant, TripleMessage)> = Vec::new();
        let mut failures: Vec<ProtocolFailure> = Vec::new();
        // where in `ids` each of the failures was found
        let ghost mut found: Seq<int> = Seq::empty();
        let mut i: usize = 0;
        proof {
            start.lemma_poked_same();
            assert forall|j: int| 0 <= j < ids@.len() implies self@.generating.contains_key(
                #[trigger] ids@[j],
            ) by {
                assert(ids@.contains(ids@[j]));
            }
            assert(outbox(messages@) =~= start.played_out(round_steps(turns)));
            if start.generating.len() == 0 {
                assert(start.generating.dom() =~= Set::empty());
                if ids@.len() > 0 {
                    assert(ids@.contains(ids@[0]));
                }
            }
        }
        while i < ids.len()
            invariant
                i <= ids@.len(),
                start == old(self)@,
                turns.len() == i,
                forall|k: int| 0 <= k < turns.len() ==> (#[trigger] turns[k]).0 == ids@[k],
                forall|k: int| 0 <= k < turns.len() ==> is_turn((#[trigger] turns[k]).1),
                self@ == start.play(round_steps(turns)),
                outbox(messages@) == start.played_out(round_steps(turns)),
                failures@ == failures_of(round_steps(turns)),
                self.wf(),
                start.wf(),
                start.poked(self@),
                start.owns_all(outbox(messages@)),
                ids@.no_duplicates(),
                forall|id: TripleId| ids@.contains(id) <==> start.generating.contains_key(id),
                // the generators that have not had their turn are as they were
                forall|j: int|
                    i <= j < ids@.len() ==> self@.generating.contains_key(#[trigger] ids@[j]),
                // those that have had it are accounted for
                forall|j: int|
                    0 <= j < i ==> self@.generating.contains_key(#[trigger] ids@[j])
                        || self@.pool.contains(ids@[j]) || failed_ids(failures@).contains(ids@[j]),
                // the failures are reported in the order of `ids`, and their ids are free
                found.len() == failures@.len(),
                forall|k: int|
                    0 <= k < found.len() ==> 0 <= #[trigger] found[k] < i && ids@[found[k]]
                        == failures@[k].id,
                forall|k: int, l: int| 0 <= k < l < found.len() ==> found[k] < found[l],
                forall|k: int|
                    0 <= k < failures@.len() ==> self@.is_free((#[trigger] failures@[k]).id),
            decreases ids@.len() - i,
        {
            let id = ids[i];
            let ghost before = self@;
            let ghost sent = outbox(messages@);
            let ghost failed = failures@;
            assert(ids@.contains(ids@[i as int]));
            let ghost played = round_steps(turns);
            let turn = self.advance(id, &mut messages);
            let progress = turn.progress;
            proof {
                let steps = turn_steps(id, turn.actions@);
                let had = turns;
                turns = had.push((id, turn.actions@));
                assert(turns.drop_last() =~= had);
                assert(turns.last() == (id, turn.actions@));
                assert(round_steps(turns) == played + steps);
                start.lemma_play_append(played, steps);
                lemma_failures_append(played, steps);
                assert(outbox(messages@) =~= start.played_out(round_steps(turns)));
                assert forall|m: int| 0 <= m < messages@.len() implies start.owns(
                    (#[trigger] outbox(messages@)[m]).1,
                ) by {
                    if m < sent.len() {
                        assert(outbox(messages@)[m] == sent[m]);
                    } else {
                        assert(before.owns(outbox(messages@)[m].1));
                    }
                }
                match progress {
                    Progress::Completed => {
                        let triple = choose|triple: Triple|
                            triple.id == id && self@ == #[trigger] before.complete(triple);
                        before.lemma_poked_complete(triple);
                        before.lemma_complete_wf(triple);
                    },
                    Progress::Failed(_) => {
                        before.lemma_poked_drop(id);
                    },
                    _ => {
                        before.lemma_poked_same();
                    },
                }
                start.lemma_poked_twice(before, self@);
                // only the generator `id` has changed
                assert forall|j: int| 0 <= j < ids@.len() && j != i implies (
                self@.generating.contains_key(#[trigger] ids@[j]) <==> before.generating.contains_key(
                    ids@[j],
                )) && (self@.pool.contains(ids@[j]) <==> before.pool.contains(ids@[j])) by {
                    assert(ids@[j] != ids@[i as int]);
                }
                assert forall|k: int| 0 <= k < failed.len() implies self@.is_free(
                    (#[trigger] failed[k]).id,
                ) by {
                    assert(ids@[found[k]] != ids@[i as int]);
                }
            }
            match progress {
                Progress::Failed(failure) => {
                    failures.push(failure);
                    proof {
                        assert(failures@ =~= failures_of(round_steps(turns)));
                        found = found.push(i as int);
                        assert forall|j: int| 0 <= j < i + 1 implies self@.generating.contains_key(
                            #[trigger] ids@[j],
                        ) || self@.pool.contains(ids@[j]) || failed_ids(failures@).contains(
                            ids@[j],
                        ) by {
                            if j == i {
                                assert(failures@[failed.len() as int].id == ids@[j]);
                            } else if failed_ids(failed).contains(ids@[j]) {
                                let k = choose|k: int|
                                    0 <= k < failed.len() && (#[trigger] failed[k]).id == ids@[j];
                                assert(failures@[k].id == ids@[j]);
                            }
                        }
                        assert forall|k: int| 0 <= k < failures@.len() implies self@.is_free(
                            (#[trigger] failures@[k]).id,
                        ) by {
                            if k < failed.len() {
                                assert(failures@[k] == failed[k]);
                            }
                        }
                    }
                },
                _ => {
                    proof {
                        assert(failures@ =~= failures_of(round_steps(turns)));
                        assert forall|j: int| 0 <= j < i + 1 implies self@.generating.contains_key(
                            #[trigger] ids@[j],
                        ) || self@.pool.contains(ids@[j]) || failed_ids(failures@).contains(
                            ids@[j],
                        ) by {}
                    }
                },
            }
            i += 1;
        }
        proof {
            assert forall|id: TripleId| #[trigger]
                start.generating.contains_key(id) implies self@.generating.contains_key(id)
                || self@.pool.contains(id) || failed_ids(failures@).contains(id) by {
                assert(ids@.contains(id));
                let j = ids@.index_of(id);
                assert(self@.generating.contains_key(ids@[j]) || self@.pool.contains(ids@[j])
                    || failed_ids(failures@).contains(ids@[j]));
            }
            assert forall|k: int| 0 <= k < failures@.len() implies start.generating.contains_key(
                (#[trigger] failures@[k]).id,
            ) by {
                assert(ids@.contains(ids@[found[k]]));
            }
            assert forall|k: int, l: int| 0 <= k < l < failures@.len() implies (
            #[trigger] failures@[k]).id != (#[trigger] failures@[l]).id by {
                assert(found[k] < found[l]);
                assert(ids@[found[k]] != ids@[found[l]]);
            }
        }
        proof {
            assert forall|k: int| 0 <= k < turns.len() implies start.generating.contains_key(
                (#[trigger] turns[k]).0,
            ) by {
                assert(ids@.contains(ids@[k]));
            }
            assert forall|id: TripleId| start.generating.contains_key(id) implies exists|k: int|
                0 <= k < turns.len() && (#[trigger] turns[k]).0 == id by {
                assert(ids@.contains(id));
                let k = ids@.index_of(id);
                assert(turns[k].0 == id);
            }
            assert(start.is_round(turns));
            assert(start.round_of(turns, self@, outbox(messages@), failures@));
        }
        if failures.len() == 0 {
            proof {
                assert(failed_ids(failures@) =~= Set::empty());
                assert(failures@ =~= Seq::empty());
            }
            Ok(messages)
        } else {
            Err(TriplePokeError { failures, messages })
        }
    }

    /// This node.
    pub fn me(&self) -> (me: Participant)
        ensures
            me == self@.me,
    {
        self.me
    }

    /// The threshold of the current epoch.
    pub fn threshold(&self) -> (threshold: usize)
        ensures
            threshold == self@.threshold,
    {
        self.threshold
    }

    /// The current epoch.
    pub fn epoch(&self) -> (epoch: u64)
        ensures
            epoch == self@.epoch(),
    {
        self.store.epoch()
    }

    /// The number of triples, completed or in the making, that supply aims for.
    pub fn target_count(&self) -> (target_count: usize)
        ensures
            target_count == self@.target_count,
    {
        self.target_count
    }

    /// The participants of the current epoch.
    pub fn participants(&self) -> (participants: &Vec<Participant>)
        ensures
            participants@ == self@.participants,
    {
        &self.participants
    }

    /// The ids of all unspent triples, each once, in no particular order.
    pub fn ids(&self) -> (ids: Vec<TripleId>)
        ensures
            ids@.no_duplicates(),
            forall|id: TripleId| ids@.contains(id) <==> self@.pool.contains(id),
    {
        self.store.ids()
    }

    /// The ids of this node's own unspent triples, oldest first.
    pub fn iter_mine_ids(&self) -> (ids: Vec<TripleId>)
        ensures
            ids@ == self@.pool.mine,
    {
        self.store.iter_mine_ids()
    }

    /// Sweeps the generators at the time `now`.  A generator that no sweep has seen before
    /// is marked with `now`.  One that was marked more than `timeout` ago is dropped, and
    /// its id is free again.  Returns the ids that were dropped, each once.
    pub fn expire(&mut self, now: u64, timeout: u64) -> (dropped: Vec<TripleId>)
        requires
            old(self).wf(),
        ensures
            final(self).wf(),
            final(self).untouched(old(self)),
            final(self)@ == old(self)@.expire(now, timeout),
            dropped@.no_duplicates(),
            forall|id: TripleId|
                dropped@.contains(id) <==> old(self)@.expired(now, timeout).contains(id),
    {
        let ghost start = self@;
        let ghost untouched = self.protocols();
        let ids = collect_keys(&self.generators);
        let mut dropped: Vec<TripleId> = Vec::new();
        let mut i: usize = 0;
        proof {
            assert(self@ =~= start.swept(ids@.take(0).to_set(), now, timeout));
        }
        while i < ids.len()
            invariant
                i <= ids@.len(),
                untouched == old(self).protocols(),
                kept_but(untouched, self.protocols(), None),
                self.protocols().dom().subset_of(untouched.dom()),
                self.wf(),
                start.wf(),
                ids@.no_duplicates(),
                forall|id: TripleId| ids@.contains(id) <==> start.generating.contains_key(id),
                self@ == start.swept(ids@.take(i as int).to_set(), now, timeout),
                dropped@.no_duplicates(),
                forall|id: TripleId|
                    dropped@.contains(id) <==> ids@.take(i as int).contains(id)
                        && start.expired(now, timeout).contains(id),
            decreases ids@.len() - i,
        {
            let id = ids[i];
            let ghost before = self@;
            let ghost seen = ids@.take(i as int);
            let ghost gone = dropped@;
            proof {
                assert(ids@.contains(ids@[i as int]));
                assert(!seen.contains(id)) by {
                    if seen.contains(id) {
                        let j = seen.index_of(id);
                        assert(ids@[j] == ids@[i as int]);
                    }
                }
                assert(ids@.take(i as int + 1) =~= seen.push(id));
                assert forall|other: TripleId|
                    seen.push(id).to_set().contains(other) <==> seen.to_set().contains(other)
                        || other == id by {
                    lemma_push_contains(seen, id, other);
                }
                assert(before.generating.contains_key(id));
                assert(before.generating[id] == start.generating[id]);
                before.lemma_drop_generator_wf(id);
                before.lemma_mark_wf(id, now);
            }
            match self.generators.remove(&id) {
                Some(generator) => {
                    let expired = match generator.started_at {
                        Some(started) => now > started && now - started > timeout,
                        None => false,
                    };
                    if expired {
                        dropped.push(id);
                        proof {
                            assert forall|other: TripleId|
                                dropped@.contains(other) <==> gone.contains(other) || other
                                    == id by {
                                lemma_push_contains(gone, id, other);
                            }
                            assert forall|a: int, b: int|
                                0 <= a < b < dropped@.len() implies dropped@[a] != dropped@[b] by {
                                if b == gone.len() {
                                    assert(gone.contains(gone[a]));
                                }
                            }
                        }
                    } else {
                        let started_at = match generator.started_at {
                            Some(started) => Some(started),
                            None => Some(now),
                        };
                        self.generators.insert(
                            id,
                            TripleGenerator {
                                protocol: generator.protocol,
                                mine: generator.mine,
                                started_at,
                                setup: generator.setup,
                            },
                        );
                    }
                },
                None => {},
            }
            proof {
                assert(self@ =~= start.swept(seen.push(id).to_set(), now, timeout));
                assert forall|other: TripleId|
                    dropped@.contains(other) <==> ids@.take(i as int + 1).contains(other)
                        && start.expired(now, timeout).contains(other) by {
                    lemma_push_contains(seen, id, other);
                    lemma_push_contains(gone, id, other);
                    assert(gone.contains(other) <==> seen.contains(other) && start.expired(
                        now,
                        timeout,
                    ).contains(other));
                }
            }
            i += 1;
        }
        proof {
            assert(ids@.take(ids@.len() as int) =~= ids@);
            assert(self@ =~= start.expire(now, timeout));
        }
        dropped
    }

    /// Moves the manager to a later epoch, with the participants and the threshold that
    /// hold in it.  Every generator is dropped and every completed triple is evicted: both
    /// belong to the epoch that is left.  An epoch that is not later changes nothing.
    pub fn advance_epoch(
        &mut self,
        participants: Vec<Participant>,
        threshold: usize,
        epoch: u64,
    ) -> (advanced: bool)
        requires
            old(self).wf(),
        ensures
            final(self).wf(),
            final(self).untouched(old(self)),
            advanced == (epoch > old(self)@.epoch()),
            advanced ==> final(self)@ == old(self)@.advance(participants@, threshold, epoch),
            !advanced ==> final(self)@ == old(self)@,
    {
        if epoch <= self.store.epoch() {
            return false;
        }
        self.generators.clear();
        self.store.advance_epoch(epoch);
        self.participants = participants;
        self.threshold = threshold;
        proof {
            assert(self@.generating =~= Map::<TripleId, GeneratorInfo>::empty());
        }
        true
    }
}

} // verus!
