//! The presignature manager: completed presignatures, and the generators that are making
//! more.  A presignature is made from two triples, which its generator spends.

use crate::errors::failed_ids;
use crate::errors::GenerateError;
use crate::errors::ProtocolFailure;
use crate::errors::PresignaturePokeError;
use crate::generator::presigning_infos;
use crate::generator::GeneratorInfo;
use crate::generator::PresigningInfo;
use crate::generator::failures_of;
use crate::generator::goes_on;
use crate::generator::is_turn;
use crate::generator::kept_but;
use crate::generator::lemma_failures_append;
use crate::generator::progress_of;
use crate::generator::round_steps;
use crate::generator::turn_steps;
use crate::generator::Turn;
use crate::generator::presigning_protocols;
use crate::generator::Progress;
use crate::generator::Setup;
use crate::generator::PresignatureGenerator;
use crate::generator::ACTION_BUDGET;
use crate::outbox::fan_out;
use crate::outbox::lemma_others_push;
use crate::outbox::others;
use crate::outbox::outbox;
use crate::protocol::copy_bytes;
use crate::protocol::copy_participants;
use crate::protocol::random_id;
use crate::protocol::valid_presign_parameters;
use crate::protocol::Action;
use crate::protocol::PresignatureProtocol;
use crate::store::collect_keys;
use crate::store::lemma_push_contains;
use crate::store::one_if;
use crate::store::PoolModel;
use crate::store::PoolStore;
use crate::triple::TripleManager;
use crate::triple::TripleManagerModel;
use crate::types::KeyShare;
use crate::types::Participant;
use crate::types::PresignOutput;
use crate::types::Presignature;
use crate::types::PresignatureId;
use crate::types::PresignatureMessage;
use crate::types::PresignatureMessageView;
use crate::types::Triple;
use crate::types::TripleId;
use std::collections::hash_map::Entry;
use std::collections::HashMap;
use vstd::prelude::*;

verus! {

broadcast use {
    vstd::std_specs::hash::group_hash_axioms,
    crate::generator::lemma_presigning_infos_dom,
    crate::generator::lemma_presigning_infos_insert,
    crate::generator::lemma_presigning_infos_remove,
    crate::generator::lemma_presigning_protocols_dom,
    crate::generator::lemma_presigning_protocols_insert,
    crate::generator::lemma_presigning_protocols_remove,
};

/// A presignature manager, as a mathematical value.
#[verifier::ext_equal]
pub struct PresignatureManagerModel {
    /// The completed, unspent presignatures.
    pub pool: PoolModel<Presignature>,
    /// The running generators, by the id of the presignature they make.
    pub generating: Map<PresignatureId, PresigningInfo>,
    /// The participants of the current epoch.
    pub participants: Seq<Participant>,
    /// This node.
    pub me: Participant,
    /// The threshold of the current epoch.
    pub threshold: usize,
    /// The number of presignatures, completed or in the making, that supply aims for.
    pub target_count: usize,
}

impl PresignatureManagerModel {
    /// The invariant of every manager.  An id names a completed presignature or a generator,
    /// never both; the two together can be counted; and every generator was started in
    /// the manager's epoch, with the participants and the threshold of that epoch.
    pub open spec fn wf(self) -> bool {
        &&& self.pool.wf()
        &&& self.generating.dom().finite()
        &&& forall|id: PresignatureId|
            !(self.pool.contains(id) && #[trigger] self.generating.contains_key(id))
        &&& self.pool.len() + self.generating.len() <= usize::MAX
        &&& forall|id: PresignatureId|
            #[trigger] self.generating.contains_key(id) ==> self.generating[id].generator.setup
                == self.setup()
    }

    /// What a generator of this manager is started with.
    pub open spec fn setup(self) -> Setup {
        Setup {
            epoch: self.epoch(),
            participants: self.participants,
            me: self.me,
            threshold: self.threshold,
        }
    }

    pub open spec fn epoch(self) -> u64 {
        self.pool.epoch
    }

    /// Whether `id` names neither a completed presignature nor a generator.
    pub open spec fn is_free(self, id: PresignatureId) -> bool {
        !self.pool.contains(id) && !self.generating.contains_key(id)
    }

    /// The number of presignatures there will be once every generator has finished.
    pub open spec fn potential_len(self) -> nat {
        self.pool.len() + self.generating.len()
    }

    /// Whether the protocol accepts the manager's participants and threshold, with the
    /// two triples.
    pub open spec fn can_start_with(self, triple0: Triple, triple1: Triple) -> bool {
        valid_presign_parameters(self.participants, self.threshold as int, triple0, triple1)
    }

    /// Whether the triples of `triples` may be spent on a presigning of this manager: the
    /// two managers are in the same epoch.
    pub open spec fn may_spend(self, triples: TripleManagerModel) -> bool {
        triples.epoch() == self.epoch()
    }

    /// The manager with another pool.
    pub open spec fn with_pool(self, pool: PoolModel<Presignature>) -> Self {
        PresignatureManagerModel {
            pool,
            generating: self.generating,
            participants: self.participants,
            me: self.me,
            threshold: self.threshold,
            target_count: self.target_count,
        }
    }

    /// The manager with other generators.
    pub open spec fn with_generating(
        self,
        generating: Map<PresignatureId, PresigningInfo>,
    ) -> Self {
        PresignatureManagerModel {
            pool: self.pool,
            generating,
            participants: self.participants,
            me: self.me,
            threshold: self.threshold,
            target_count: self.target_count,
        }
    }

    /// The manager after a generator for `id` has been started on the triples `triple0`
    /// and `triple1`.
    pub open spec fn start(
        self,
        id: PresignatureId,
        mine: bool,
        triple0: TripleId,
        triple1: TripleId,
    ) -> Self {
        self.with_generating(
            self.generating.insert(
                id,
                PresigningInfo {
                    generator: GeneratorInfo { mine, started_at: None, setup: self.setup() },
                    triple0,
                    triple1,
                },
            ),
        )
    }

    /// The manager after `take`.
    pub open spec fn take(self, id: PresignatureId) -> Self {
        self.with_pool(self.pool.remove(id))
    }

    /// The manager after `insert`: an id that names a completed presignature or a generator
    /// is refused.
    pub open spec fn insert(self, presignature: Presignature, mine: bool) -> Self {
        if self.is_free(presignature.id) {
            self.with_pool(self.pool.insert(presignature, mine))
        } else {
            self
        }
    }

    /// The manager after the generator `id` has been dropped.
    pub open spec fn drop_generator(self, id: PresignatureId) -> Self {
        self.with_generating(self.generating.remove(id))
    }

    /// The manager after the generator `id` has finished with `presignature`.
    pub open spec fn complete(self, presignature: Presignature) -> Self {
        let mine = self.generating[presignature.id].generator.mine;
        self.with_pool(self.pool.insert(presignature, mine)).drop_generator(presignature.id)
    }

    /// The manager after `purge_epoch`.
    pub open spec fn purge_epoch(self, epoch: u64) -> Self {
        self.with_pool(self.pool.purge_epoch(epoch))
    }

    /// The manager after the cluster has moved to a later epoch.
    pub open spec fn advance(
        self,
        participants: Seq<Participant>,
        threshold: usize,
        epoch: u64,
    ) -> Self {
        PresignatureManagerModel {
            pool: PoolModel::empty(epoch),
            generating: Map::empty(),
            participants,
            me: self.me,
            threshold,
            target_count: self.target_count,
        }
    }

    /// The generators that a sweep at `now` leaves, each marked as seen.
    pub open spec fn expire(self, now: u64, timeout: u64) -> Self {
        self.with_generating(
            Map::new(
                |id: PresignatureId|
                    self.generating.contains_key(id) && !self.generating[id].generator.expired(
                        now,
                        timeout,
                    ),
                |id: PresignatureId| self.generating[id].seen(now),
            ),
        )
    }

    /// The message that the generator `id` sends with the payload `data`.
    pub open spec fn message(self, id: PresignatureId, data: Seq<u8>) -> PresignatureMessageView {
        PresignatureMessageView {
            id,
            triple0: self.generating[id].triple0,
            triple1: self.generating[id].triple1,
            epoch: self.epoch(),
            from: self.me,
            data,
        }
    }

    /// A payload for everyone: one message to each participant but this node, in the
    /// order of the participants.
    pub open spec fn broadcast(self, id: PresignatureId, data: Seq<u8>) -> Seq<
        (Participant, PresignatureMessageView),
    > {
        fan_out(others(self.participants, self.me), self.message(id, data))
    }

    /// What the action of the generator `id` adds to the outbox.
    pub open spec fn emitted<T>(self, id: PresignatureId, action: Action<T>) -> Seq<
        (Participant, PresignatureMessageView),
    > {
        match action {
            Action::SendBroadcast(data) => self.broadcast(id, data@),
            Action::SendPrivate(to, data) => seq![(to, self.message(id, data@))],
            _ => Seq::empty(),
        }
    }

    /// Whether `presignature` is what the generator `id` leaves when it ends with
    /// `output`: the output under the generator's id, with the participants of the epoch
    /// and the two triples that the generator has spent.
    pub open spec fn finished(
        self,
        id: PresignatureId,
        output: PresignOutput,
        presignature: Presignature,
    ) -> bool {
        &&& presignature.id == id
        &&& presignature.output == output
        &&& presignature.participants@ == self.participants
        &&& presignature.triple0 == self.generating[id].triple0
        &&& presignature.triple1 == self.generating[id].triple1
    }

    /// Whether `after` is the manager after the action of the generator `id`.
    pub open spec fn applied(
        self,
        id: PresignatureId,
        action: Action<PresignOutput>,
        after: Self,
    ) -> bool {
        match action {
            Action::Done(output) => exists|presignature: Presignature|
                self.finished(id, output, presignature) && after == #[trigger] self.complete(
                    presignature,
                ),
            Action::Failed(_) => after == self.drop_generator(id),
            _ => after == self,
        }
    }

    /// What `generate_with_id` makes of a manager and of the triple manager it draws on.
    /// An id that is taken is refused.  Then the two oldest triples of this node's own are
    /// spent; without two of them, or with a triple manager that is in another epoch,
    /// nothing is started.  Then the protocol decides.
    pub open spec fn generated(
        self,
        triples: TripleManagerModel,
        id: PresignatureId,
        started: Result<(), GenerateError>,
        after: Self,
        triples_after: TripleManagerModel,
    ) -> bool {
        if !self.is_free(id) {
            started matches Err(GenerateError::IdCollision) && after == self && triples_after
                == triples
        } else if !self.may_spend(triples) || triples.pool.len_mine() < 2 {
            started matches Err(GenerateError::InsufficientTriples) && after == self
                && triples_after == triples
        } else {
            let id0 = triples.pool.mine[0];
            let id1 = triples.pool.mine[1];
            &&& triples_after == triples.take(id0).take(id1)
            &&& if self.can_start_with(triples.pool.items[id0], triples.pool.items[id1]) {
                started is Ok && after == self.start(id, true, id0, id1)
            } else {
                started matches Err(GenerateError::Init(_)) && after == self
            }
        }
    }

    /// The manager after a step of the generator `id`.  The step is the action that the
    /// protocol has yielded, with the presignature that the generator leaves in place of
    /// the output it has ended with.
    pub open spec fn apply(self, id: PresignatureId, step: Action<Presignature>) -> Self {
        match step {
            Action::Done(presignature) => self.complete(presignature),
            Action::Failed(_) => self.drop_generator(id),
            _ => self,
        }
    }

    /// Whether a step of the generator `id` leaves what the generator has to leave: where
    /// it ends the presigning, the presignature is as `finished` has it.
    pub open spec fn fits(self, id: PresignatureId, step: Action<Presignature>) -> bool {
        step matches Action::Done(presignature) ==> self.finished(
            id,
            presignature.output,
            presignature,
        )
    }

    /// The step that the action of a protocol makes, where the generator leaves `made`
    /// if the action ends the presigning.
    pub open spec fn step_of(action: Action<PresignOutput>, made: Presignature) -> Action<
        Presignature,
    > {
        match action {
            Action::Wait => Action::Wait,
            Action::SendBroadcast(data) => Action::SendBroadcast(data),
            Action::SendPrivate(to, data) => Action::SendPrivate(to, data),
            Action::Done(_) => Action::Done(made),
            Action::Failed(cause) => Action::Failed(cause),
        }
    }

    /// The manager after the steps, each applied in its turn.
    pub open spec fn play(self, steps: Seq<(PresignatureId, Action<Presignature>)>) -> Self
        decreases steps.len(),
    {
        if steps.len() == 0 {
            self
        } else {
            self.play(steps.drop_last()).apply(steps.last().0, steps.last().1)
        }
    }

    /// Whether every one of the steps fits the manager that the steps before it have left.
    pub open spec fn fits_all(self, steps: Seq<(PresignatureId, Action<Presignature>)>) -> bool
        decreases steps.len(),
    {
        steps.len() > 0 ==> self.fits_all(steps.drop_last()) && self.play(
            steps.drop_last(),
        ).fits(steps.last().0, steps.last().1)
    }

    /// What the steps add to the outbox, in their order.
    pub open spec fn played_out(
        self,
        steps: Seq<(PresignatureId, Action<Presignature>)>,
    ) -> Seq<(Participant, PresignatureMessageView)>
        decreases steps.len(),
    {
        if steps.len() == 0 {
            Seq::empty()
        } else {
            self.played_out(steps.drop_last()) + self.play(steps.drop_last()).emitted(
                steps.last().0,
                steps.last().1,
            )
        }
    }

    /// Whether `turns` is a round of this manager: every generator has its turn, once.
    pub open spec fn is_round(
        self,
        turns: Seq<(PresignatureId, Seq<Action<Presignature>>)>,
    ) -> bool {
        &&& forall|k: int|
            0 <= k < turns.len() ==> self.generating.contains_key((#[trigger] turns[k]).0)
                && is_turn(turns[k].1)
        &&& forall|k: int, l: int|
            0 <= k < l < turns.len() ==> (#[trigger] turns[k]).0 != (#[trigger] turns[l]).0
        &&& forall|id: PresignatureId|
            self.generating.contains_key(id) ==> exists|k: int|
                0 <= k < turns.len() && (#[trigger] turns[k]).0 == id
    }

    /// Whether a round of poking in which the protocols have yielded `turns` leaves the
    /// manager as `after`, with `outbox` to send and `failures` to report.  The manager is
    /// what the steps make of it, one after the other; the outbox holds what they emit, in
    /// their order; and the failures are those among them, in their order.
    pub open spec fn round_of(
        self,
        turns: Seq<(PresignatureId, Seq<Action<Presignature>>)>,
        after: Self,
        outbox: Seq<(Participant, PresignatureMessageView)>,
        failures: Seq<ProtocolFailure>,
    ) -> bool {
        &&& self.is_round(turns)
        &&& self.fits_all(round_steps(turns))
        &&& after == self.play(round_steps(turns))
        &&& outbox == self.played_out(round_steps(turns))
        &&& failures == failures_of(round_steps(turns))
    }

    /// Steps that follow one another: the manager after all of them is the manager after
    /// the first, after the second; and so is the outbox.
    pub proof fn lemma_play_append(
        self,
        steps: Seq<(PresignatureId, Action<Presignature>)>,
        more: Seq<(PresignatureId, Action<Presignature>)>,
    )
        ensures
            self.play(steps + more) == self.play(steps).play(more),
            self.fits_all(steps + more) == (self.fits_all(steps) && self.play(steps).fits_all(
                more,
            )),
            self.played_out(steps + more) == self.played_out(steps) + self.play(
                steps,
            ).played_out(more),
        decreases more.len(),
    {
        if more.len() == 0 {
            assert(steps + more =~= steps);
            assert(self.played_out(steps) + self.play(steps).played_out(more)
                =~= self.played_out(steps));
        } else {
            assert((steps + more).drop_last() =~= steps + more.drop_last());
            assert((steps + more).last() == more.last());
            self.lemma_play_append(steps, more.drop_last());
            assert(self.played_out(steps + more) =~= self.played_out(steps) + self.play(
                steps,
            ).played_out(more));
        }
    }

    /// Whether `message` is one that a generator of this manager sends: it names the
    /// generator, the manager's epoch, and this node as its sender.
    pub open spec fn owns(self, message: PresignatureMessageView) -> bool {
        &&& self.generating.contains_key(message.id)
        &&& message.epoch == self.epoch()
        &&& message.from == self.me
    }

    /// Whether every message of `outbox` from `start` on is one that the generator `id`
    /// sends.
    pub open spec fn sent_by(
        self,
        id: PresignatureId,
        outbox: Seq<(Participant, PresignatureMessageView)>,
        start: int,
    ) -> bool {
        forall|i: int|
            start <= i < outbox.len() ==> (#[trigger] outbox[i]).1.id == id && self.owns(outbox[i].1)
    }

    /// What a round of poking can make of a manager, whatever the protocols do.  No
    /// completed presignature is lost or changed, and none changes hands.  A presignature
    /// that is new comes from a generator, and is this node's own exactly if the generator
    /// was.  No generator is started or altered.  This node's own presignatures keep their
    /// order, the new ones behind the old.  And there are no more potential presignatures
    /// than before.
    pub open spec fn poked(self, after: Self) -> bool {
        &&& after.participants == self.participants
        &&& after.me == self.me
        &&& after.threshold == self.threshold
        &&& after.target_count == self.target_count
        &&& after.epoch() == self.epoch()
        &&& forall|id: PresignatureId|
            self.pool.contains(id) ==> #[trigger] after.pool.contains(id) && after.pool.items[id]
                == self.pool.items[id] && (after.pool.contains_mine(id) <==> self.pool.contains_mine(
                id,
            ))
        &&& forall|id: PresignatureId|
            #[trigger] after.pool.contains(id) && !self.pool.contains(id)
                ==> self.generating.contains_key(id) && (after.pool.contains_mine(id)
                <==> self.generating[id].generator.mine)
        &&& forall|id: PresignatureId|
            #[trigger] after.generating.contains_key(id) ==> self.generating.contains_key(id)
                && after.generating[id] == self.generating[id]
        &&& self.pool.mine.is_prefix_of(after.pool.mine)
        &&& after.potential_len() <= self.potential_len()
    }

    /// Whether every generator of `self` is accounted for in `after`: it is still running,
    /// or its presignature is in the pool, or it is one of those that have `failed`.
    pub open spec fn settled(self, after: Self, failed: Set<PresignatureId>) -> bool {
        forall|id: PresignatureId|
            #[trigger] self.generating.contains_key(id) ==> after.generating.contains_key(id)
                || after.pool.contains(id) || failed.contains(id)
    }

    /// Whether `failures` reports generators of `self` that are gone in `after`: each was
    /// running, none is reported twice, and the id of each is free again.
    pub open spec fn reported(self, after: Self, failures: Seq<ProtocolFailure>) -> bool {
        &&& forall|k: int|
            0 <= k < failures.len() ==> self.generating.contains_key((#[trigger] failures[k]).id)
                && after.is_free(failures[k].id)
        &&& forall|k: int, l: int|
            0 <= k < l < failures.len() ==> (#[trigger] failures[k]).id != (
            #[trigger] failures[l]).id
    }

    /// Whether every message of `outbox` is one that a generator of this manager sends.
    pub open spec fn owns_all(self, outbox: Seq<(Participant, PresignatureMessageView)>) -> bool {
        forall|i: int| 0 <= i < outbox.len() ==> self.owns((#[trigger] outbox[i]).1)
    }

    /// A manager that has not changed has been poked.
    pub proof fn lemma_poked_same(self)
        requires
            self.wf(),
        ensures
            self.poked(self),
    {
    }

    /// A manager one of whose generators has finished has been poked.
    pub proof fn lemma_poked_complete(self, presignature: Presignature)
        requires
            self.wf(),
            self.generating.contains_key(presignature.id),
        ensures
            self.poked(self.complete(presignature)),
    {
        self.lemma_complete_wf(presignature);
        let after = self.complete(presignature);
        let mine = self.generating[presignature.id].generator.mine;
        assert forall|id: PresignatureId| self.pool.contains(id) implies #[trigger] after.pool.contains(
            id,
        ) && after.pool.items[id] == self.pool.items[id] && (after.pool.contains_mine(id)
            <==> self.pool.contains_mine(id)) by {
            if mine {
                lemma_push_contains(self.pool.mine, presignature.id, id);
            }
        }
        assert forall|id: PresignatureId| #[trigger]
            after.pool.contains(id) && !self.pool.contains(id) implies self.generating.contains_key(
            id,
        ) && (after.pool.contains_mine(id) <==> self.generating[id].generator.mine) by {
            assert(id == presignature.id);
            if after.pool.mine.contains(id) && !mine {
                let at = after.pool.mine.index_of(id);
                assert(self.pool.items.contains_key(self.pool.mine[at]));
            }
            if mine {
                lemma_push_contains(self.pool.mine, presignature.id, id);
            }
        }
    }

    /// A manager one of whose generators has been dropped has been poked.
    pub proof fn lemma_poked_drop(self, id: PresignatureId)
        requires
            self.wf(),
            self.generating.contains_key(id),
        ensures
            self.poked(self.drop_generator(id)),
    {
    }

    /// Poking twice is poking.
    pub proof fn lemma_poked_twice(self, middle: Self, after: Self)
        requires
            self.poked(middle),
            middle.poked(after),
        ensures
            self.poked(after),
    {
        assert forall|id: PresignatureId| #[trigger]
            after.pool.contains(id) && !self.pool.contains(id) implies self.generating.contains_key(
            id,
        ) && (after.pool.contains_mine(id) <==> self.generating[id].generator.mine) by {
            if middle.pool.contains(id) {
                assert(after.pool.contains(id));
            } else {
                assert(middle.generating.contains_key(id));
            }
        }
        assert forall|id: PresignatureId| self.pool.contains(id) implies #[trigger] after.pool.contains(
            id,
        ) && after.pool.items[id] == self.pool.items[id] && (after.pool.contains_mine(id)
            <==> self.pool.contains_mine(id)) by {
            assert(middle.pool.contains(id));
        }
        assert forall|id: PresignatureId| #[trigger]
            after.generating.contains_key(id) implies self.generating.contains_key(id)
            && after.generating[id] == self.generating[id] by {
            assert(middle.generating.contains_key(id));
        }
    }

    /// The ids that a sweep at `now` drops.
    pub open spec fn expired(self, now: u64, timeout: u64) -> Set<PresignatureId> {
        Set::new(
            |id: PresignatureId|
                self.generating.contains_key(id) && self.generating[id].generator.expired(now, timeout),
        )
    }

    /// The generators in the middle of a sweep at `now`, when those in `swept` have been
    /// looked at and the others have not.
    pub open spec fn swept(self, swept: Set<PresignatureId>, now: u64, timeout: u64) -> Self {
        self.with_generating(
            Map::new(
                |id: PresignatureId|
                    self.generating.contains_key(id) && !(swept.contains(id)
                        && self.generating[id].generator.expired(now, timeout)),
                |id: PresignatureId|
                    if swept.contains(id) {
                        self.generating[id].seen(now)
                    } else {
                        self.generating[id]
                    },
            ),
        )
    }

    /// Marking a generator as seen keeps a manager well formed.
    pub proof fn lemma_mark_wf(self, id: PresignatureId, now: u64)
        requires
            self.wf(),
            self.generating.contains_key(id),
        ensures
            self.with_generating(self.generating.insert(id, self.generating[id].seen(now))).wf(),
    {
        assert(self.generating.insert(id, self.generating[id].seen(now)).dom()
            =~= self.generating.dom());
    }

    /// `start` keeps a manager well formed, where the id is free and there is room.
    pub proof fn lemma_start_wf(
        self,
        id: PresignatureId,
        mine: bool,
        triple0: TripleId,
        triple1: TripleId,
    )
        requires
            self.wf(),
            self.is_free(id),
            self.potential_len() < usize::MAX,
        ensures
            self.start(id, mine, triple0, triple1).wf(),
            self.start(id, mine, triple0, triple1).potential_len() == self.potential_len() + 1,
    {
    }

    /// `take` keeps a manager well formed.
    pub proof fn lemma_take_wf(self, id: PresignatureId)
        requires
            self.wf(),
        ensures
            self.take(id).wf(),
    {
        self.pool.lemma_remove_wf(id);
    }

    /// `insert` keeps a manager well formed, where there is room.
    pub proof fn lemma_insert_wf(self, presignature: Presignature, mine: bool)
        requires
            self.wf(),
            self.is_free(presignature.id) ==> self.potential_len() < usize::MAX,
        ensures
            self.insert(presignature, mine).wf(),
    {
        self.pool.lemma_insert_wf(presignature, mine);
    }

    /// Dropping a generator keeps a manager well formed.
    pub proof fn lemma_drop_generator_wf(self, id: PresignatureId)
        requires
            self.wf(),
        ensures
            self.drop_generator(id).wf(),
    {
    }

    /// Completing a generator keeps a manager well formed, and the number of potential
    /// presignatures as it was.
    pub proof fn lemma_complete_wf(self, presignature: Presignature)
        requires
            self.wf(),
            self.generating.contains_key(presignature.id),
        ensures
            self.complete(presignature).wf(),
            self.complete(presignature).potential_len() == self.potential_len(),
            self.complete(presignature).pool.contains(presignature.id),
    {
        self.pool.lemma_insert_wf(presignature, self.generating[presignature.id].generator.mine);
    }
}

/// Abstracts how presignatures are generated: a new presignature can be requested, which
/// will be complete some time in the future, and a completed presignature can be taken,
/// once.
pub struct PresignatureManager {
    /// Completed unspent presignatures, and the queue of those that this node initiated.
    store: PoolStore<Presignature>,
    /// Ongoing presigning protocols.
    generators: HashMap<PresignatureId, PresignatureGenerator>,
    participants: Vec<Participant>,
    me: Participant,
    threshold: usize,
    target_count: usize,
    /// This node's share of the signing key.
    key: KeyShare,
}

impl View for PresignatureManager {
    type V = PresignatureManagerModel;

    closed spec fn view(&self) -> PresignatureManagerModel {
        PresignatureManagerModel {
            pool: self.store@,
            generating: presigning_infos(self.generators@),
            participants: self.participants@,
            me: self.me,
            threshold: self.threshold,
            target_count: self.target_count,
        }
    }
}

impl PresignatureManager {
    /// The invariant of every manager: see [`PresignatureManagerModel::wf`].
    pub open spec fn wf(&self) -> bool {
        self@.wf()
    }

    /// The protocol objects of the generators, by id.  The model of the manager leaves
    /// them out, since the rules do not read them; what a function does to them is stated
    /// beside what it does to the model.
    pub closed spec fn protocols(&self) -> Map<PresignatureId, PresignatureProtocol> {
        presigning_protocols(self.generators@)
    }

    /// Whether no protocol object has been touched since `before`.
    pub open spec fn untouched(&self, before: &Self) -> bool {
        kept_but(before.protocols(), self.protocols(), None)
    }

    /// Whether no protocol object but that of the generator `id` has been touched since
    /// `before`.
    pub open spec fn untouched_but(&self, before: &Self, id: PresignatureId) -> bool {
        kept_but(before.protocols(), self.protocols(), Some(id))
    }

    /// The generators are what has a protocol object.
    pub proof fn lemma_protocols(&self)
        ensures
            self.protocols().dom() == self@.generating.dom(),
    {
    }

    /// A manager for `epoch` with no presignatures and no generators.  It has no target
    /// yet: its target is the largest number there is.
    pub fn new(
        participants: Vec<Participant>,
        me: Participant,
        threshold: usize,
        epoch: u64,
        key: KeyShare,
    ) -> (manager: Self)
        ensures
            manager.wf(),
            manager@.pool == PoolModel::<Presignature>::empty(epoch),
            manager@.generating == Map::<PresignatureId, PresigningInfo>::empty(),
            manager@.participants == participants@,
            manager@.me == me,
            manager@.threshold == threshold,
            manager@.target_count == usize::MAX,
    {
        let manager = PresignatureManager {
            store: PoolStore::new(epoch),
            generators: HashMap::new(),
            participants,
            me,
            threshold,
            target_count: usize::MAX,
            key,
        };
        proof {
            assert(manager@.generating =~= Map::<PresignatureId, PresigningInfo>::empty());
        }
        manager
    }

    /// Returns the number of unspent presignatures available in the manager.
    pub fn len(&self) -> (len: usize)
        ensures
            len == self@.pool.len(),
    {
        self.store.len()
    }

    /// Returns the number of unspent presignatures that this node initiated.
    pub fn my_len(&self) -> (len: usize)
        ensures
            len == self@.pool.len_mine(),
    {
        self.store.len_mine()
    }

    /// Returns the number of ongoing generators.
    pub fn generating_len(&self) -> (len: usize)
        ensures
            len == self@.generating.len(),
    {
        proof {
            assert(self@.generating.dom() =~= self.generators@.dom());
        }
        self.generators.len()
    }

    /// Returns the number of unspent presignatures we will have in the manager once
    /// all ongoing generation protocols complete.
    pub fn potential_len(&self) -> (len: usize)
        requires
            self.wf(),
        ensures
            len == self@.potential_len(),
            len == self@.pool.len() + self@.generating.len(),
    {
        self.store.len() + self.generating_len()
    }

    /// Whether the manager holds no unspent presignature.
    pub fn is_empty(&self) -> (empty: bool)
        requires
            self.wf(),
        ensures
            empty == (self@.pool.len() == 0),
    {
        self.store.is_empty()
    }

    /// Whether the manager holds the unspent presignature `id`.
    pub fn contains(&self, id: PresignatureId) -> (found: bool)
        ensures
            found == self@.pool.contains(id),
    {
        self.store.contains(id)
    }

    /// Whether the manager holds the unspent presignature `id`, and this node initiated it.
    pub fn contains_mine(&self, id: PresignatureId) -> (found: bool)
        ensures
            found == self@.pool.contains_mine(id),
    {
        self.store.contains_mine(id)
    }

    /// Whether a generator for the presignature `id` is running.
    pub fn is_generating(&self, id: PresignatureId) -> (found: bool)
        ensures
            found == self@.generating.contains_key(id),
    {
        self.generators.contains_key(&id)
    }

    /// The unspent presignature `id`, if the manager holds it.  The presignature stays in
    /// the pool.
    pub fn get(&self, id: PresignatureId) -> (presignature: Option<&Presignature>)
        ensures
            match presignature {
                Some(found) => self@.pool.contains(id) && *found == self@.pool.items[id],
                None => !self@.pool.contains(id),
            },
    {
        self.store.get(id)
    }

    /// Gives up the manager for a listing of its unspent presignatures: every presignature
    /// once, beside it whether this node initiated it, the node's own first and oldest
    /// first.  The generators are dropped.
    pub fn into_entries(self) -> (entries: Vec<(Presignature, bool)>)
        requires
            self.wf(),
        ensures
            self@.pool.lists(entries@),
    {
        self.store.into_entries()
    }

    /// Puts a completed presignature into the manager, as this node's own if `mine`.  An
    /// id that already names a presignature or a generator is refused, and what is there
    /// stays.
    pub fn insert(&mut self, presignature: Presignature, mine: bool) -> (inserted: bool)
        requires
            old(self).wf(),
            old(self)@.is_free(presignature.id) ==> old(self)@.potential_len() < usize::MAX,
        ensures
            final(self).wf(),
            final(self).untouched(old(self)),
            final(self)@ == old(self)@.insert(presignature, mine),
            inserted == old(self)@.is_free(presignature.id),
            inserted ==> final(self)@.pool.contains(presignature.id),
            inserted ==> final(self)@.pool.len() == old(self)@.pool.len() + 1,
            inserted && mine ==> final(self)@.pool.contains_mine(presignature.id),
            inserted ==> final(self)@.pool.len_mine() == old(self)@.pool.len_mine() + one_if(mine),
            final(self)@.pool.same_but(old(self)@.pool, presignature.id),
    {
        proof {
            self@.lemma_insert_wf(presignature, mine);
        }
        if self.generators.contains_key(&presignature.id) {
            false
        } else {
            self.store.insert(presignature, mine)
        }
    }

    /// Take an unspent presignature by its id with no way to return it.
    /// It is very important to NOT reuse the same presignature for two signatures.
    pub fn take(&mut self, id: PresignatureId) -> (presignature: Option<Presignature>)
        requires
            old(self).wf(),
        ensures
            final(self).wf(),
            final(self).untouched(old(self)),
            final(self)@ == old(self)@.take(id),
            presignature == old(self)@.pool.items.get(id),
            !final(self)@.pool.contains(id),
            !final(self)@.pool.contains_mine(id),
            final(self)@.pool.len() == old(self)@.pool.len() - one_if(old(self)@.pool.contains(id)),
            final(self)@.pool.len_mine() == old(self)@.pool.len_mine() - one_if(
                old(self)@.pool.contains_mine(id),
            ),
            final(self)@.pool.same_but(old(self)@.pool, id),
    {
        proof {
            self@.lemma_take_wf(id);
            self@.pool.lemma_remove_wf(id);
        }
        self.store.remove(id)
    }

    /// Take the oldest unspent presignature that this node initiated.
    pub fn take_mine(&mut self) -> (presignature: Option<Presignature>)
        requires
            old(self).wf(),
        ensures
            final(self).wf(),
            final(self).untouched(old(self)),
            old(self)@.pool.len_mine() == 0 ==> final(self)@ == old(self)@ && presignature is None,
            old(self)@.pool.len_mine() > 0 ==> ({
                let id = old(self)@.pool.mine[0];
                &&& final(self)@ == old(self)@.take(id)
                &&& presignature == Some(old(self)@.pool.items[id])
                &&& final(self)@.pool.len() == old(self)@.pool.len() - 1
                &&& final(self)@.pool.len_mine() == old(self)@.pool.len_mine() - 1
            }),
    {
        proof {
            if self@.pool.len_mine() > 0 {
                self@.lemma_take_wf(self@.pool.mine[0]);
            }
        }
        self.store.pop_mine()
    }

    /// Removes every completed presignature tagged with `epoch`.
    pub fn purge_epoch(&mut self, epoch: u64)
        requires
            old(self).wf(),
        ensures
            final(self).wf(),
            final(self).untouched(old(self)),
            final(self)@ == old(self)@.purge_epoch(epoch),
    {
        self.store.purge_epoch(epoch);
    }

    /// Sets the number of presignatures, completed or in the making, that supply aims for.
    pub fn set_target_count(&mut self, target_count: usize)
        ensures
            final(self).untouched(old(self)),
            final(self)@ == (PresignatureManagerModel { target_count, ..old(self)@ }),
    {
        self.target_count = target_count;
    }

    /// Starts a new presigning under the id `id`, on this node's initiative.  It spends the
    /// two oldest triples of this node's own.  An id that is taken is refused, and so is
    /// a triple pool of another epoch, or one with fewer than two triples of this node's
    /// own: in these cases no triple is spent.  Where the protocol refuses the parameters,
    /// the two triples are gone.
    pub fn generate_with_id(&mut self, id: PresignatureId, triples: &mut TripleManager) -> (started:
        Result<(), GenerateError>)
        requires
            old(self).wf(),
            old(triples).wf(),
            old(self)@.potential_len() < old(self)@.target_count,
        ensures
            final(self).wf(),
            final(self).untouched(old(self)),
            final(triples).wf(),
            final(triples).untouched(old(triples)),
            old(self)@.generated(old(triples)@, id, started, final(self)@, final(triples)@),
    {
        if self.store.contains(id) || self.generators.contains_key(&id) {
            return Err(GenerateError::IdCollision);
        }
        let ghost setup = self@.setup();
        if triples.epoch() != self.store.epoch() {
            return Err(GenerateError::InsufficientTriples);
        }
        let ghost pool = triples@.pool;
        match triples.take_mine_twice() {
            None => Err(GenerateError::InsufficientTriples),
            Some((triple0, triple1)) => {
                let id0 = triple0.id;
                let id1 = triple1.id;
                proof {
                    assert(pool.items.contains_key(pool.mine[0]));
                    assert(pool.items.contains_key(pool.mine[1]));
                    self@.lemma_start_wf(id, true, id0, id1);
                }
                match PresignatureProtocol::start(
                    &self.participants,
                    self.me,
                    self.threshold,
                    triple0,
                    triple1,
                    &self.key,
                ) {
                    Err(cause) => Err(GenerateError::Init(cause)),
                    Ok(protocol) => {
                        self.generators.insert(
                            id,
                            PresignatureGenerator {
                                protocol,
                                mine: true,
                                started_at: None,
                                triple0: id0,
                                triple1: id1,
                                setup: Ghost(setup),
                            },
                        );
                        Ok(())
                    },
                }
            },
        }
    }

    /// Starts a new presigning under an id drawn at random.
    pub fn generate(&mut self, triples: &mut TripleManager) -> (started: Result<(), GenerateError>)
        requires
            old(self).wf(),
            old(triples).wf(),
            old(self)@.potential_len() < old(self)@.target_count,
        ensures
            final(self).wf(),
            final(self).untouched(old(self)),
            final(triples).wf(),
            final(triples).untouched(old(triples)),
            exists|id: PresignatureId| #[trigger]
                old(self)@.generated(old(triples)@, id, started, final(self)@, final(triples)@),
    {
        let id = random_id();
        self.generate_with_id(id, triples)
    }

    /// Ensures that the presignature with the given id is either:
    /// 1) Already generated in which case returns `None`, or
    /// 2) Is currently being generated by `protocol` in which case returns `Some(protocol)`, or
    /// 3) Has never been seen by the manager in which case start a new protocol and returns
    ///    `Some(protocol)`.  The protocol spends the triples `triple0` and `triple1`, which a
    ///    peer has named; where the triple pool is of another epoch or does not hold both,
    ///    nothing is started and nothing is spent.
    pub fn get_or_generate(
        &mut self,
        id: PresignatureId,
        triple0: TripleId,
        triple1: TripleId,
        triples: &mut TripleManager,
    ) -> (found: Result<Option<&mut PresignatureProtocol>, GenerateError>)
        requires
            old(self).wf(),
            old(triples).wf(),
            old(self)@.is_free(id) ==> old(self)@.potential_len() < usize::MAX,
        ensures
            final(self).wf(),
            final(self).untouched_but(old(self), id),
            final(triples).wf(),
            final(triples).untouched(old(triples)),
            match found {
                Ok(None) => {
                    &&& old(self)@.pool.contains(id)
                    &&& final(self)@ == old(self)@
                    &&& final(triples)@ == old(triples)@
                },
                Ok(Some(protocol)) => {
                    &&& !old(self)@.pool.contains(id)
                    &&& final(self).protocols().contains_key(id)
                    &&& final(self).protocols()[id] == *final(protocol)
                    &&& if old(self)@.generating.contains_key(id) {
                        &&& *protocol == old(self).protocols()[id]
                        &&& final(self)@ == old(self)@
                        &&& final(triples)@ == old(triples)@
                    } else {
                        &&& old(self)@.may_spend(old(triples)@)
                        &&& old(triples)@.pool.holds_pair(triple0, triple1)
                        &&& old(self)@.can_start_with(
                            old(triples)@.pool.items[triple0],
                            old(triples)@.pool.items[triple1],
                        )
                        &&& final(self)@ == old(self)@.start(id, false, triple0, triple1)
                        &&& final(triples)@ == old(triples)@.take(triple0).take(triple1)
                    }
                },
                Err(GenerateError::InsufficientTriples) => {
                    &&& old(self)@.is_free(id)
                    &&& !(old(self)@.may_spend(old(triples)@) && old(triples)@.pool.holds_pair(
                        triple0,
                        triple1,
                    ))
                    &&& final(self)@ == old(self)@
                    &&& final(triples)@ == old(triples)@
                },
                Err(GenerateError::Init(_)) => {
                    &&& old(self)@.is_free(id)
                    &&& old(self)@.may_spend(old(triples)@)
                    &&& old(triples)@.pool.holds_pair(triple0, triple1)
                    &&& !old(self)@.can_start_with(
                        old(triples)@.pool.items[triple0],
                        old(triples)@.pool.items[triple1],
                    )
                    &&& final(self)@ == old(self)@
                    &&& final(triples)@ == old(triples)@.take(triple0).take(triple1)
                },
                Err(GenerateError::IdCollision) => false,
            },
    {
        proof {
            if self@.is_free(id) {
                self@.lemma_start_wf(id, false, triple0, triple1);
            }
            if self@.generating.contains_key(id) {
                assert(self@.generating.insert(id, self@.generating[id]) =~= self@.generating);
            }
        }
        let ghost setup = self@.setup();
        if self.store.contains(id) {
            Ok(None)
        } else {
            match self.generators.entry(id) {
                Entry::Occupied(e) => Ok(Some(&mut e.into_mut().protocol)),
                Entry::Vacant(e) => {
                    let pair = if triples.epoch() == self.store.epoch() {
                        triples.take_two(triple0, triple1)
                    } else {
                        None
                    };
                    match pair {
                        None => Err(GenerateError::InsufficientTriples),
                        Some((first, second)) => {
                            match PresignatureProtocol::start(
                                &self.participants,
                                self.me,
                                self.threshold,
                                first,
                                second,
                                &self.key,
                            ) {
                                Err(cause) => Err(GenerateError::Init(cause)),
                                Ok(protocol) => {
                                    let generator = e.insert(
                                        PresignatureGenerator {
                                            protocol,
                                            mine: false,
                                            started_at: None,
                                            triple0,
                                            triple1,
                                            setup: Ghost(setup),
                                        },
                                    );
                                    Ok(Some(&mut generator.protocol))
                                },
                            }
                        },
                    }
                },
            }
        }
    }

    /// Pokes the protocol of the generator `id`, once.
    fn step(&mut self, id: PresignatureId) -> (action: Action<PresignOutput>)
        requires
            old(self).wf(),
            old(self)@.generating.contains_key(id),
        ensures
            final(self).untouched_but(old(self), id),
            final(self)@ == old(self)@,
    {
        proof {
            assert(self@.generating.insert(id, self@.generating[id]) =~= self@.generating);
        }
        match self.generators.entry(id) {
            Entry::Occupied(e) => e.into_mut().protocol.poke(),
            Entry::Vacant(_) => Action::Wait,
        }
    }

    /// A message of the generator `id` with the payload `data`.
    fn stamp(&self, id: PresignatureId, data: Vec<u8>) -> (message: PresignatureMessage)
        requires
            self@.generating.contains_key(id),
        ensures
            message@ == self@.message(id, data@),
    {
        let (triple0, triple1) = match self.generators.get(&id) {
            Some(generator) => (generator.triple0, generator.triple1),
            None => (0, 0),
        };
        PresignatureMessage {
            id,
            triple0,
            triple1,
            epoch: self.store.epoch(),
            from: self.me,
            data,
        }
    }

    /// Adds to the outbox one copy of the payload for each participant but this node.
    fn push_broadcast(
        &self,
        id: PresignatureId,
        data: &Vec<u8>,
        messages: &mut Vec<(Participant, PresignatureMessage)>,
    )
        requires
            self@.generating.contains_key(id),
        ensures
            outbox(final(messages)@) == outbox(old(messages)@) + self@.broadcast(id, data@),
    {
        let ghost message = self@.message(id, data@);
        let ghost before = outbox(messages@);
        let mut i: usize = 0;
        proof {
            lemma_others_push(Seq::empty(), self.me, 0);
            assert(self.participants@.take(0) =~= Seq::<Participant>::empty());
            assert(outbox(messages@) =~= before + fan_out(
                others(self.participants@.take(0), self.me),
                message,
            ));
        }
        while i < self.participants.len()
            invariant
                i <= self.participants@.len(),
                self@.generating.contains_key(id),
                message == self@.message(id, data@),
                outbox(messages@) == before + fan_out(
                    others(self.participants@.take(i as int), self.me),
                    message,
                ),
            decreases self.participants@.len() - i,
        {
            let to = self.participants[i];
            proof {
                lemma_others_push(self.participants@.take(i as int), self.me, to);
                assert(self.participants@.take(i as int + 1) =~= self.participants@.take(
                    i as int,
                ).push(to));
            }
            if to != self.me {
                let ghost sent = outbox(messages@);
                messages.push((to, self.stamp(id, copy_bytes(data))));
                proof {
                    assert(outbox(messages@) =~= sent.push((to, message)));
                    assert(sent.push((to, message)) =~= before + fan_out(
                        others(self.participants@.take(i as int + 1), self.me),
                        message,
                    ));
                }
            }
            i += 1;
        }
        proof {
            assert(self.participants@.take(self.participants@.len() as int) =~= self.participants@);
        }
    }

    /// Does what the action of the generator `id` asks for.  A payload goes to the outbox;
    /// a finished presignature goes to the pool, as this node's own if the generator is,
    /// and the generator leaves; a generator that failed leaves, and its id is free again.
    pub fn apply(
        &mut self,
        id: PresignatureId,
        action: Action<PresignOutput>,
        messages: &mut Vec<(Participant, PresignatureMessage)>,
    ) -> (progress: Progress)
        requires
            old(self).wf(),
            old(self)@.generating.contains_key(id),
        ensures
            final(self).wf(),
            final(self).untouched(old(self)),
            old(self)@.applied(id, action, final(self)@),
            outbox(final(messages)@) == outbox(old(messages)@) + old(self)@.emitted(id, action),
            match action {
                Action::Wait => progress is Waiting,
                Action::SendBroadcast(_) => progress is Continue,
                Action::SendPrivate(_, _) => progress is Continue,
                Action::Done(_) => progress is Completed,
                Action::Failed(cause) => progress == Progress::Failed(
                    ProtocolFailure { id, cause },
                ),
            },
    {
        let ghost before = outbox(messages@);
        let ghost start = self@;
        match action {
            Action::Wait => {
                assert(outbox(messages@) =~= before + Seq::empty());
                Progress::Waiting
            },
            Action::SendBroadcast(data) => {
                self.push_broadcast(id, &data, messages);
                Progress::Continue
            },
            Action::SendPrivate(to, data) => {
                let ghost message = self@.message(id, data@);
                messages.push((to, self.stamp(id, data)));
                proof {
                    assert(outbox(messages@) =~= before + seq![(to, message)]);
                }
                Progress::Continue
            },
            Action::Done(output) => {
                proof {
                    assert(outbox(messages@) =~= before + Seq::empty());
                }
                match self.generators.remove(&id) {
                    Some(generator) => {
                        let presignature = Presignature {
                            id,
                            output,
                            participants: copy_participants(&self.participants),
                            triple0: generator.triple0,
                            triple1: generator.triple1,
                        };
                        proof {
                            start.lemma_complete_wf(presignature);
                            assert(start.finished(id, output, presignature));
                        }
                        self.store.insert(presignature, generator.mine);
                        proof {
                            assert(self@ == start.complete(presignature));
                        }
                    },
                    None => {},
                }
                Progress::Completed
            },
            Action::Failed(cause) => {
                proof {
                    self@.lemma_drop_generator_wf(id);
                    assert(outbox(messages@) =~= before + Seq::empty());
                }
                self.generators.remove(&id);
                Progress::Failed(ProtocolFailure { id, cause })
            },
        }
    }

    /// Takes the generator `id` through its turn: asks its protocol for an action and does
    /// what the action asks for, again and again, until the generator waits, finishes or
    /// fails, or has been asked as often as the budget allows.
    fn advance(
        &mut self,
        id: PresignatureId,
        messages: &mut Vec<(Participant, PresignatureMessage)>,
    ) -> (turn: Turn<Presignature>)
        requires
            old(self).wf(),
            old(self)@.generating.contains_key(id),
        ensures
            final(self).wf(),
            final(self).untouched_but(old(self), id),
            is_turn(turn.actions@),
            turn.progress == progress_of(id, turn.actions@.last()),
            old(self)@.fits_all(turn_steps(id, turn.actions@)),
            final(self)@ == old(self)@.play(turn_steps(id, turn.actions@)),
            outbox(final(messages)@) == outbox(old(messages)@) + old(self)@.played_out(
                turn_steps(id, turn.actions@),
            ),
            failures_of(turn_steps(id, turn.actions@)) == (match turn.progress {
                Progress::Failed(failure) => seq![failure],
                _ => Seq::empty(),
            }),
            match turn.progress {
                Progress::Continue => final(self)@ == old(self)@,
                Progress::Waiting => final(self)@ == old(self)@,
                Progress::Completed => exists|presignature: Presignature|
                    presignature.id == id && final(self)@ == #[trigger] old(self)@.complete(
                        presignature,
                    ),
                Progress::Failed(failure) => failure.id == id && final(self)@ == old(
                    self,
                )@.drop_generator(id),
            },
            outbox(old(messages)@).is_prefix_of(outbox(final(messages)@)),
            old(self)@.sent_by(id, outbox(final(messages)@), old(messages)@.len() as int),
    {
        let ghost start = self@;
        let ghost before = outbox(messages@);
        let ghost untouched = self.protocols();
        let ghost mut actions: Seq<Action<Presignature>> = Seq::empty();
        let mut budget: usize = ACTION_BUDGET;
        proof {
            assert(turn_steps(id, actions) =~= Seq::empty());
            assert(before + start.played_out(turn_steps(id, actions)) =~= before);
        }
        while budget > 0
            invariant
                self.wf(),
                self@ == start,
                untouched == old(self).protocols(),
                untouched.dom() == self.protocols().dom(),
                kept_but(untouched, self.protocols(), Some(id)),
                start == old(self)@,
                before == outbox(old(messages)@),
                start.generating.contains_key(id),
                before.is_prefix_of(outbox(messages@)),
                start.sent_by(id, outbox(messages@), before.len() as int),
                actions.len() + budget == ACTION_BUDGET,
                forall|i: int| 0 <= i < actions.len() ==> goes_on(#[trigger] actions[i]),
                start.play(turn_steps(id, actions)) == start,
                start.fits_all(turn_steps(id, actions)),
                outbox(messages@) == before + start.played_out(turn_steps(id, actions)),
                failures_of(turn_steps(id, actions)) == Seq::<ProtocolFailure>::empty(),
            decreases budget,
        {
            let ghost sent = outbox(messages@);
            let ghost asked = actions;
            let action = self.step(id);
            let ghost taken = action;
            let progress = self.apply(id, action, messages);
            proof {
                let emitted = start.emitted(id, taken);
                assert(outbox(messages@) == sent + emitted);
                assert forall|i: int| 0 <= i < emitted.len() implies (#[trigger] emitted[i]).1
                    == start.message(id, emitted[i].1.data) by {}
                assert(sent.is_prefix_of(sent + emitted));
                assert(before.is_prefix_of(outbox(messages@))) by {
                    assert(before =~= sent.subrange(0, before.len() as int));
                    assert(before =~= outbox(messages@).subrange(0, before.len() as int));
                }
                let made = match taken {
                    Action::Done(output) => choose|presignature: Presignature|
                        start.finished(id, output, presignature) && self@
                            == #[trigger] start.complete(presignature),
                    _ => arbitrary(),
                };
                let step = PresignatureManagerModel::step_of(taken, made);
                actions = asked.push(step);
                let steps = turn_steps(id, actions);
                assert(steps.drop_last() =~= turn_steps(id, asked));
                assert(steps.last() == (id, step));
                assert(start.emitted(id, step) == emitted);
                assert(start.fits(id, step));
                assert(start.play(steps) == self@);
                assert(outbox(messages@) =~= before + start.played_out(steps));
            }
            match progress {
                Progress::Continue => {
                    budget -= 1;
                },
                other => {
                    return Turn { progress: other, actions: Ghost(actions) };
                },
            }
        }
        Turn { progress: Progress::Continue, actions: Ghost(actions) }
    }

    /// Pokes all of the ongoing generation protocols and returns a vector of
    /// messages to be sent to the respective participant.
    ///
    /// An empty vector means we cannot progress until we receive a new message.
    ///
    /// Every generator has its turn, once: its protocol is asked for an action, and again
    /// after every message, until it waits, finishes or fails, or has been asked as often
    /// as the budget allows.  One that finishes leaves its presignature in the pool; one that
    /// fails is dropped, and the round goes on with the others.  The messages are in the
    /// order in which the protocols have emitted them.  Where a generator has failed, the
    /// round ends in an error that names every failure; the messages of the round are then
    /// in the error.  Without generators nothing happens.
    pub fn poke(
        &mut self,
    ) -> (sent: Result<Vec<(Participant, PresignatureMessage)>, PresignaturePokeError>)
        requires
            old(self).wf(),
        ensures
            final(self).wf(),
            old(self)@.poked(final(self)@),
            match sent {
                Ok(messages) => {
                    &&& exists|turns: Seq<(PresignatureId, Seq<Action<Presignature>>)>|
                        #[trigger] old(self)@.round_of(
                            turns,
                            final(self)@,
                            outbox(messages@),
                            Seq::empty(),
                        )
                    &&& old(self)@.settled(final(self)@, Set::empty())
                    &&& old(self)@.owns_all(outbox(messages@))
                },
                Err(error) => {
                    &&& error.failures@.len() > 0
                    &&& exists|turns: Seq<(PresignatureId, Seq<Action<Presignature>>)>|
                        #[trigger] old(self)@.round_of(
                            turns,
                            final(self)@,
                            outbox(error.messages@),
                            error.failures@,
                        )
                    &&& old(self)@.reported(final(self)@, error.failures@)
                    &&& old(self)@.settled(final(self)@, failed_ids(error.failures@))
                    &&& old(self)@.owns_all(outbox(error.messages@))
                },
            },
            old(self)@.generating.len() == 0 ==> ({
                &&& sent matches Ok(messages)
                &&& messages@.len() == 0
                &&& final(self)@ == old(self)@
            }),
    {
        let ghost start = self@;
        // the turns that the generators have had, in the order of `ids`
        let ghost mut turns: Seq<(PresignatureId, Seq<Action<Presignature>>)> = Seq::empty();
        let ids = collect_keys(&self.generators);
        let mut messages: Vec<(Participant, PresignatureMessage)> = Vec::new();
        let mut failures: Vec<ProtocolFailure> = Vec::new();
        // where in `ids` each of the failures was found
        let ghost mut found: Seq<int> = Seq::empty();
        let mut i: usize = 0;
        proof {
            start.lemma_poked_same();
            assert forall|j: int| 0 <= j < ids@.len() implies self@.generating.contains_key(
                #[trigger] ids@[j],
            ) by {
                assert(ids@.contains(ids@[j]));
            }
            assert(outbox(messages@) =~= start.played_out(round_steps(turns)));
            if start.generating.len() == 0 {
                assert(start.generating.dom() =~= Set::empty());
                if ids@.len() > 0 {
                    assert(ids@.contains(ids@[0]));
                }
            }
        }
        while i < ids.len()
            invariant
                i <= ids@.len(),
                start == old(self)@,
                turns.len() == i,
                forall|k: int| 0 <= k < turns.len() ==> (#[trigger] turns[k]).0 == ids@[k],
                forall|k: int| 0 <= k < turns.len() ==> is_turn((#[trigger] turns[k]).1),
                self@ == start.play(round_steps(turns)),
                start.fits_all(round_steps(turns)),
                outbox(messages@) == start.played_out(round_steps(turns)),
                failures@ == failures_of(round_steps(turns)),
                self.wf(),
                start.wf(),
                start.poked(self@),
                start.owns_all(outbox(messages@)),
                ids@.no_duplicates(),
                forall|id: PresignatureId| ids@.contains(id) <==> start.generating.contains_key(id),
                // the generators that have not had their turn are as they were
                forall|j: int|
                    i <= j < ids@.len() ==> self@.generating.contains_key(#[trigger] ids@[j]),
                // those that have had it are accounted for
                forall|j: int|
                    0 <= j < i ==> self@.generating.contains_key(#[trigger] ids@[j])
                        || self@.pool.contains(ids@[j]) || failed_ids(failures@).contains(ids@[j]),
                // the failures are reported in the order of `ids`, and their ids are free
                found.len() == failures@.len(),
                forall|k: int|
                    0 <= k < found.len() ==> 0 <= #[trigger] found[k] < i && ids@[found[k]]
                        == failures@[k].id,
                forall|k: int, l: int| 0 <= k < l < found.len() ==> found[k] < found[l],
                forall|k: int|
                    0 <= k < failures@.len() ==> self@.is_free((#[trigger] failures@[k]).id),
            decreases ids@.len() - i,
        {
            let id = ids[i];
            let ghost before = self@;
            let ghost sent = outbox(messages@);
            let ghost failed = failures@;
            assert(ids@.contains(ids@[i as int]));
            let ghost played = round_steps(turns);
            let turn = self.advance(id, &mut messages);
            let progress = turn.progress;
            proof {
                let steps = turn_steps(id, turn.actions@);
                let had = turns;
                turns = had.push((id, turn.actions@));
                assert(turns.drop_last() =~= had);
                assert(turns.last() == (id, turn.actions@));
                assert(round_steps(turns) == played + steps);
                start.lemma_play_append(played, steps);
                lemma_failures_append(played, steps);
                assert(outbox(messages@) =~= start.played_out(round_steps(turns)));
                assert forall|m: int| 0 <= m < messages@.len() implies start.owns(
                    (#[trigger] outbox(messages@)[m]).1,
                ) by {
                    if m < sent.len() {
                        assert(outbox(messages@)[m] == sent[m]);
                    } else {
                        assert(before.owns(outbox(messages@)[m].1));
                    }
                }
                match progress {
                    Progress::Completed => {
                        let presignature = choose|presignature: Presignature|
                            presignature.id == id && self@ == #[trigger] before.complete(presignature);
                        before.lemma_poked_complete(presignature);
                        before.lemma_complete_wf(presignature);
                    },
                    Progress::Failed(_) => {
                        before.lemma_poked_drop(id);
                    },
                    _ => {
                        before.lemma_poked_same();
                    },
                }
                start.lemma_poked_twice(before, self@);
                // only the generator `id` has changed
                assert forall|j: int| 0 <= j < ids@.len() && j != i implies (
                self@.generating.contains_key(#[trigger] ids@[j]) <==> before.generating.contains_key(
                    ids@[j],
                )) && (self@.pool.contains(ids@[j]) <==> before.pool.contains(ids@[j])) by {
                    assert(ids@[j] != ids@[i as int]);
                }
                assert forall|k: int| 0 <= k < failed.len() implies self@.is_free(
                    (#[trigger] failed[k]).id,
                ) by {
                    assert(ids@[found[k]] != ids@[i as int]);
                }
            }
            match progress {
                Progress::Failed(failure) => {
                    failures.push(failure);
                    proof {
                        assert(failures@ =~= failures_of(round_steps(turns)));
                        found = found.push(i as int);
                        assert forall|j: int| 0 <= j < i + 1 implies self@.generating.contains_key(
                            #[trigger] ids@[j],
                        ) || self@.pool.contains(ids@[j]) || failed_ids(failures@).contains(
                            ids@[j],
                        ) by {
                            if j == i {
                                assert(failures@[failed.len() as int].id == ids@[j]);
                            } else if failed_ids(failed).contains(ids@[j]) {
                                let k = choose|k: int|
                                    0 <= k < failed.len() && (#[trigger] failed[k]).id == ids@[j];
                                assert(failures@[k].id == ids@[j]);
                            }
                        }
                        assert forall|k: int| 0 <= k < failures@.len() implies self@.is_free(
                            (#[trigger] failures@[k]).id,
                        ) by {
                            if k < failed.len() {
                                assert(failures@[k] == failed[k]);
                            }
                        }
                    }
                },
                _ => {
                    proof {
                        assert(failures@ =~= failures_of(round_steps(turns)));
                        assert forall|j: int| 0 <= j < i + 1 implies self@.generating.contains_key(
                            #[trigger] ids@[j],
                        ) || self@.pool.contains(ids@[j]) || failed_ids(failures@).contains(
                            ids@[j],
                        ) by {}
                    }
                },
            }
            i += 1;
        }
        proof {
            assert forall|id: PresignatureId| #[trigger]
                start.generating.contains_key(id) implies self@.generating.contains_key(id)
                || self@.pool.contains(id) || failed_ids(failures@).contains(id) by {
                assert(ids@.contains(id));
                let j = ids@.index_of(id);
                assert(self@.generating.contains_key(ids@[j]) || self@.pool.contains(ids@[j])
                    || failed_ids(failures@).contains(ids@[j]));
            }
            assert forall|k: int| 0 <= k < failures@.len() implies start.generating.contains_key(
                (#[trigger] failures@[k]).id,
            ) by {
                assert(ids@.contains(ids@[found[k]]));
            }
            assert forall|k: int, l: int| 0 <= k < l < failures@.len() implies (
            #[trigger] failures@[k]).id != (#[trigger] failures@[l]).id by {
                assert(found[k] < found[l]);
                assert(ids@[found[k]] != ids@[found[l]]);
            }
        }
        proof {
            assert forall|k: int| 0 <= k < turns.len() implies start.generating.contains_key(
                (#[trigger] turns[k]).0,
            ) by {
                assert(ids@.contains(ids@[k]));
            }
            assert forall|id: PresignatureId| start.generating.contains_key(id) implies exists|
                k: int,
            | 0 <= k < turns.len() && (#[trigger] turns[k]).0 == id by {
                assert(ids@.contains(id));
                let k = ids@.index_of(id);
                assert(turns[k].0 == id);
            }
            assert(start.is_round(turns));
            assert(start.round_of(turns, self@, outbox(messages@), failures@));
        }
        if failures.len() == 0 {
            proof {
                assert(failed_ids(failures@) =~= Set::empty());
                assert(failures@ =~= Seq::empty());
            }
            Ok(messages)
        } else {
            Err(PresignaturePokeError { failures, messages })
        }
    }

    /// This node.
    pub fn me(&self) -> (me: Participant)
        ensures
            me == self@.me,
    {
        self.me
    }

    /// The threshold of the current epoch.
    pub fn threshold(&self) -> (threshold: usize)
        ensures
            threshold == self@.threshold,
    {
        self.threshold
    }

    /// The current epoch.
    pub fn epoch(&self) -> (epoch: u64)
        ensures
            epoch == self@.epoch(),
    {
        self.store.epoch()
    }

    /// The number of presignatures, completed or in the making, that supply aims for.
    pub fn target_count(&self) -> (target_count: usize)
        ensures
            target_count == self@.target_count,
    {
        self.target_count
    }

    /// The participants of the current epoch.
    pub fn participants(&self) -> (participants: &Vec<Participant>)
        ensures
            participants@ == self@.participants,
    {
        &self.participants
    }

    /// The ids of all unspent presignatures, each once, in no particular order.
    pub fn ids(&self) -> (ids: Vec<PresignatureId>)
        ensures
            ids@.no_duplicates(),
            forall|id: PresignatureId| ids@.contains(id) <==> self@.pool.contains(id),
    {
        self.store.ids()
    }

    /// The ids of this node's own unspent presignatures, oldest first.
    pub fn iter_mine_ids(&self) -> (ids: Vec<PresignatureId>)
        ensures
            ids@ == self@.pool.mine,
    {
        self.store.iter_mine_ids()
    }

    /// Sweeps the generators at the time `now`.  A generator that no sweep has seen before
    /// is marked with `now`.  One that was marked more than `timeout` ago is dropped, and
    /// its id is free again.  Returns the ids that were dropped, each once.
    pub fn expire(&mut self, now: u64, timeout: u64) -> (dropped: Vec<PresignatureId>)
        requires
            old(self).wf(),
        ensures
            final(self).wf(),
            final(self).untouched(old(self)),
            final(self)@ == old(self)@.expire(now, timeout),
            dropped@.no_duplicates(),
            forall|id: PresignatureId|
                dropped@.contains(id) <==> old(self)@.expired(now, timeout).contains(id),
    {
        let ghost start = self@;
        let ghost untouched = self.protocols();
        let ids = collect_keys(&self.generators);
        let mut dropped: Vec<PresignatureId> = Vec::new();
        let mut i: usize = 0;
        proof {
            assert(self@ =~= start.swept(ids@.take(0).to_set(), now, timeout));
        }
        while i < ids.len()
            invariant
                i <= ids@.len(),
                untouched == old(self).protocols(),
                kept_but(untouched, self.protocols(), None),
                self.protocols().dom().subset_of(untouched.dom()),
                self.wf(),
                start.wf(),
                ids@.no_duplicates(),
                forall|id: PresignatureId| ids@.contains(id) <==> start.generating.contains_key(id),
                self@ == start.swept(ids@.take(i as int).to_set(), now, timeout),
                dropped@.no_duplicates(),
                forall|id: PresignatureId|
                    dropped@.contains(id) <==> ids@.take(i as int).contains(id)
                        && start.expired(now, timeout).contains(id),
            decreases ids@.len() - i,
        {
            let id = ids[i];
            let ghost before = self@;
            let ghost seen = ids@.take(i as int);
            let ghost gone = dropped@;
            proof {
                assert(ids@.contains(ids@[i as int]));
                assert(!seen.contains(id)) by {
                    if seen.contains(id) {
                        let j = seen.index_of(id);
                        assert(ids@[j] == ids@[i as int]);
                    }
                }
                assert(ids@.take(i as int + 1) =~= seen.push(id));
                assert forall|other: PresignatureId|
                    seen.push(id).to_set().contains(other) <==> seen.to_set().contains(other)
                        || other == id by {
                    lemma_push_contains(seen, id, other);
                }
                assert(before.generating.contains_key(id));
                assert(before.generating[id] == start.generating[id]);
                before.lemma_drop_generator_wf(id);
                before.lemma_mark_wf(id, now);
            }
            match self.generators.remove(&id) {
                Some(generator) => {
                    let expired = match generator.started_at {
                        Some(started) => now > started && now - started > timeout,
                        None => false,
                    };
                    if expired {
                        dropped.push(id);
                        proof {
                            assert forall|other: PresignatureId|
                                dropped@.contains(other) <==> gone.contains(other) || other
                                    == id by {
                                lemma_push_contains(gone, id, other);
                            }
                            assert forall|a: int, b: int|
                                0 <= a < b < dropped@.len() implies dropped@[a] != dropped@[b] by {
                                if b == gone.len() {
                                    assert(gone.contains(gone[a]));
                                }
                            }
                        }
                    } else {
                        let started_at = match generator.started_at {
                            Some(started) => Some(started),
                            None => Some(now),
                        };
                        self.generators.insert(
                            id,
                            PresignatureGenerator {
                                protocol: generator.protocol,
                                mine: generator.mine,
                                started_at,
                                triple0: generator.triple0,
                                triple1: generator.triple1,
                                setup: generator.setup,
                            },
                        );
                    }
                },
                None => {},
            }
            proof {
                assert(self@ =~= start.swept(seen.push(id).to_set(), now, timeout));
                assert forall|other: PresignatureId|
                    dropped@.contains(other) <==> ids@.take(i as int + 1).contains(other)
                        && start.expired(now, timeout).contains(other) by {
                    lemma_push_contains(seen, id, other);
                    lemma_push_contains(gone, id, other);
                    assert(gone.contains(other) <==> seen.contains(other) && start.expired(
                        now,
                        timeout,
                    ).contains(other));
                }
            }
            i += 1;
        }
        proof {
            assert(ids@.take(ids@.len() as int) =~= ids@);
            assert(self@ =~= start.expire(now, timeout));
        }
        dropped
    }

    /// Moves the manager to a later epoch, with the participants, the threshold and the key
    /// share that hold in it.  Every generator is dropped and every completed presignature
    /// is evicted: both belong to the epoch that is left.  An epoch that is not later
    /// changes nothing.
    pub fn advance_epoch(
        &mut self,
        participants: Vec<Participant>,
        threshold: usize,
        epoch: u64,
        key: KeyShare,
    ) -> (advanced: bool)
        requires
            old(self).wf(),
        ensures
            final(self).wf(),
            final(self).untouched(old(self)),
            advanced == (epoch > old(self)@.epoch()),
            advanced ==> final(self)@ == old(self)@.advance(participants@, threshold, epoch),
            !advanced ==> final(self)@ == old(self)@,
    {
        if epoch <= self.store.epoch() {
            return false;
        }
        self.generators.clear();
        self.store.advance_epoch(epoch);
        self.participants = participants;
        self.threshold = threshold;
        self.key = key;
        proof {
            assert(self@.generating =~= Map::<PresignatureId, PresigningInfo>::empty());
        }
        true
    }
}

} // verus!
