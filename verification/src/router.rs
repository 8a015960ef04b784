//! Routing of inbound protocol messages to the generator they are meant for.
//!
//! A message names an epoch and an item.  A message of another epoch is dropped, and so
//! is one for an item that is already completed.  Any other message goes to the item's
//! generator, which is started first if this node has not heard of the item.  A presigning
//! cannot be started before this node holds the two triples it is to spend: until then
//! the router holds the message back, for a bounded time.

use crate::presignature::PresignatureManager;
use crate::presignature::PresignatureManagerModel;
use crate::triple::TripleManager;
use crate::triple::TripleManagerModel;
use crate::types::PresignatureMessage;
use crate::types::TripleMessage;
use crate::generator::kept_but;
use vstd::prelude::*;

verus! {

/// What became of an inbound message.
#[derive(Debug, Clone, Copy, PartialEq, Eq, Structural)]
pub enum Routed {
    /// The payload was handed to the generator the message names; the generator was
    /// started first if this node had not heard of the item.
    Delivered,
    /// The message belongs to another epoch.  It was dropped.
    StaleEpoch,
    /// The item that the message names is already completed.  The message was dropped.
    AlreadyCompleted,
    /// The message names an item this node has not heard of, and the manager cannot count
    /// another generator.  The message was dropped.
    NoRoom,
    /// The message names an item this node has not heard of, and the protocol refused to
    /// start a generator for it.  The message was dropped.
    Refused,
    /// The message names a presignature this node has not heard of, and this node does
    /// not hold both triples that it is to spend.  The message is held back.
    Buffered,
    /// The message was held back for longer than the router's patience.  It was dropped.
    Expired,
}

/// An inbound protocol message, by its kind.
#[derive(Debug)]
pub enum Inbound {
    Triple(TripleMessage),
    Presignature(PresignatureMessage),
}

/// What `route_triple` makes of a manager and a message: the outcome, and the manager
/// afterwards.
pub open spec fn triple_routing(before: TripleManagerModel, message: TripleMessage) -> (
    Routed,
    TripleManagerModel,
) {
    let id = message.id;
    if message.epoch != before.epoch() {
        (Routed::StaleEpoch, before)
    } else if before.pool.contains(id) {
        (Routed::AlreadyCompleted, before)
    } else if before.generating.contains_key(id) {
        (Routed::Delivered, before)
    } else if before.potential_len() >= usize::MAX {
        (Routed::NoRoom, before)
    } else if !before.can_start() {
        (Routed::Refused, before)
    } else {
        (Routed::Delivered, before.start(id, false))
    }
}

/// Hands an inbound triple message to the generator it names.  A message of another epoch
/// is dropped; so is one for a triple that is already completed.  For a triple that this
/// node has not heard of, a generator is started on a peer's initiative.
pub fn route_triple(triples: &mut TripleManager, message: TripleMessage) -> (routed: Routed)
    requires
        old(triples).wf(),
    ensures
        final(triples).wf(),
        routed == triple_routing(old(triples)@, message).0,
        final(triples)@ == triple_routing(old(triples)@, message).1,
        final(triples).untouched_but(old(triples), message.id),
{
    if message.epoch != triples.epoch() {
        return Routed::StaleEpoch;
    }
    if !triples.contains(message.id) && !triples.is_generating(message.id)
        && triples.potential_len() == usize::MAX {
        return Routed::NoRoom;
    }
    match triples.get_or_generate(message.id) {
        Ok(Some(protocol)) => {
            protocol.message(message.from, message.data);
            Routed::Delivered
        },
        Ok(None) => Routed::AlreadyCompleted,
        Err(_) => Routed::Refused,
    }
}

/// What routing a presignature message makes of the two managers: the outcome, and the
/// managers afterwards.  A presigning that is started spends the two triples that the
/// message names; so does one that the protocol refuses.  A message has to wait while the
/// triple manager does not hold both triples, or is in another epoch.
pub open spec fn presignature_routing(
    before: PresignatureManagerModel,
    triples: TripleManagerModel,
    message: PresignatureMessage,
) -> (Routed, PresignatureManagerModel, TripleManagerModel) {
    let id = message.id;
    let spent = triples.take(message.triple0).take(message.triple1);
    if message.epoch != before.epoch() {
        (Routed::StaleEpoch, before, triples)
    } else if before.pool.contains(id) {
        (Routed::AlreadyCompleted, before, triples)
    } else if before.generating.contains_key(id) {
        (Routed::Delivered, before, triples)
    } else if before.potential_len() >= usize::MAX {
        (Routed::NoRoom, before, triples)
    } else if !before.may_spend(triples) || !triples.pool.holds_pair(
        message.triple0,
        message.triple1,
    ) {
        (Routed::Buffered, before, triples)
    } else if !before.can_start_with(
        triples.pool.items[message.triple0],
        triples.pool.items[message.triple1],
    ) {
        (Routed::Refused, before, spent)
    } else {
        (Routed::Delivered, before.start(id, false, message.triple0, message.triple1), spent)
    }
}

/// A presignature message that is held back, with the time it arrived at.
pub struct Held {
    pub message: PresignatureMessage,
    pub since: u64,
}

impl Held {
    /// Whether the message has been held for longer than `patience` at the time `now`.
    pub open spec fn expired(self, now: u64, patience: u64) -> bool {
        now > self.since && now - self.since > patience
    }
}

/// Whether one of the held messages names the presignature `id`.
pub open spec fn names(held: Seq<Held>, id: u64) -> bool {
    exists|i: int| 0 <= i < held.len() && (#[trigger] held[i]).message.id == id
}

/// What one pass over held messages makes of them and of the two managers: the messages
/// that are still held, the outcome of each message in turn, and the managers afterwards.
/// A message that has been held for too long is dropped; every other message is routed
/// as if it had just arrived, and is held on if it has to be held back again.
pub open spec fn retried(
    held: Seq<Held>,
    now: u64,
    patience: u64,
    presignatures: PresignatureManagerModel,
    triples: TripleManagerModel,
) -> (Seq<Held>, Seq<Routed>, PresignatureManagerModel, TripleManagerModel)
    decreases held.len(),
{
    if held.len() == 0 {
        (Seq::empty(), Seq::empty(), presignatures, triples)
    } else {
        let earlier = retried(held.drop_last(), now, patience, presignatures, triples);
        let last = held.last();
        if last.expired(now, patience) {
            (earlier.0, earlier.1.push(Routed::Expired), earlier.2, earlier.3)
        } else {
            let routing = presignature_routing(earlier.2, earlier.3, last.message);
            (
                if routing.0 is Buffered {
                    earlier.0.push(last)
                } else {
                    earlier.0
                },
                earlier.1.push(routing.0),
                routing.1,
                routing.2,
            )
        }
    }
}

/// Routes the messages of presignings, and holds back those that have come too early.
pub struct MessageRouter {
    /// The messages that are held back, in the order of their arrival.
    pending: Vec<Held>,
    /// How long a message is held back before it is dropped.
    patience: u64,
}

/// A router, as a mathematical value.
pub struct RouterModel {
    pub pending: Seq<Held>,
    pub patience: u64,
}

impl View for MessageRouter {
    type V = RouterModel;

    closed spec fn view(&self) -> RouterModel {
        RouterModel { pending: self.pending@, patience: self.patience }
    }
}

impl MessageRouter {
    /// A router that holds nothing back yet, and will hold a message for `patience`.
    pub fn new(patience: u64) -> (router: Self)
        ensures
            router@.pending == Seq::<Held>::empty(),
            router@.patience == patience,
    {
        MessageRouter { pending: Vec::new(), patience }
    }

    /// How many messages are held back.
    pub fn pending_len(&self) -> (len: usize)
        ensures
            len == self@.pending.len(),
    {
        self.pending.len()
    }

    /// How long a message is held back before it is dropped.
    pub fn patience(&self) -> (patience: u64)
        ensures
            patience == self@.patience,
    {
        self.patience
    }

    /// Drops every message that is held back.
    pub fn clear(&mut self)
        ensures
            final(self)@.pending == Seq::<Held>::empty(),
            final(self)@.patience == old(self)@.patience,
    {
        self.pending.clear();
    }

    /// Routes one message, which has arrived at `held.since`.  A message that has to be
    /// held back joins the messages that are held.
    fn route_held(
        &mut self,
        presignatures: &mut PresignatureManager,
        triples: &mut TripleManager,
        held: Held,
    ) -> (routed: Routed)
        requires
            old(presignatures).wf(),
            old(triples).wf(),
        ensures
            final(presignatures).wf(),
            final(triples).wf(),
            routed == presignature_routing(old(presignatures)@, old(triples)@, held.message).0,
            final(presignatures)@ == presignature_routing(
                old(presignatures)@,
                old(triples)@,
                held.message,
            ).1,
            final(triples)@ == presignature_routing(
                old(presignatures)@,
                old(triples)@,
                held.message,
            ).2,
            final(self)@.patience == old(self)@.patience,
            final(self)@.pending == if routed is Buffered {
                old(self)@.pending.push(held)
            } else {
                old(self)@.pending
            },
            final(presignatures).untouched_but(old(presignatures), held.message.id),
            final(triples).untouched(old(triples)),
    {
        let id = held.message.id;
        if held.message.epoch != presignatures.epoch() {
            return Routed::StaleEpoch;
        }
        if !presignatures.contains(id) && !presignatures.is_generating(id)
            && presignatures.potential_len() == usize::MAX {
            return Routed::NoRoom;
        }
        let found = presignatures.get_or_generate(
            id,
            held.message.triple0,
            held.message.triple1,
            triples,
        );
        match found {
            Ok(Some(protocol)) => {
                protocol.message(held.message.from, held.message.data);
                Routed::Delivered
            },
            Ok(None) => Routed::AlreadyCompleted,
            Err(crate::errors::GenerateError::InsufficientTriples) => {
                self.pending.push(held);
                Routed::Buffered
            },
            Err(_) => Routed::Refused,
        }
    }

    /// Hands an inbound presignature message, which has arrived at the time `now`, to the
    /// generator it names.  A message of another epoch is dropped; so is one for a
    /// presignature that is already completed.  For a presignature that this node has not
    /// heard of, a generator is started on a peer's initiative, which spends the two
    /// triples that the message names.  Where this node does not hold both, the message is
    /// held back.
    pub fn route_presignature(
        &mut self,
        presignatures: &mut PresignatureManager,
        triples: &mut TripleManager,
        message: PresignatureMessage,
        now: u64,
    ) -> (routed: Routed)
        requires
            old(presignatures).wf(),
            old(triples).wf(),
        ensures
            final(presignatures).wf(),
            final(triples).wf(),
            routed == presignature_routing(old(presignatures)@, old(triples)@, message).0,
            final(presignatures)@ == presignature_routing(
                old(presignatures)@,
                old(triples)@,
                message,
            ).1,
            final(triples)@ == presignature_routing(old(presignatures)@, old(triples)@, message).2,
            final(self)@.patience == old(self)@.patience,
            final(self)@.pending == if routed is Buffered {
                old(self)@.pending.push(Held { message, since: now })
            } else {
                old(self)@.pending
            },
            final(presignatures).untouched_but(old(presignatures), message.id),
            final(triples).untouched(old(triples)),
    {
        self.route_held(presignatures, triples, Held { message, since: now })
    }

    /// Hands an inbound message, which has arrived at the time `now`, to the manager of its
    /// kind: a triple message as `route_triple` does, a presignature message as
    /// `route_presignature` does.
    pub fn route(
        &mut self,
        presignatures: &mut PresignatureManager,
        triples: &mut TripleManager,
        inbound: Inbound,
        now: u64,
    ) -> (routed: Routed)
        requires
            old(presignatures).wf(),
            old(triples).wf(),
        ensures
            final(presignatures).wf(),
            final(triples).wf(),
            final(self)@.patience == old(self)@.patience,
            match inbound {
                Inbound::Triple(message) => {
                    &&& routed == triple_routing(old(triples)@, message).0
                    &&& final(triples)@ == triple_routing(old(triples)@, message).1
                    &&& final(triples).untouched_but(old(triples), message.id)
                    &&& final(presignatures)@ == old(presignatures)@
                    &&& final(presignatures).untouched(old(presignatures))
                    &&& final(self)@.pending == old(self)@.pending
                },
                Inbound::Presignature(message) => {
                    let routing = presignature_routing(old(presignatures)@, old(triples)@, message);
                    &&& routed == routing.0
                    &&& final(presignatures)@ == routing.1
                    &&& final(presignatures).untouched_but(old(presignatures), message.id)
                    &&& final(triples)@ == routing.2
                    &&& final(triples).untouched(old(triples))
                    &&& final(self)@.pending == if routed is Buffered {
                        old(self)@.pending.push(Held { message, since: now })
                    } else {
                        old(self)@.pending
                    }
                },
            },
    {
        match inbound {
            Inbound::Triple(message) => route_triple(triples, message),
            Inbound::Presignature(message) => {
                self.route_presignature(presignatures, triples, message, now)
            },
        }
    }

    /// Goes once over the messages that are held back, at the time `now`, oldest first.
    /// A message that has been held for longer than the router's patience is dropped.
    /// Every other message is routed again; it is held on if this node still does not hold
    /// the triples it names.  Returns what became of each message, in their order.
    pub fn retry(
        &mut self,
        presignatures: &mut PresignatureManager,
        triples: &mut TripleManager,
        now: u64,
    ) -> (outcomes: Vec<Routed>)
        requires
            old(presignatures).wf(),
            old(triples).wf(),
        ensures
            final(presignatures).wf(),
            final(triples).wf(),
            final(self)@.patience == old(self)@.patience,
            final(self)@.pending == retried(
                old(self)@.pending,
                now,
                old(self)@.patience,
                old(presignatures)@,
                old(triples)@,
            ).0,
            outcomes@ == retried(
                old(self)@.pending,
                now,
                old(self)@.patience,
                old(presignatures)@,
                old(triples)@,
            ).1,
            final(presignatures)@ == retried(
                old(self)@.pending,
                now,
                old(self)@.patience,
                old(presignatures)@,
                old(triples)@,
            ).2,
            final(triples)@ == retried(
                old(self)@.pending,
                now,
                old(self)@.patience,
                old(presignatures)@,
                old(triples)@,
            ).3,
            final(triples).untouched(old(triples)),
            forall|id: u64|
                !names(old(self)@.pending, id) && old(presignatures).protocols().contains_key(id)
                    ==> #[trigger] final(presignatures).protocols()[id]
                    == old(presignatures).protocols()[id],
    {
        let ghost all = self.pending@;
        let ghost patience = self.patience;
        let ghost untouched = presignatures.protocols();
        let ghost triples_untouched = triples.protocols();
        let ghost presignatures_before = presignatures@;
        let ghost triples_before = triples@;
        let mut waiting: Vec<Held> = Vec::new();
        std::mem::swap(&mut waiting, &mut self.pending);
        // the oldest message is handled first: turn the queue round, and take from its end
        let mut reversed: Vec<Held> = Vec::new();
        while waiting.len() > 0
            invariant
                all.len() == waiting@.len() + reversed@.len(),
                forall|i: int| 0 <= i < waiting@.len() ==> waiting@[i] == all[i],
                forall|i: int|
                    0 <= i < reversed@.len() ==> reversed@[i] == all[all.len() - 1 - i],
            decreases waiting@.len(),
        {
            match waiting.pop() {
                Some(held) => reversed.push(held),
                None => {},
            }
        }
        let mut outcomes: Vec<Routed> = Vec::new();
        let ghost mut done: int = 0;
        proof {
            assert(all.take(0) =~= Seq::<Held>::empty());
        }
        while reversed.len() > 0
            invariant
                presignatures.wf(),
                triples.wf(),
                untouched == old(presignatures).protocols(),
                triples_untouched == old(triples).protocols(),
                triples_untouched.dom() == triples.protocols().dom(),
                kept_but(triples_untouched, triples.protocols(), None),
                untouched.dom().subset_of(presignatures.protocols().dom()),
                forall|id: u64|
                    !names(all.take(done), id) && untouched.contains_key(id)
                        ==> #[trigger] presignatures.protocols()[id] == untouched[id],
                self@.patience == patience,
                0 <= done <= all.len(),
                reversed@.len() == all.len() - done,
                forall|i: int|
                    0 <= i < reversed@.len() ==> reversed@[i] == all[all.len() - 1 - i],
                self@.pending == retried(
                    all.take(done),
                    now,
                    patience,
                    presignatures_before,
                    triples_before,
                ).0,
                outcomes@ == retried(
                    all.take(done),
                    now,
                    patience,
                    presignatures_before,
                    triples_before,
                ).1,
                presignatures@ == retried(
                    all.take(done),
                    now,
                    patience,
                    presignatures_before,
                    triples_before,
                ).2,
                triples@ == retried(
                    all.take(done),
                    now,
                    patience,
                    presignatures_before,
                    triples_before,
                ).3,
            decreases reversed@.len(),
        {
            match reversed.pop() {
                Some(held) => {
                    let ghost so_far = presignatures.protocols();
                    let ghost model_so_far = presignatures@;
                    proof {
                        assert(forall|id: u64|
                            so_far.contains_key(id) <==> model_so_far.generating.contains_key(id)) by {
                            presignatures.lemma_protocols();
                        }
                        assert(held == all[done]);
                        assert(all.take(done + 1).drop_last() =~= all.take(done));
                        assert(all.take(done + 1).last() == held);
                        presignatures.lemma_protocols();
                        triples.lemma_protocols();
                    }
                    let routed = if now > held.since && now - held.since > self.patience {
                        Routed::Expired
                    } else {
                        self.route_held(presignatures, triples, held)
                    };
                    outcomes.push(routed);
                    proof {
                        presignatures.lemma_protocols();
                        triples.lemma_protocols();
                        assert forall|id: u64|
                            !names(all.take(done + 1), id) && untouched.contains_key(
                                id,
                            ) implies #[trigger] presignatures.protocols()[id] == untouched[id] by {
                            assert(all.take(done + 1)[done] == held);
                            assert(held.message.id != id);
                            if names(all.take(done), id) {
                                let i = choose|i: int|
                                    0 <= i < all.take(done).len() && (#[trigger] all.take(
                                        done,
                                    )[i]).message.id == id;
                                assert(all.take(done + 1)[i].message.id == id);
                            }
                            assert(so_far.contains_key(id));
                            assert(so_far[id] == untouched[id]);
                            assert(presignatures@.generating.contains_key(id));
                            assert(presignatures.protocols().contains_key(id));
                        }
                        done = done + 1;
                    }
                },
                None => {},
            }
        }
        proof {
            assert(all.take(all.len() as int) =~= all);
        }
        outcomes
    }
}

} // verus!
