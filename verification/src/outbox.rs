//! The messages that the generators have to send.

use crate::types::Participant;
use vstd::prelude::*;

verus! {

/// The messages in an outbox, each as a mathematical value beside its recipient.
pub open spec fn outbox<M: View>(messages: Seq<(Participant, M)>) -> Seq<(Participant, M::V)> {
    messages.map_values(|m: (Participant, M)| (m.0, m.1@))
}

/// The participants that a broadcast of `me` goes to: all but `me`, in their order.
pub open spec fn others(participants: Seq<Participant>, me: Participant) -> Seq<Participant> {
    participants.filter(|p: Participant| p != me)
}

/// How the recipients of a broadcast grow with the participants: one more participant is
/// one more recipient, unless it is the sender.
pub proof fn lemma_others_push(participants: Seq<Participant>, me: Participant, next: Participant)
    ensures
        others(participants.push(next), me) == if next != me {
            others(participants, me).push(next)
        } else {
            others(participants, me)
        },
        others(Seq::<Participant>::empty(), me) == Seq::<Participant>::empty(),
{
    reveal(Seq::filter);
    assert(participants.push(next).drop_last() =~= participants);
}

/// One copy of `message` for each of the `recipients`.
pub open spec fn fan_out<V>(recipients: Seq<Participant>, message: V) -> Seq<(Participant, V)> {
    recipients.map_values(|p: Participant| (p, message))
}

} // verus!
