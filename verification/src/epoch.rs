//! The change of epoch.
//!
//! The cluster moves to a later epoch whenever its participants or its threshold change.
//! What a node has made, or is making, belongs to the epoch it was started in and is of no
//! use in another: a change of epoch cancels it all.

use crate::presignature::PresignatureManager;
use crate::protocol::copy_participants;
use crate::router::Held;
use crate::router::MessageRouter;
use crate::triple::TripleManager;
use crate::types::KeyShare;
use crate::types::Participant;
use vstd::prelude::*;

verus! {

/// Moves a node to a later epoch, with the participants, the threshold and the key share
/// that hold in it.  In both managers every generator is dropped and every completed item
/// is evicted, and the router drops the messages it holds back.  An epoch that is not
/// later than that of both managers changes nothing.
pub fn advance_epoch(
    triples: &mut TripleManager,
    presignatures: &mut PresignatureManager,
    router: &mut MessageRouter,
    participants: Vec<Participant>,
    threshold: usize,
    epoch: u64,
    key: KeyShare,
) -> (advanced: bool)
    requires
        old(triples).wf(),
        old(presignatures).wf(),
    ensures
        final(triples).wf(),
        final(presignatures).wf(),
        final(triples).untouched(old(triples)),
        final(presignatures).untouched(old(presignatures)),
        final(router)@.patience == old(router)@.patience,
        advanced == (epoch > old(triples)@.epoch() && epoch > old(presignatures)@.epoch()),
        advanced ==> ({
            &&& final(triples)@ == old(triples)@.advance(participants@, threshold, epoch)
            &&& final(presignatures)@ == old(presignatures)@.advance(
                participants@,
                threshold,
                epoch,
            )
            &&& final(router)@.pending == Seq::<Held>::empty()
        }),
        !advanced ==> ({
            &&& final(triples)@ == old(triples)@
            &&& final(presignatures)@ == old(presignatures)@
            &&& final(router)@ == old(router)@
        }),
{
    if epoch <= triples.epoch() || epoch <= presignatures.epoch() {
        return false;
    }
    let copy = copy_participants(&participants);
    triples.advance_epoch(copy, threshold, epoch);
    presignatures.advance_epoch(participants, threshold, epoch, key);
    router.clear();
    true
}

} // verus!
