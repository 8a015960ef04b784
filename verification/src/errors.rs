//! What the managers report when an operation does not go through.

use cait_sith::protocol::InitializationError;
use cait_sith::protocol::ProtocolError;
use crate::types::Participant;
use crate::types::PresignatureMessage;
use crate::types::TripleMessage;
use vstd::prelude::*;

verus! {

/// Why a generator was not started.
#[derive(Debug)]
pub enum GenerateError {
    /// The id that was drawn already names a completed item or a running generator.
    /// Another draw will do: the caller retries on its next round.
    IdCollision,
    /// The pool has no two triples of this node's own to spend on a presignature.
    /// Nothing was consumed: the caller retries once the triple pool has grown.
    InsufficientTriples,
    /// The protocol refused the participants or the threshold.  This will not change
    /// until the cluster's next snapshot.
    Init(InitializationError),
}

impl GenerateError {
    /// Whether the same call may go through on a later round: a collision of ids and a
    /// lack of triples pass, a refusal by the protocol does not.
    pub open spec fn retriable(self) -> bool {
        !(self is Init)
    }

    /// Whether the same call may go through on a later round.
    pub fn is_retriable(&self) -> (retriable: bool)
        ensures
            retriable == self.retriable(),
    {
        match self {
            GenerateError::IdCollision => true,
            GenerateError::InsufficientTriples => true,
            GenerateError::Init(_) => false,
        }
    }
}

/// A generator whose protocol gave up.  The generator is gone and its id is free again.
#[derive(Debug)]
pub struct ProtocolFailure {
    pub id: u64,
    pub cause: ProtocolError,
}

/// The ids of the generators that `failures` reports.
pub open spec fn failed_ids(failures: Seq<ProtocolFailure>) -> Set<u64> {
    Set::new(|id: u64| exists|k: int| 0 <= k < failures.len() && (#[trigger] failures[k]).id == id)
}

/// What `TripleManager::poke` reports when at least one generator failed.
#[derive(Debug)]
pub struct TriplePokeError {
    /// The generators that failed, each once.
    pub failures: Vec<ProtocolFailure>,
    /// What the other generators emitted in the same round.  It is still owed to the peers.
    pub messages: Vec<(Participant, TripleMessage)>,
}

/// What `PresignatureManager::poke` reports when at least one generator failed.
#[derive(Debug)]
pub struct PresignaturePokeError {
    /// The generators that failed, each once.
    pub failures: Vec<ProtocolFailure>,
    /// What the other generators emitted in the same round.  It is still owed to the peers.
    pub messages: Vec<(Participant, PresignatureMessage)>,
}

} // verus!
