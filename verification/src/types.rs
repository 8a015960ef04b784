//! Identifiers, pool items and wire messages.

use vstd::prelude::*;

verus! {

/// Identifies one triple, and the protocol run that generates it.
pub type TripleId = u64;

/// Identifies one presignature, and the protocol run that generates it.
pub type PresignatureId = u64;

/// A node of the cluster, by its number in the agreed ordering.
pub type Participant = u32;

/// A secp256k1 scalar, `k256::Scalar`.  The pools carry scalars; they never compute on
/// them.
#[verifier::external_type_specification]
#[verifier::external_body]
pub struct ExScalar(k256::Scalar);

/// A secp256k1 curve point, `k256::AffinePoint`.  The pools carry points; they never
/// compute on them.
#[verifier::external_type_specification]
#[verifier::external_body]
pub struct ExAffinePoint(k256::AffinePoint);

/// This node's secret share of a triple `(a, b, c)` with `c = a * b`.
pub struct TripleShare {
    pub a: k256::Scalar,
    pub b: k256::Scalar,
    pub c: k256::Scalar,
}

/// The public part of a triple: the commitments to `a`, `b` and `c`, who generated it, and
/// the threshold it was shared with.
pub struct TriplePub {
    pub big_a: k256::AffinePoint,
    pub big_b: k256::AffinePoint,
    pub big_c: k256::AffinePoint,
    pub participants: Vec<Participant>,
    pub threshold: usize,
}

/// A completed triple.
pub struct Triple {
    pub id: TripleId,
    pub share: TripleShare,
    pub public: TriplePub,
}

/// What a finished presigning run yields.
pub struct PresignOutput {
    pub big_r: k256::AffinePoint,
    pub k: k256::Scalar,
    pub sigma: k256::Scalar,
}

/// A completed presignature.  `triple0` and `triple1` name the two triples that were
/// spent to make it; they are kept for audit only, the triples themselves are gone.
pub struct Presignature {
    pub id: PresignatureId,
    pub output: PresignOutput,
    pub participants: Vec<Participant>,
    pub triple0: TripleId,
    pub triple1: TripleId,
}

/// This node's share of the signing key, with the public key it belongs to.
pub struct KeyShare {
    pub private_share: k256::Scalar,
    pub public_key: k256::AffinePoint,
}

/// Anything a pool can hold: it knows its own id.
pub trait PoolItem {
    spec fn spec_id(&self) -> u64;

    fn id(&self) -> (id: u64)
        ensures
            id == self.spec_id(),
    ;
}

impl PoolItem for Triple {
    open spec fn spec_id(&self) -> u64 {
        self.id
    }

    fn id(&self) -> (id: u64) {
        self.id
    }
}

impl PoolItem for Presignature {
    open spec fn spec_id(&self) -> u64 {
        self.id
    }

    fn id(&self) -> (id: u64) {
        self.id
    }
}

/// A protocol message of one triple generation, as it travels between nodes.
#[derive(Debug)]
pub struct TripleMessage {
    pub id: TripleId,
    pub epoch: u64,
    pub from: Participant,
    pub data: Vec<u8>,
}

/// A [`TripleMessage`] as a mathematical value.
pub struct TripleMessageView {
    pub id: TripleId,
    pub epoch: u64,
    pub from: Participant,
    pub data: Seq<u8>,
}

impl View for TripleMessage {
    type V = TripleMessageView;

    open spec fn view(&self) -> TripleMessageView {
        TripleMessageView { id: self.id, epoch: self.epoch, from: self.from, data: self.data@ }
    }
}

/// A protocol message of one presigning run.  It names the two triples the run spends,
/// so that every node binds its generator to the same pair.
#[derive(Debug)]
pub struct PresignatureMessage {
    pub id: PresignatureId,
    pub triple0: TripleId,
    pub triple1: TripleId,
    pub epoch: u64,
    pub from: Participant,
    pub data: Vec<u8>,
}

/// A [`PresignatureMessage`] as a mathematical value.
pub struct PresignatureMessageView {
    pub id: PresignatureId,
    pub triple0: TripleId,
    pub triple1: TripleId,
    pub epoch: u64,
    pub from: Participant,
    pub data: Seq<u8>,
}

impl View for PresignatureMessage {
    type V = PresignatureMessageView;

    open spec fn view(&self) -> PresignatureMessageView {
        PresignatureMessageView {
            id: self.id,
            triple0: self.triple0,
            triple1: self.triple1,
            epoch: self.epoch,
            from: self.from,
            data: self.data@,
        }
    }
}

} // verus!
