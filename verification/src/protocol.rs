//! The boundary to the multi-party protocols.
//!
//! A protocol instance is opaque: it is created from the participants and the threshold,
//! stepped with `poke`, and fed with `message`.  Nothing in this crate looks inside one.
//! What a step yields is turned into an [`Action`] of plain values, and the managers are
//! verified for every action a step can yield.

use crate::types::KeyShare;
use crate::types::Participant;
use crate::types::PresignOutput;
use crate::types::Triple;
use crate::types::TriplePub;
use crate::types::TripleShare;
use cait_sith::presign;
use cait_sith::protocol::Action as Step;
use cait_sith::protocol::InitializationError;
use cait_sith::protocol::Participant as Peer;
use cait_sith::protocol::Protocol;
use cait_sith::protocol::ProtocolError;
use cait_sith::triples::generate_triple;
use cait_sith::triples::TripleGenerationOutput;
use cait_sith::triples::TriplePub as RawPub;
use cait_sith::triples::TripleShare as RawShare;
use cait_sith::KeygenOutput;
use cait_sith::PresignArguments;
use k256::Secp256k1;
use vstd::prelude::*;

verus! {

/// `cait_sith::protocol::InitializationError`: why a protocol could not be set up.
#[verifier::external_type_specification]
#[verifier::external_body]
pub struct ExInitializationError(InitializationError);

/// `cait_sith::protocol::ProtocolError`: why a running protocol gave up.
#[verifier::external_type_specification]
#[verifier::external_body]
pub struct ExProtocolError(ProtocolError);

/// One step of a protocol.
pub enum Action<T> {
    /// Nothing more can be done until another message arrives.
    Wait,
    /// The payload goes to every participant but this node.
    SendBroadcast(Vec<u8>),
    /// The payload goes to the named participant only.
    SendPrivate(Participant, Vec<u8>),
    /// The protocol has ended with this output.
    Done(T),
    /// The protocol has given up.
    Failed(ProtocolError),
}

/// The participants and threshold that a protocol can be started with: at least two
/// participants, none of them twice, and a threshold no larger than their number.
pub open spec fn valid_parameters(participants: Seq<Participant>, threshold: int) -> bool {
    &&& participants.len() >= 2
    &&& threshold <= participants.len()
    &&& participants.no_duplicates()
}

/// A running triple generation.  It holds the protocol object that
/// `cait_sith::triples::generate_triple` returns, which has no type that can be named;
/// so this struct hides it, and only the three functions below reach it.
#[verifier::external_body]
pub struct TripleProtocol {
    inner: Box<dyn Protocol<Output = TripleGenerationOutput<Secp256k1>> + Send + Sync>,
}

impl TripleProtocol {
    /// Calls `cait_sith::triples::generate_triple`.  That function refuses fewer than two
    /// participants, a threshold above their number, and a list that names one of them
    /// twice; it accepts everything else.  It does not look at `me`.
    #[verifier::external_body]
    pub(crate) fn start(participants: &Vec<Participant>, me: Participant, threshold: usize) -> (r:
        Result<TripleProtocol, InitializationError>)
        ensures
            r is Ok <==> valid_parameters(participants@, threshold as int),
    {
        let list: Vec<Peer> = participants.iter().copied().map(Peer::from).collect();
        let protocol = generate_triple::<Secp256k1>(&list, me.into(), threshold)?;
        Ok(TripleProtocol { inner: Box::new(protocol) })
    }

    /// Calls `Protocol::poke` once.  What comes back depends on the messages the protocol
    /// has been fed and on its own randomness, so nothing is claimed of it.
    #[verifier::external_body]
    pub(crate) fn poke(&mut self) -> (action: Action<(TripleShare, TriplePub)>) {
        match self.inner.poke() {
            Ok(Step::Wait) => Action::Wait,
            Ok(Step::SendMany(data)) => Action::SendBroadcast(data),
            Ok(Step::SendPrivate(to, data)) => Action::SendPrivate(to.into(), data),
            Ok(Step::Return((s, p))) => Action::Done((
                TripleShare { a: s.a, b: s.b, c: s.c },
                TriplePub {
                    big_a: p.big_a, big_b: p.big_b, big_c: p.big_c, threshold: p.threshold,
                    participants: p.participants.into_iter().map(u32::from).collect(),
                },
            )),
            Err(e) => Action::Failed(e),
        }
    }

    /// Calls `Protocol::message`: hands the protocol a payload that `from` has sent.
    #[verifier::external_body]
    pub(crate) fn message(&mut self, from: Participant, data: Vec<u8>) {
        self.inner.message(from.into(), data)
    }
}

/// The participants, threshold and triples that a presigning can be started with: what a
/// triple generation asks of participants and threshold, and both triples shared with that
/// same threshold.
pub open spec fn valid_presign_parameters(
    participants: Seq<Participant>,
    threshold: int,
    triple0: Triple,
    triple1: Triple,
) -> bool {
    &&& valid_parameters(participants, threshold)
    &&& triple0.public.threshold == threshold
    &&& triple1.public.threshold == threshold
}

/// A running presigning.  It holds the protocol object that `cait_sith::presign` returns,
/// which has no type that can be named; so this struct hides it, and only the three
/// functions below reach it.
#[verifier::external_body]
pub struct PresignatureProtocol {
    inner: Box<dyn Protocol<Output = cait_sith::PresignOutput<Secp256k1>> + Send + Sync>,
}

impl PresignatureProtocol {
    /// Calls `cait_sith::presign` with the two triples and the key share.  That function
    /// refuses fewer than two participants, a threshold above their number, a triple
    /// that was shared with another threshold, and a list that names a participant twice;
    /// it accepts everything else.  It does not look at `me`.  The triples are spent
    /// either way.
    #[verifier::external_body]
    pub(crate) fn start(
        participants: &Vec<Participant>,
        me: Participant,
        threshold: usize,
        triple0: Triple,
        triple1: Triple,
        key: &KeyShare,
    ) -> (r: Result<PresignatureProtocol, InitializationError>)
        ensures
            r is Ok <==> valid_presign_parameters(participants@, threshold as int, triple0, triple1),
    {
        let list: Vec<Peer> = participants.iter().copied().map(Peer::from).collect();
        let raw = |t: Triple| (
            RawShare { a: t.share.a, b: t.share.b, c: t.share.c },
            RawPub {
                big_a: t.public.big_a, big_b: t.public.big_b, big_c: t.public.big_c,
                participants: t.public.participants.into_iter().map(Peer::from).collect(),
                threshold: t.public.threshold,
            },
        );
        let keygen_out = KeygenOutput { private_share: key.private_share, public_key: key.public_key };
        let args = PresignArguments { triple0: raw(triple0), triple1: raw(triple1), keygen_out, threshold };
        Ok(PresignatureProtocol { inner: Box::new(presign::<Secp256k1>(&list, me.into(), args)?) })
    }

    /// Calls `Protocol::poke` once.  What comes back depends on the messages the protocol
    /// has been fed and on its own randomness, so nothing is claimed of it.
    #[verifier::external_body]
    pub(crate) fn poke(&mut self) -> (action: Action<PresignOutput>) {
        match self.inner.poke() {
            Ok(Step::Wait) => Action::Wait,
            Ok(Step::SendMany(data)) => Action::SendBroadcast(data),
            Ok(Step::SendPrivate(to, data)) => Action::SendPrivate(to.into(), data),
            Ok(Step::Return(out)) => {
                Action::Done(PresignOutput { big_r: out.big_r, k: out.k, sigma: out.sigma })
            },
            Err(e) => Action::Failed(e),
        }
    }

    /// Calls `Protocol::message`: hands the protocol a payload that `from` has sent.
    #[verifier::external_body]
    pub(crate) fn message(&mut self, from: Participant, data: Vec<u8>) {
        self.inner.message(from.into(), data)
    }
}

/// Calls `rand::random`: a `u64` drawn uniformly.  Nothing is claimed of it, and two
/// draws may or may not differ.
#[verifier::external_body]
pub(crate) fn random_id() -> (id: u64) {
    rand::random()
}

/// A copy of `participants`.
pub(crate) fn copy_participants(participants: &Vec<Participant>) -> (copy: Vec<Participant>)
    ensures
        copy@ == participants@,
{
    let copy = participants.clone();
    assert(copy@ =~= participants@);
    copy
}

/// A copy of `data`.
pub(crate) fn copy_bytes(data: &Vec<u8>) -> (copy: Vec<u8>)
    ensures
        copy@ == data@,
{
    let copy = data.clone();
    assert(copy@ =~= data@);
    copy
}

} // verus!
