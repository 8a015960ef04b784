//! A generator: a protocol that is still running, and what the managers read of it.

use crate::errors::ProtocolFailure;
use crate::protocol::Action;
use crate::protocol::PresignatureProtocol;
use crate::protocol::TripleProtocol;
use crate::types::Participant;
use crate::types::PresignatureId;
use crate::types::TripleId;
use vstd::prelude::*;

verus! {

/// The most steps that one generator is taken through in one round.  A generator that
/// has more to say after that many keeps it for the next round, so that neither a round
/// nor its outbox grows without bound.
pub const ACTION_BUDGET: usize = 4096;

/// How far a step has brought a generator.
pub enum Progress {
    /// The generator emitted a message and may have more to do.
    Continue,
    /// The generator waits for a message from a peer.
    Waiting,
    /// The generator has finished; what it has made is in the pool.
    Completed,
    /// The generator gave up, and has been dropped.
    Failed(ProtocolFailure),
}

/// How far `action` brings the generator `id`.
pub open spec fn progress_of<T>(id: u64, action: Action<T>) -> Progress {
    match action {
        Action::Wait => Progress::Waiting,
        Action::SendBroadcast(_) => Progress::Continue,
        Action::SendPrivate(_, _) => Progress::Continue,
        Action::Done(_) => Progress::Completed,
        Action::Failed(cause) => Progress::Failed(ProtocolFailure { id, cause }),
    }
}

/// Whether a generator that has yielded `action` is asked again in the same round: it is,
/// after every message it has emitted.
pub open spec fn goes_on<T>(action: Action<T>) -> bool {
    action is SendBroadcast || action is SendPrivate
}

/// Whether `actions` is the turn of one generator in one round.  The generator is asked
/// at least once, and again after every message; its turn ends when it waits, finishes or
/// fails, or when it has been asked as often as the budget allows.
pub open spec fn is_turn<T>(actions: Seq<Action<T>>) -> bool {
    &&& 0 < actions.len() <= ACTION_BUDGET
    &&& forall|i: int| 0 <= i < actions.len() - 1 ==> goes_on(#[trigger] actions[i])
    &&& goes_on(actions.last()) ==> actions.len() == ACTION_BUDGET
}

/// The actions of the turn of the generator `id`, each beside the generator's id.
pub open spec fn turn_steps<T>(id: u64, actions: Seq<Action<T>>) -> Seq<(u64, Action<T>)> {
    actions.map_values(|action: Action<T>| (id, action))
}

/// The actions of a round, turn after turn, each beside the id of its generator.
pub open spec fn round_steps<T>(turns: Seq<(u64, Seq<Action<T>>)>) -> Seq<(u64, Action<T>)>
    decreases turns.len(),
{
    if turns.len() == 0 {
        Seq::empty()
    } else {
        round_steps(turns.drop_last()) + turn_steps(turns.last().0, turns.last().1)
    }
}

/// The failures among the steps, in their order.
pub open spec fn failures_of<T>(steps: Seq<(u64, Action<T>)>) -> Seq<ProtocolFailure>
    decreases steps.len(),
{
    if steps.len() == 0 {
        Seq::empty()
    } else {
        let earlier = failures_of(steps.drop_last());
        match steps.last().1 {
            Action::Failed(cause) => earlier.push(ProtocolFailure { id: steps.last().0, cause }),
            _ => earlier,
        }
    }
}

/// The failures among steps that follow one another are the failures of the first, then
/// those of the second.
pub proof fn lemma_failures_append<T>(steps: Seq<(u64, Action<T>)>, more: Seq<(u64, Action<T>)>)
    ensures
        failures_of(steps + more) == failures_of(steps) + failures_of(more),
    decreases more.len(),
{
    if more.len() == 0 {
        assert(steps + more =~= steps);
        assert(failures_of(steps) + failures_of(more) =~= failures_of(steps));
    } else {
        assert((steps + more).drop_last() =~= steps + more.drop_last());
        assert((steps + more).last() == more.last());
        lemma_failures_append(steps, more.drop_last());
        assert(failures_of(steps + more) =~= failures_of(steps) + failures_of(more));
    }
}

/// The turn of one generator: how far it has come, and the actions that its protocol has
/// yielded on the way.
pub struct Turn<T> {
    pub progress: Progress,
    pub actions: Ghost<Seq<Action<T>>>,
}

/// What a protocol is started with: the epoch, its participants and threshold, and the
/// node that takes part.
pub struct Setup {
    pub epoch: u64,
    pub participants: Seq<Participant>,
    pub me: Participant,
    pub threshold: usize,
}

/// An ongoing triple generation.
pub struct TripleGenerator {
    /// The protocol that generates the triple.
    pub protocol: TripleProtocol,
    /// Whether this node initiated the generation.
    pub mine: bool,
    /// When the generator was first seen by a sweep; `None` until then.
    pub started_at: Option<u64>,
    /// What the protocol was started with.
    pub setup: Ghost<Setup>,
}

/// What the manager's rules read of a generator.
pub struct GeneratorInfo {
    pub mine: bool,
    pub started_at: Option<u64>,
    pub setup: Setup,
}

impl TripleGenerator {
    pub open spec fn info(self) -> GeneratorInfo {
        GeneratorInfo { mine: self.mine, started_at: self.started_at, setup: self.setup@ }
    }
}

impl GeneratorInfo {
    /// Whether a sweep at `now` finds the generator older than `timeout`.
    pub open spec fn expired(self, now: u64, timeout: u64) -> bool {
        match self.started_at {
            Some(started) => now > started && now - started > timeout,
            None => false,
        }
    }

    /// The generator after a sweep at `now` that let it live.
    pub open spec fn seen(self, now: u64) -> GeneratorInfo {
        GeneratorInfo {
            mine: self.mine,
            started_at: match self.started_at {
                Some(started) => Some(started),
                None => Some(now),
            },
            setup: self.setup,
        }
    }
}

/// What the manager's rules read of each generator.
pub closed spec fn infos(generators: Map<TripleId, TripleGenerator>) -> Map<
    TripleId,
    GeneratorInfo,
> {
    generators.map_values(|g: TripleGenerator| g.info())
}

/// The rules read something of every generator, and of nothing else.
pub broadcast proof fn lemma_infos_dom(generators: Map<TripleId, TripleGenerator>)
    ensures
        #[trigger] infos(generators).dom() == generators.dom(),
        forall|id: TripleId|
            generators.contains_key(id) ==> #[trigger] infos(generators)[id] == generators[id].info(),
{
    assert(infos(generators).dom() =~= generators.dom());
}

/// A generator that is added is read as what it is.
pub broadcast proof fn lemma_infos_insert(
    generators: Map<TripleId, TripleGenerator>,
    id: TripleId,
    generator: TripleGenerator,
)
    ensures
        #[trigger] infos(generators.insert(id, generator)) == infos(generators).insert(
            id,
            generator.info(),
        ),
{
    assert(infos(generators.insert(id, generator)) =~= infos(generators).insert(
        id,
        generator.info(),
    ));
}

/// A generator that is removed is read no more.
pub broadcast proof fn lemma_infos_remove(generators: Map<TripleId, TripleGenerator>, id: TripleId)
    ensures
        #[trigger] infos(generators.remove(id)) == infos(generators).remove(id),
{
    assert(infos(generators.remove(id)) =~= infos(generators).remove(id));
}

/// The protocol object of each generator.
pub closed spec fn triple_protocols(generators: Map<TripleId, TripleGenerator>) -> Map<
    TripleId,
    TripleProtocol,
> {
    generators.map_values(|g: TripleGenerator| g.protocol)
}

/// Every generator has its protocol object, and nothing else has one.
pub broadcast proof fn lemma_triple_protocols_dom(generators: Map<TripleId, TripleGenerator>)
    ensures
        #[trigger] triple_protocols(generators).dom() == generators.dom(),
        forall|id: TripleId|
            generators.contains_key(id) ==> #[trigger] triple_protocols(generators)[id]
                == generators[id].protocol,
{
    assert(triple_protocols(generators).dom() =~= generators.dom());
}

/// A generator that is added brings its protocol object.
pub broadcast proof fn lemma_triple_protocols_insert(
    generators: Map<TripleId, TripleGenerator>,
    id: TripleId,
    generator: TripleGenerator,
)
    ensures
        #[trigger] triple_protocols(generators.insert(id, generator)) == triple_protocols(
            generators,
        ).insert(id, generator.protocol),
{
    assert(triple_protocols(generators.insert(id, generator)) =~= triple_protocols(
        generators,
    ).insert(id, generator.protocol));
}

/// A generator that is removed takes its protocol object with it.
pub broadcast proof fn lemma_triple_protocols_remove(
    generators: Map<TripleId, TripleGenerator>,
    id: TripleId,
)
    ensures
        #[trigger] triple_protocols(generators.remove(id)) == triple_protocols(generators).remove(
            id,
        ),
{
    assert(triple_protocols(generators.remove(id)) =~= triple_protocols(generators).remove(id));
}

/// Whether no protocol object has been touched between `before` and `after`, unless it is
/// that of `but`: what has a protocol object at both times has the same one.
pub open spec fn kept_but<P>(before: Map<u64, P>, after: Map<u64, P>, but: Option<u64>) -> bool {
    forall|id: u64|
        Some(id) != but && before.contains_key(id) && #[trigger] after.contains_key(id)
            ==> after[id] == before[id]
}

/// An ongoing presigning.
pub struct PresignatureGenerator {
    /// The protocol that generates the presignature.
    pub protocol: PresignatureProtocol,
    /// Whether this node initiated the generation.
    pub mine: bool,
    /// When the generator was first seen by a sweep; `None` until then.
    pub started_at: Option<u64>,
    /// The first triple that was spent on the presigning.
    pub triple0: TripleId,
    /// The second triple that was spent on the presigning.
    pub triple1: TripleId,
    /// What the protocol was started with.
    pub setup: Ghost<Setup>,
}

/// What the manager's rules read of a presigning.
pub struct PresigningInfo {
    pub generator: GeneratorInfo,
    pub triple0: TripleId,
    pub triple1: TripleId,
}

impl PresignatureGenerator {
    pub open spec fn info(self) -> PresigningInfo {
        PresigningInfo {
            generator: GeneratorInfo {
                mine: self.mine,
                started_at: self.started_at,
                setup: self.setup@,
            },
            triple0: self.triple0,
            triple1: self.triple1,
        }
    }
}

impl PresigningInfo {
    /// The presigning after a sweep at `now` that let it live.
    pub open spec fn seen(self, now: u64) -> PresigningInfo {
        PresigningInfo {
            generator: self.generator.seen(now),
            triple0: self.triple0,
            triple1: self.triple1,
        }
    }
}

/// What the manager's rules read of each presigning.
pub closed spec fn presigning_infos(generators: Map<PresignatureId, PresignatureGenerator>) -> Map<
    PresignatureId,
    PresigningInfo,
> {
    generators.map_values(|g: PresignatureGenerator| g.info())
}

/// The rules read something of every presigning, and of nothing else.
pub broadcast proof fn lemma_presigning_infos_dom(
    generators: Map<PresignatureId, PresignatureGenerator>,
)
    ensures
        #[trigger] presigning_infos(generators).dom() == generators.dom(),
        forall|id: PresignatureId|
            generators.contains_key(id) ==> #[trigger] presigning_infos(generators)[id]
                == generators[id].info(),
{
    assert(presigning_infos(generators).dom() =~= generators.dom());
}

/// A presigning that is added is read as what it is.
pub broadcast proof fn lemma_presigning_infos_insert(
    generators: Map<PresignatureId, PresignatureGenerator>,
    id: PresignatureId,
    generator: PresignatureGenerator,
)
    ensures
        #[trigger] presigning_infos(generators.insert(id, generator)) == presigning_infos(
            generators,
        ).insert(id, generator.info()),
{
    assert(presigning_infos(generators.insert(id, generator)) =~= presigning_infos(
        generators,
    ).insert(id, generator.info()));
}

/// A presigning that is removed is read no more.
pub broadcast proof fn lemma_presigning_infos_remove(
    generators: Map<PresignatureId, PresignatureGenerator>,
    id: PresignatureId,
)
    ensures
        #[trigger] presigning_infos(generators.remove(id)) == presigning_infos(generators).remove(
            id,
        ),
{
    assert(presigning_infos(generators.remove(id)) =~= presigning_infos(generators).remove(id));
}

/// The protocol object of each presigning.
pub closed spec fn presigning_protocols(
    generators: Map<PresignatureId, PresignatureGenerator>,
) -> Map<PresignatureId, PresignatureProtocol> {
    generators.map_values(|g: PresignatureGenerator| g.protocol)
}

/// Every presigning has its protocol object, and nothing else has one.
pub broadcast proof fn lemma_presigning_protocols_dom(
    generators: Map<PresignatureId, PresignatureGenerator>,
)
    ensures
        #[trigger] presigning_protocols(generators).dom() == generators.dom(),
        forall|id: PresignatureId|
            generators.contains_key(id) ==> #[trigger] presigning_protocols(generators)[id]
                == generators[id].protocol,
{
    assert(presigning_protocols(generators).dom() =~= generators.dom());
}

/// A presigning that is added brings its protocol object.
pub broadcast proof fn lemma_presigning_protocols_insert(
    generators: Map<PresignatureId, PresignatureGenerator>,
    id: PresignatureId,
    generator: PresignatureGenerator,
)
    ensures
        #[trigger] presigning_protocols(generators.insert(id, generator)) == presigning_protocols(
            generators,
        ).insert(id, generator.protocol),
{
    assert(presigning_protocols(generators.insert(id, generator)) =~= presigning_protocols(
        generators,
    ).insert(id, generator.protocol));
}

/// A presigning that is removed takes its protocol object with it.
pub broadcast proof fn lemma_presigning_protocols_remove(
    generators: Map<PresignatureId, PresignatureGenerator>,
    id: PresignatureId,
)
    ensures
        #[trigger] presigning_protocols(generators.remove(id)) == presigning_protocols(
            generators,
        ).remove(id),
{
    assert(presigning_protocols(generators.remove(id)) =~= presigning_protocols(
        generators,
    ).remove(id));
}

} // verus!
