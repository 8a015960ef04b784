//! The supply controller: the policy that keeps the pools stocked.
//!
//! The controller runs in rounds.  A round sweeps the generators that have run for too
//! long, then starts at most one triple generation and at most one presigning, where the
//! pools are below their targets and not too many generators are running already.  The
//! managers never start a generator of this node's own by themselves.

use crate::errors::GenerateError;
use crate::presignature::PresignatureManager;
use crate::presignature::PresignatureManagerModel;
use crate::triple::TripleManager;
use crate::triple::TripleManagerModel;
use crate::types::PresignatureId;
use crate::types::TripleId;
use vstd::prelude::*;

verus! {

/// What the controller is configured with.
pub struct SupplyConfig {
    /// The number of triples, completed or in the making, that the controller aims for.
    pub triple_target: usize,
    /// The number of presignatures, completed or in the making, that the controller aims for.
    pub presig_target: usize,
    /// The most generators of one kind that may run at a time.
    pub max_concurrent_generators: usize,
    /// How long a generator may run, counted from the first round that saw it.
    pub generator_timeout: u64,
    /// The time from one round to the next.
    pub supply_tick_interval: u64,
}

/// Whether the policy asks for another triple generation: the pool is below its target,
/// and fewer generators are running than may run at a time.
pub open spec fn wants_triple(config: SupplyConfig, triples: TripleManagerModel) -> bool {
    &&& triples.potential_len() < config.triple_target
    &&& triples.generating.len() < config.max_concurrent_generators
}

/// Whether the policy asks for another presigning: the triple pool is of the same epoch
/// and holds two triples of this node's own to spend, the presignature pool is below its
/// target, and fewer presignings are running than may run at a time.
pub open spec fn wants_presignature(
    config: SupplyConfig,
    presignatures: PresignatureManagerModel,
    triples: TripleManagerModel,
) -> bool {
    &&& presignatures.may_spend(triples)
    &&& triples.pool.len_mine() >= 2
    &&& presignatures.potential_len() < config.presig_target
    &&& presignatures.generating.len() < config.max_concurrent_generators
}

/// The supply controller.
pub struct SupplyController {
    /// What the controller is configured with.
    pub config: SupplyConfig,
    /// The time of the last round, if there has been one.
    pub last_tick: Option<u64>,
    /// The epoch in which the triple protocol has refused this node's parameters.  No
    /// triple generation is started while the triple manager is in that epoch.
    pub triples_halted: Option<u64>,
    /// The epoch in which the presigning protocol has refused this node's parameters.  No
    /// presigning is started while the presignature manager is in that epoch.
    pub presignatures_halted: Option<u64>,
}

/// What a round has done.
pub struct TickReport {
    /// The triple generators that had run for too long, and were dropped.
    pub expired_triples: Vec<TripleId>,
    /// The presignings that had run for too long, and were dropped.
    pub expired_presignatures: Vec<PresignatureId>,
    /// How starting a triple generation went, if the policy asked for one.
    pub triple: Option<Result<(), GenerateError>>,
    /// How starting a presigning went, if the policy asked for one.
    pub presignature: Option<Result<(), GenerateError>>,
}

impl SupplyController {
    /// Whether a round is due at the time `now`: there has been none yet, or the last one
    /// is at least one interval back.
    pub open spec fn due(self, now: u64) -> bool {
        match self.last_tick {
            None => true,
            Some(last) => now >= last && now - last >= self.config.supply_tick_interval,
        }
    }

    /// Whether the controller may start a triple generation in `epoch`.
    pub open spec fn triples_allowed(self, epoch: u64) -> bool {
        self.triples_halted != Some(epoch)
    }

    /// Whether the controller may start a presigning in `epoch`.
    pub open spec fn presignatures_allowed(self, epoch: u64) -> bool {
        self.presignatures_halted != Some(epoch)
    }

    /// The controller after an attempt to start a triple generation in `epoch` that ended
    /// as `started`: a refusal by the protocol halts the supply of triples for the epoch.
    pub open spec fn after_triple(self, epoch: u64, started: Result<(), GenerateError>) -> Self {
        SupplyController {
            config: self.config,
            last_tick: self.last_tick,
            triples_halted: if started matches Err(GenerateError::Init(_)) {
                Some(epoch)
            } else {
                self.triples_halted
            },
            presignatures_halted: self.presignatures_halted,
        }
    }

    /// The controller after an attempt to start a presigning in `epoch` that ended as
    /// `started`: a refusal by the protocol halts the supply of presignatures for the
    /// epoch.
    pub open spec fn after_presignature(
        self,
        epoch: u64,
        started: Result<(), GenerateError>,
    ) -> Self {
        SupplyController {
            config: self.config,
            last_tick: self.last_tick,
            triples_halted: self.triples_halted,
            presignatures_halted: if started matches Err(GenerateError::Init(_)) {
                Some(epoch)
            } else {
                self.presignatures_halted
            },
        }
    }

    /// The controller with `now` as the time of its last round.
    pub open spec fn ticked(self, now: u64) -> Self {
        SupplyController {
            config: self.config,
            last_tick: Some(now),
            triples_halted: self.triples_halted,
            presignatures_halted: self.presignatures_halted,
        }
    }

    /// A controller that has not run a round yet.
    pub fn new(config: SupplyConfig) -> (controller: Self)
        ensures
            controller.config == config,
            controller.last_tick is None,
            controller.triples_halted is None,
            controller.presignatures_halted is None,
    {
        SupplyController {
            config,
            last_tick: None,
            triples_halted: None,
            presignatures_halted: None,
        }
    }

    /// Whether a round is due at the time `now`.
    pub fn is_due(&self, now: u64) -> (due: bool)
        ensures
            due == self.due(now),
    {
        match self.last_tick {
            None => true,
            Some(last) => now >= last && now - last >= self.config.supply_tick_interval,
        }
    }

    /// Whether the policy asks for another triple generation, and the supply of triples
    /// is not halted for the manager's epoch.
    pub fn should_generate_triple(&self, triples: &TripleManager) -> (wanted: bool)
        requires
            triples.wf(),
        ensures
            wanted == (self.triples_allowed(triples@.epoch()) && wants_triple(
                self.config,
                triples@,
            )),
    {
        match self.triples_halted {
            Some(epoch) => {
                if epoch == triples.epoch() {
                    return false;
                }
            },
            None => {},
        }
        triples.potential_len() < self.config.triple_target && triples.generating_len()
            < self.config.max_concurrent_generators
    }

    /// Whether the policy asks for another presigning, and the supply of presignatures is
    /// not halted for the manager's epoch.
    pub fn should_generate_presignature(
        &self,
        presignatures: &PresignatureManager,
        triples: &TripleManager,
    ) -> (wanted: bool)
        requires
            presignatures.wf(),
            triples.wf(),
        ensures
            wanted == (self.presignatures_allowed(presignatures@.epoch()) && wants_presignature(
                self.config,
                presignatures@,
                triples@,
            )),
    {
        match self.presignatures_halted {
            Some(epoch) => {
                if epoch == presignatures.epoch() {
                    return false;
                }
            },
            None => {},
        }
        triples.epoch() == presignatures.epoch() && triples.my_len() >= 2
            && presignatures.potential_len() < self.config.presig_target
            && presignatures.generating_len() < self.config.max_concurrent_generators
    }

    /// Starts a triple generation if the policy asks for one.  The manager's target becomes
    /// the controller's.  Where the protocol refuses this node's parameters, the supply of
    /// triples is halted until the manager is in another epoch.
    pub fn supply_triple(&mut self, triples: &mut TripleManager) -> (started: Option<
        Result<(), GenerateError>,
    >)
        requires
            old(triples).wf(),
        ensures
            final(triples).wf(),
            old(self).supplied_triple(old(triples)@, started, *final(self), final(triples)@),
            final(triples).untouched(old(triples)),
    {
        triples.set_target_count(self.config.triple_target);
        proof {
            old(triples).lemma_protocols();
            triples.lemma_protocols();
        }
        if !self.should_generate_triple(triples) {
            return None;
        }
        let started = triples.generate();
        match started {
            Err(GenerateError::Init(_)) => {
                self.triples_halted = Some(triples.epoch());
            },
            _ => {},
        }
        Some(started)
    }

    /// What `supply_triple` makes of the controller and the triple manager.
    pub open spec fn supplied_triple(
        self,
        triples: TripleManagerModel,
        started: Option<Result<(), GenerateError>>,
        after: Self,
        triples_after: TripleManagerModel,
    ) -> bool {
        let aimed = TripleManagerModel { target_count: self.config.triple_target, ..triples };
        if self.triples_allowed(triples.epoch()) && wants_triple(self.config, triples) {
            &&& started is Some
            &&& after == self.after_triple(triples.epoch(), started->0)
            &&& match started->0 {
                Ok(()) => aimed.can_start() && exists|id: TripleId|
                    aimed.is_free(id) && triples_after == #[trigger] aimed.start(id, true),
                Err(GenerateError::Init(_)) => !aimed.can_start() && triples_after == aimed,
                Err(GenerateError::IdCollision) => aimed.can_start() && triples_after == aimed,
                Err(GenerateError::InsufficientTriples) => false,
            }
        } else {
            started is None && after == self && triples_after == aimed
        }
    }

    /// Starts a presigning if the policy asks for one.  The manager's target becomes the
    /// controller's.  Where the protocol refuses this node's parameters, the supply of
    /// presignatures is halted until the manager is in another epoch.
    pub fn supply_presignature(
        &mut self,
        presignatures: &mut PresignatureManager,
        triples: &mut TripleManager,
    ) -> (started: Option<Result<(), GenerateError>>)
        requires
            old(presignatures).wf(),
            old(triples).wf(),
        ensures
            final(presignatures).wf(),
            final(triples).wf(),
            old(self).supplied_presignature(
                old(presignatures)@,
                old(triples)@,
                started,
                *final(self),
                final(presignatures)@,
                final(triples)@,
            ),
            final(presignatures).untouched(old(presignatures)),
            final(triples).untouched(old(triples)),
    {
        presignatures.set_target_count(self.config.presig_target);
        proof {
            old(presignatures).lemma_protocols();
            presignatures.lemma_protocols();
        }
        if !self.should_generate_presignature(presignatures, triples) {
            return None;
        }
        let started = presignatures.generate(triples);
        match started {
            Err(GenerateError::Init(_)) => {
                self.presignatures_halted = Some(presignatures.epoch());
            },
            _ => {},
        }
        Some(started)
    }

    /// What `supply_presignature` makes of the controller and the two managers.
    pub open spec fn supplied_presignature(
        self,
        presignatures: PresignatureManagerModel,
        triples: TripleManagerModel,
        started: Option<Result<(), GenerateError>>,
        after: Self,
        presignatures_after: PresignatureManagerModel,
        triples_after: TripleManagerModel,
    ) -> bool {
        let aimed = PresignatureManagerModel {
            target_count: self.config.presig_target,
            ..presignatures
        };
        if self.presignatures_allowed(presignatures.epoch()) && wants_presignature(
            self.config,
            presignatures,
            triples,
        ) {
            &&& started is Some
            &&& after == self.after_presignature(presignatures.epoch(), started->0)
            &&& exists|id: PresignatureId| #[trigger]
                aimed.generated(triples, id, started->0, presignatures_after, triples_after)
        } else {
            started is None && after == self && presignatures_after == aimed && triples_after
                == triples
        }
    }

    /// Runs a round at the time `now`, if one is due.  The round sweeps both managers for
    /// generators that have run for longer than the timeout, then supplies a triple
    /// generation, then a presigning.
    pub fn tick(
        &mut self,
        triples: &mut TripleManager,
        presignatures: &mut PresignatureManager,
        now: u64,
    ) -> (report: Option<TickReport>)
        requires
            old(triples).wf(),
            old(presignatures).wf(),
        ensures
            final(triples).wf(),
            final(presignatures).wf(),
            old(self).round(
                old(triples)@,
                old(presignatures)@,
                now,
                report,
                *final(self),
                final(triples)@,
                final(presignatures)@,
            ),
            forall|id: TripleId|
                old(triples).protocols().contains_key(id) && !old(triples)@.expired(
                    now,
                    old(self).config.generator_timeout,
                ).contains(id) ==> #[trigger] final(triples).protocols()[id] == old(
                    triples,
                ).protocols()[id],
            forall|id: PresignatureId|
                old(presignatures).protocols().contains_key(id) && !old(presignatures)@.expired(
                    now,
                    old(self).config.generator_timeout,
                ).contains(id) ==> #[trigger] final(presignatures).protocols()[id] == old(
                    presignatures,
                ).protocols()[id],
    {
        if !self.is_due(now) {
            return None;
        }
        let ghost triples_before = triples@;
        let ghost presignatures_before = presignatures@;
        proof {
            triples.lemma_protocols();
            presignatures.lemma_protocols();
        }
        self.last_tick = Some(now);
        let ghost ticked = *self;
        let expired_triples = triples.expire(now, self.config.generator_timeout);
        let expired_presignatures = presignatures.expire(now, self.config.generator_timeout);
        let ghost swept_triples = triples@;
        let ghost swept_presignatures = presignatures@;
        let ghost kept_triples = triples.protocols();
        let ghost kept_presignatures = presignatures.protocols();
        proof {
            triples.lemma_protocols();
            presignatures.lemma_protocols();
        }
        let triple = self.supply_triple(triples);
        let ghost between = *self;
        let ghost supplied = triples@;
        let ghost supplied_protocols = triples.protocols();
        proof {
            triples.lemma_protocols();
        }
        let presignature = self.supply_presignature(presignatures, triples);
        let report = TickReport { expired_triples, expired_presignatures, triple, presignature };
        proof {
            let timeout = self.config.generator_timeout;
            triples.lemma_protocols();
            presignatures.lemma_protocols();
            assert forall|id: TripleId|
                old(triples).protocols().contains_key(id) && !triples_before.expired(
                    now,
                    timeout,
                ).contains(id) implies #[trigger] triples.protocols()[id] == old(
                triples,
            ).protocols()[id] by {
                assert(swept_triples.generating.contains_key(id));
                assert(kept_triples.contains_key(id));
                assert(supplied.generating.contains_key(id));
                assert(supplied_protocols.contains_key(id));
                assert(triples@.generating.contains_key(id));
                assert(triples.protocols().contains_key(id));
            }
            assert forall|id: PresignatureId|
                old(presignatures).protocols().contains_key(id) && !presignatures_before.expired(
                    now,
                    timeout,
                ).contains(id) implies #[trigger] presignatures.protocols()[id] == old(
                presignatures,
            ).protocols()[id] by {
                assert(swept_presignatures.generating.contains_key(id));
                assert(kept_presignatures.contains_key(id));
                assert(presignatures@.generating.contains_key(id));
                assert(presignatures.protocols().contains_key(id));
            }
            assert(ticked == old(self).ticked(now));
            assert(report.expired_triples@.to_set() =~= triples_before.expired(now, timeout));
            assert(report.expired_presignatures@.to_set() =~= presignatures_before.expired(
                now,
                timeout,
            ));
            assert(swept_triples == triples_before.expire(now, timeout));
            assert(swept_presignatures == presignatures_before.expire(now, timeout));
            assert(ticked.supplied_triple(swept_triples, triple, between, supplied));
            assert(between.supplied_presignature(
                swept_presignatures,
                supplied,
                presignature,
                *self,
                presignatures@,
                triples@,
            ));
        }
        Some(report)
    }

    /// What `tick` makes of the controller and the two managers.  Where no round is due,
    /// nothing changes.  Otherwise the generators are swept, and the report names those
    /// that were dropped; then `supply_triple` runs on what the sweep has left, and
    /// `supply_presignature` on what that has left.
    pub open spec fn round(
        self,
        triples: TripleManagerModel,
        presignatures: PresignatureManagerModel,
        now: u64,
        report: Option<TickReport>,
        after: Self,
        triples_after: TripleManagerModel,
        presignatures_after: PresignatureManagerModel,
    ) -> bool {
        if !self.due(now) {
            report is None && after == self && triples_after == triples && presignatures_after
                == presignatures
        } else {
            let timeout = self.config.generator_timeout;
            &&& report is Some
            &&& report->0.expired_triples@.no_duplicates()
            &&& report->0.expired_triples@.to_set() == triples.expired(now, timeout)
            &&& report->0.expired_presignatures@.no_duplicates()
            &&& report->0.expired_presignatures@.to_set() == presignatures.expired(now, timeout)
            &&& exists|between: Self, supplied: TripleManagerModel|
                {
                    &&& #[trigger] self.ticked(now).supplied_triple(
                        triples.expire(now, timeout),
                        report->0.triple,
                        between,
                        supplied,
                    )
                    &&& #[trigger] between.supplied_presignature(
                        presignatures.expire(now, timeout),
                        supplied,
                        report->0.presignature,
                        after,
                        presignatures_after,
                        triples_after,
                    )
                }
        }
    }
}

} // verus!
