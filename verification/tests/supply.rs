use k256::AffinePoint;
use k256::Scalar;
use triple_pool::errors::GenerateError;
use triple_pool::presignature::PresignatureManager;
use triple_pool::supply::SupplyConfig;
use triple_pool::supply::SupplyController;
use triple_pool::triple::TripleManager;
use triple_pool::types::KeyShare;
use triple_pool::types::Triple;
use triple_pool::types::TriplePub;
use triple_pool::types::TripleShare;

fn supply_config() -> SupplyConfig {
    SupplyConfig {
        triple_target: 3,
        presig_target: 1,
        max_concurrent_generators: 2,
        generator_timeout: 100,
        supply_tick_interval: 10,
    }
}

fn supply_key() -> KeyShare {
    KeyShare { private_share: Scalar::ONE, public_key: AffinePoint::GENERATOR }
}

fn ready_triple(id: u64) -> Triple {
    Triple {
        id,
        share: TripleShare { a: Scalar::ZERO, b: Scalar::ZERO, c: Scalar::ZERO },
        public: TriplePub {
            big_a: AffinePoint::default(),
            big_b: AffinePoint::default(),
            big_c: AffinePoint::default(),
            participants: vec![0, 1, 2],
            threshold: 2,
        },
    }
}

fn managers() -> (TripleManager, PresignatureManager) {
    (
        TripleManager::new(vec![0, 1, 2], 0, 2, 1),
        PresignatureManager::new(vec![0, 1, 2], 0, 2, 1, supply_key()),
    )
}

#[test]
fn a_round_is_due_once_per_interval() {
    let (mut triples, mut presignatures) = managers();
    let mut controller = SupplyController::new(supply_config());
    assert!(controller.is_due(0));
    assert!(controller.tick(&mut triples, &mut presignatures, 1_000).is_some());
    assert_eq!(controller.last_tick, Some(1_000));
    assert!(!controller.is_due(1_009));
    assert!(controller.tick(&mut triples, &mut presignatures, 1_009).is_none());
    // a clock that runs backwards makes no round due
    assert!(!controller.is_due(5));
    assert!(controller.is_due(1_010));
    assert_eq!(triples.generating_len(), 1);
    assert!(controller.tick(&mut triples, &mut presignatures, 1_010).is_some());
    assert_eq!(controller.last_tick, Some(1_010));
    assert_eq!(triples.generating_len(), 2);
}

#[test]
fn supply_stops_at_the_target_and_at_the_limit() {
    let (mut triples, _) = managers();
    let mut controller = SupplyController::new(supply_config());
    assert!(controller.should_generate_triple(&triples));
    assert!(matches!(controller.supply_triple(&mut triples), Some(Ok(()))));
    assert_eq!(triples.target_count(), 3);
    assert!(matches!(controller.supply_triple(&mut triples), Some(Ok(()))));
    // two generators are running: the limit is reached, though the target is not
    assert_eq!(triples.generating_len(), 2);
    assert_eq!(triples.potential_len(), 2);
    assert!(!controller.should_generate_triple(&triples));
    assert!(controller.supply_triple(&mut triples).is_none());
    assert_eq!(triples.generating_len(), 2);
    // the target is reached, though no generator is running
    let (mut triples, _) = managers();
    for id in 0..3 {
        assert!(triples.insert(ready_triple(id), false));
    }
    assert!(!controller.should_generate_triple(&triples));
    assert!(controller.supply_triple(&mut triples).is_none());
    assert!(triples.take(0).is_some());
    assert!(controller.should_generate_triple(&triples));
}

#[test]
fn supply_of_presignatures_needs_two_own_triples() {
    let (mut triples, mut presignatures) = managers();
    let mut controller = SupplyController::new(supply_config());
    assert!(triples.insert(ready_triple(1), true));
    assert!(triples.insert(ready_triple(2), false));
    assert!(!controller.should_generate_presignature(&presignatures, &triples));
    assert!(controller.supply_presignature(&mut presignatures, &mut triples).is_none());
    assert!(triples.insert(ready_triple(3), true));
    assert!(controller.should_generate_presignature(&presignatures, &triples));
    assert!(matches!(
        controller.supply_presignature(&mut presignatures, &mut triples),
        Some(Ok(()))
    ));
    assert_eq!(presignatures.target_count(), 1);
    assert_eq!(presignatures.generating_len(), 1);
    assert_eq!(triples.my_len(), 0);
    assert_eq!(triples.len(), 1);
    // the target of one is reached
    assert!(triples.insert(ready_triple(4), true));
    assert!(triples.insert(ready_triple(5), true));
    assert!(!controller.should_generate_presignature(&presignatures, &triples));
    assert!(controller.supply_presignature(&mut presignatures, &mut triples).is_none());
    assert_eq!(triples.my_len(), 2);
}

#[test]
fn a_refusal_halts_supply_for_the_epoch() {
    // one participant only: the protocol refuses
    let mut triples = TripleManager::new(vec![0], 0, 1, 4);
    let mut controller = SupplyController::new(supply_config());
    assert!(matches!(
        controller.supply_triple(&mut triples),
        Some(Err(GenerateError::Init(_)))
    ));
    assert_eq!(controller.triples_halted, Some(4));
    assert!(!controller.should_generate_triple(&triples));
    assert!(controller.supply_triple(&mut triples).is_none());
    // the next snapshot brings good parameters
    assert!(triples.advance_epoch(vec![0, 1, 2], 2, 5));
    assert!(controller.should_generate_triple(&triples));
    assert!(matches!(controller.supply_triple(&mut triples), Some(Ok(()))));
    assert_eq!(triples.generating_len(), 1);
}

#[test]
fn a_round_sweeps_then_supplies() {
    let (mut triples, mut presignatures) = managers();
    let mut controller = SupplyController::new(supply_config());
    assert!(triples.insert(ready_triple(1), true));
    assert!(triples.insert(ready_triple(2), true));
    let report = controller.tick(&mut triples, &mut presignatures, 1_000).unwrap();
    assert!(report.expired_triples.is_empty());
    assert!(report.expired_presignatures.is_empty());
    assert!(matches!(report.triple, Some(Ok(()))));
    assert!(matches!(report.presignature, Some(Ok(()))));
    assert_eq!(triples.len(), 0);
    assert_eq!(triples.generating_len(), 1);
    assert_eq!(presignatures.generating_len(), 1);
    // the generators of the first round are seen by the second, and are too old in the
    // round after the timeout
    let report = controller.tick(&mut triples, &mut presignatures, 1_010).unwrap();
    assert!(report.expired_triples.is_empty());
    assert!(matches!(report.triple, Some(Ok(()))));
    assert!(report.presignature.is_none());
    assert_eq!(triples.generating_len(), 2);
    let report = controller.tick(&mut triples, &mut presignatures, 1_111).unwrap();
    assert_eq!(report.expired_triples.len(), 1);
    assert_eq!(report.expired_presignatures.len(), 1);
    assert_eq!(presignatures.generating_len(), 0);
    // the sweep has made room: a triple generation is started in the same round
    assert!(matches!(report.triple, Some(Ok(()))));
    assert_eq!(triples.generating_len(), 2);
    // no presigning: the triples are spent
    assert!(report.presignature.is_none());
}
