use cait_sith::protocol::Protocol;
use k256::AffinePoint;
use k256::Scalar;
use k256::Secp256k1;
use triple_pool::epoch::advance_epoch;
use triple_pool::errors::GenerateError;
use triple_pool::generator::Progress;
use triple_pool::protocol::Action;
use triple_pool::presignature::PresignatureManager;
use triple_pool::router::route_triple;
use triple_pool::router::MessageRouter;
use triple_pool::router::Routed;
use triple_pool::triple::TripleManager;
use triple_pool::types::KeyShare;
use triple_pool::types::Participant;
use triple_pool::types::PresignOutput;
use triple_pool::types::Presignature;
use triple_pool::types::PresignatureMessage;
use triple_pool::types::Triple;
use triple_pool::types::TriplePub;
use triple_pool::types::TripleShare;

fn dummy_presignature() -> Presignature {
    Presignature {
        id: 1,
        output: PresignOutput {
            big_r: AffinePoint::default(),
            k: Scalar::ZERO,
            sigma: Scalar::ONE,
        },
        participants: vec![1, 2],
        triple0: 0,
        triple1: 0,
    }
}

fn dummy_key() -> KeyShare {
    KeyShare { private_share: Scalar::ONE, public_key: AffinePoint::GENERATOR }
}

fn spare_triple(id: u64, threshold: usize) -> Triple {
    Triple {
        id,
        share: TripleShare { a: Scalar::ZERO, b: Scalar::ZERO, c: Scalar::ZERO },
        public: TriplePub {
            big_a: AffinePoint::default(),
            big_b: AffinePoint::default(),
            big_c: AffinePoint::default(),
            participants: vec![0, 1, 2],
            threshold,
        },
    }
}

fn presignature_manager() -> PresignatureManager {
    PresignatureManager::new(vec![0, 1, 2], 0, 5, 123, dummy_key())
}

#[test]
fn test_presignature_persistence() {
    let mut presignature_manager = presignature_manager();

    let presignature = dummy_presignature();
    let presignature_id = presignature.id;

    // Check that the pool is empty at the start
    assert!(!presignature_manager.contains(presignature_id));
    assert!(!presignature_manager.contains_mine(presignature_id));
    assert_eq!(presignature_manager.len(), 0);
    assert_eq!(presignature_manager.my_len(), 0);
    assert!(presignature_manager.is_empty());
    assert_eq!(presignature_manager.potential_len(), 0);

    assert!(presignature_manager.insert(presignature, false));

    // Check that the pool contains the foreign presignature
    assert!(presignature_manager.contains(presignature_id));
    assert!(!presignature_manager.contains_mine(presignature_id));
    assert_eq!(presignature_manager.len(), 1);
    assert_eq!(presignature_manager.my_len(), 0);
    assert_eq!(presignature_manager.potential_len(), 1);

    // Take the presignature and check that it is removed from the pool
    presignature_manager.take(presignature_id).unwrap();
    assert!(!presignature_manager.contains(presignature_id));
    assert!(!presignature_manager.contains_mine(presignature_id));
    assert_eq!(presignature_manager.len(), 0);
    assert_eq!(presignature_manager.my_len(), 0);
    assert_eq!(presignature_manager.potential_len(), 0);

    let mine_presignature = dummy_presignature();
    let mine_presig_id = mine_presignature.id;

    // Add a presignature of this node's own and check that it is in the pool
    assert!(presignature_manager.insert(mine_presignature, true));
    assert!(presignature_manager.contains(mine_presig_id));
    assert!(presignature_manager.contains_mine(mine_presig_id));
    assert_eq!(presignature_manager.len(), 1);
    assert_eq!(presignature_manager.my_len(), 1);
    assert_eq!(presignature_manager.potential_len(), 1);

    // Take it and check that it is removed from the pool
    presignature_manager.take_mine().unwrap();
    assert!(!presignature_manager.contains(mine_presig_id));
    assert!(!presignature_manager.contains_mine(mine_presig_id));
    assert_eq!(presignature_manager.len(), 0);
    assert_eq!(presignature_manager.my_len(), 0);
    assert!(presignature_manager.is_empty());
    assert_eq!(presignature_manager.potential_len(), 0);
}

#[test]
fn presignature_lifecycle() {
    let mut manager = presignature_manager();
    assert!(manager.insert(dummy_presignature(), false));
    assert_eq!(manager.len(), 1);
    assert_eq!(manager.my_len(), 0);
    assert!(manager.take_mine().is_none());
    let taken = manager.take(1).unwrap();
    assert_eq!(taken.id, 1);
    assert_eq!(taken.output.sigma, Scalar::ONE);
    assert_eq!(manager.len(), 0);
    assert_eq!(manager.my_len(), 0);
    assert_eq!(manager.potential_len(), 0);
    assert!(manager.insert(dummy_presignature(), true));
    assert_eq!(manager.take_mine().unwrap().id, 1);
    assert!(manager.is_empty());
}

#[test]
fn take_mine_takes_the_oldest() {
    let mut manager = presignature_manager();
    for id in [5, 3, 9] {
        let mut presignature = dummy_presignature();
        presignature.id = id;
        assert!(manager.insert(presignature, id != 3));
    }
    assert_eq!(manager.iter_mine_ids(), vec![5, 9]);
    assert_eq!(manager.take_mine().unwrap().id, 5);
    assert_eq!(manager.take_mine().unwrap().id, 9);
    assert!(manager.take_mine().is_none());
    assert_eq!(manager.len(), 1);
    assert!(manager.contains(3));
}

#[test]
fn presignature_purge_and_epoch_change() {
    let mut manager = presignature_manager();
    assert!(manager.insert(dummy_presignature(), true));
    manager.purge_epoch(7);
    assert_eq!(manager.len(), 1);
    manager.purge_epoch(123);
    assert_eq!(manager.len(), 0);
    assert_eq!(manager.my_len(), 0);
    assert!(manager.insert(dummy_presignature(), true));
    assert!(!manager.advance_epoch(vec![0, 1], 2, 123, dummy_key()));
    assert!(manager.advance_epoch(vec![0, 1], 2, 124, dummy_key()));
    assert_eq!(manager.epoch(), 124);
    assert_eq!(manager.threshold(), 2);
    assert_eq!(manager.participants(), &vec![0, 1]);
    assert_eq!(manager.len(), 0);
    assert_eq!(manager.my_len(), 0);
    assert_eq!(manager.potential_len(), 0);
}

#[test]
fn presigning_needs_two_triples_of_this_nodes_own() {
    let mut triples = TripleManager::new(vec![0, 1, 2], 0, 2, 1);
    let mut manager = PresignatureManager::new(vec![0, 1, 2], 0, 2, 1, dummy_key());
    assert!(matches!(
        manager.generate_with_id(1, &mut triples),
        Err(GenerateError::InsufficientTriples)
    ));
    assert!(triples.insert(spare_triple(10, 2), true));
    assert!(triples.insert(spare_triple(11, 2), false));
    assert!(matches!(manager.generate(&mut triples), Err(GenerateError::InsufficientTriples)));
    // nothing was spent
    assert_eq!(triples.len(), 2);
    assert_eq!(triples.my_len(), 1);
    assert_eq!(manager.potential_len(), 0);
    assert!(triples.insert(spare_triple(12, 2), true));
    manager.generate_with_id(1, &mut triples).unwrap();
    // the two triples of this node's own are gone, the foreign one stays
    assert_eq!(triples.len(), 1);
    assert!(triples.contains(11));
    assert_eq!(triples.my_len(), 0);
    assert!(manager.is_generating(1));
    assert_eq!(manager.generating_len(), 1);
    assert_eq!(manager.potential_len(), 1);
    assert_eq!(manager.len(), 0);
}

#[test]
fn presigning_refuses_an_id_in_use_and_spends_nothing() {
    let mut triples = TripleManager::new(vec![0, 1, 2], 0, 2, 1);
    let mut manager = PresignatureManager::new(vec![0, 1, 2], 0, 2, 1, dummy_key());
    assert!(manager.insert(dummy_presignature(), false));
    assert!(triples.insert(spare_triple(10, 2), true));
    assert!(triples.insert(spare_triple(11, 2), true));
    assert!(matches!(manager.generate_with_id(1, &mut triples), Err(GenerateError::IdCollision)));
    assert_eq!(triples.my_len(), 2);
    assert_eq!(manager.generating_len(), 0);
}

#[test]
fn presigning_refused_by_the_protocol_spends_the_triples() {
    // the triples were shared with another threshold than the manager's
    let mut triples = TripleManager::new(vec![0, 1, 2], 0, 2, 1);
    let mut manager = PresignatureManager::new(vec![0, 1, 2], 0, 2, 1, dummy_key());
    assert!(triples.insert(spare_triple(10, 3), true));
    assert!(triples.insert(spare_triple(11, 2), true));
    assert!(matches!(manager.generate_with_id(1, &mut triples), Err(GenerateError::Init(_))));
    assert_eq!(triples.len(), 0);
    assert_eq!(manager.generating_len(), 0);
    // too few participants
    let mut manager = PresignatureManager::new(vec![0], 0, 1, 1, dummy_key());
    assert!(triples.insert(spare_triple(10, 1), true));
    assert!(triples.insert(spare_triple(11, 1), true));
    assert!(matches!(manager.generate_with_id(1, &mut triples), Err(GenerateError::Init(_))));
    assert_eq!(triples.len(), 0);
}

#[test]
fn get_or_generate_spends_the_named_triples() {
    let mut triples = TripleManager::new(vec![0, 1, 2], 1, 2, 1);
    let mut manager = PresignatureManager::new(vec![0, 1, 2], 1, 2, 1, dummy_key());
    assert!(triples.insert(spare_triple(10, 2), false));
    assert!(triples.insert(spare_triple(11, 2), false));
    assert!(triples.insert(spare_triple(12, 2), false));
    // one of the triples is missing: nothing is started, nothing is spent
    assert!(matches!(
        manager.get_or_generate(7, 10, 99, &mut triples),
        Err(GenerateError::InsufficientTriples)
    ));
    assert!(matches!(
        manager.get_or_generate(7, 10, 10, &mut triples),
        Err(GenerateError::InsufficientTriples)
    ));
    assert_eq!(triples.len(), 3);
    assert_eq!(manager.generating_len(), 0);
    assert!(manager.get_or_generate(7, 12, 10, &mut triples).unwrap().is_some());
    assert!(manager.is_generating(7));
    assert_eq!(triples.len(), 1);
    assert!(triples.contains(11));
    // the generator is there: no triple is looked at
    assert!(manager.get_or_generate(7, 98, 99, &mut triples).unwrap().is_some());
    assert_eq!(manager.generating_len(), 1);
    // a completed presignature needs no generator
    assert!(manager.insert(dummy_presignature(), false));
    assert!(manager.get_or_generate(1, 98, 99, &mut triples).unwrap().is_none());
    assert_eq!(manager.generating_len(), 1);
}

#[test]
fn presigning_expires() {
    let mut triples = TripleManager::new(vec![0, 1, 2], 0, 2, 1);
    let mut manager = PresignatureManager::new(vec![0, 1, 2], 0, 2, 1, dummy_key());
    assert!(triples.insert(spare_triple(10, 2), true));
    assert!(triples.insert(spare_triple(11, 2), true));
    manager.generate_with_id(4, &mut triples).unwrap();
    assert!(manager.expire(100, 10).is_empty());
    assert!(manager.expire(110, 10).is_empty());
    assert_eq!(manager.expire(111, 10), vec![4]);
    assert_eq!(manager.potential_len(), 0);
    assert!(!manager.is_generating(4));
}

struct Node {
    triples: TripleManager,
    presignatures: PresignatureManager,
    router: MessageRouter,
}

fn run_keygen(participants: &[Participant], threshold: usize) -> Vec<KeyShare> {
    let mut protocols: Vec<(
        cait_sith::protocol::Participant,
        Box<dyn Protocol<Output = cait_sith::KeygenOutput<Secp256k1>>>,
    )> = Vec::new();
    let list: Vec<cait_sith::protocol::Participant> =
        participants.iter().map(|p| cait_sith::protocol::Participant::from(*p)).collect();
    for p in &list {
        let protocol = cait_sith::keygen::<Secp256k1>(&list, *p, threshold).unwrap();
        protocols.push((*p, Box::new(protocol)));
    }
    let mut outputs = cait_sith::protocol::run_protocol(protocols).unwrap();
    // the outputs come in the order in which the participants have finished
    outputs.sort_by_key(|(p, _)| *p);
    outputs
        .into_iter()
        .map(|(_, out)| KeyShare { private_share: out.private_share, public_key: out.public_key })
        .collect()
}

/// One round: every node pokes both of its managers and the messages are delivered.
fn round(nodes: &mut Vec<Node>, now: u64) {
    for at in 0..nodes.len() {
        let sent = nodes[at].triples.poke().unwrap();
        for (to, message) in sent {
            let routed = route_triple(&mut nodes[to as usize].triples, message);
            assert!(matches!(routed, Routed::Delivered | Routed::AlreadyCompleted));
        }
        let sent = match nodes[at].presignatures.poke() {
            Ok(sent) => sent,
            Err(error) => panic!("node {at}: {:?}", error.failures),
        };
        for (to, message) in sent {
            assert_eq!(message.from, at as Participant);
            let node = &mut nodes[to as usize];
            let routed =
                node.router.route_presignature(&mut node.presignatures, &mut node.triples, message, now);
            assert!(matches!(routed, Routed::Delivered | Routed::AlreadyCompleted));
        }
    }
}

#[test]
fn three_nodes_generate_a_presignature() {
    let participants: Vec<Participant> = vec![0, 1, 2];
    let threshold = 2;
    let keys = run_keygen(&participants, threshold);
    let public_key = keys[0].public_key;
    let mut nodes: Vec<Node> = keys
        .into_iter()
        .enumerate()
        .map(|(me, key)| Node {
            triples: TripleManager::new(participants.clone(), me as Participant, threshold, 3),
            presignatures: PresignatureManager::new(
                participants.clone(),
                me as Participant,
                threshold,
                3,
                key,
            ),
            router: MessageRouter::new(1_000),
        })
        .collect();
    // node 2 initiates two triples
    nodes[2].triples.generate_with_id(100).unwrap();
    nodes[2].triples.generate_with_id(200).unwrap();
    let mut rounds = 0;
    while nodes.iter().any(|n| n.triples.generating_len() > 0 || n.triples.len() < 2) {
        rounds += 1;
        assert!(rounds < 10_000, "the triple protocols did not end");
        round(&mut nodes, rounds);
    }
    for (me, node) in nodes.iter().enumerate() {
        assert_eq!(node.triples.len(), 2);
        assert_eq!(node.triples.my_len(), if me == 2 { 2 } else { 0 });
    }
    // node 2 spends them on a presignature, the one that was completed first as the first
    let spent = nodes[2].triples.iter_mine_ids();
    assert!(spent == vec![100, 200] || spent == vec![200, 100]);
    {
        let node = &mut nodes[2];
        node.presignatures.generate_with_id(77, &mut node.triples).unwrap();
        assert_eq!(node.triples.len(), 0);
    }
    let mut rounds = 0;
    while nodes.iter().any(|n| !n.presignatures.contains(77)) {
        rounds += 1;
        assert!(rounds < 10_000, "the presigning did not end");
        round(&mut nodes, rounds);
    }
    let mut big_r = None;
    for (me, node) in nodes.iter_mut().enumerate() {
        // the triples are spent on every node
        assert_eq!(node.triples.len(), 0);
        assert_eq!(node.presignatures.generating_len(), 0);
        assert_eq!(node.presignatures.len(), 1);
        assert_eq!(node.presignatures.contains_mine(77), me == 2);
        assert_eq!(node.router.pending_len(), 0);
        let presignature = node.presignatures.take(77).unwrap();
        assert_eq!(presignature.id, 77);
        assert_eq!(presignature.participants, participants);
        assert_eq!(vec![presignature.triple0, presignature.triple1], spent);
        assert_ne!(presignature.output.big_r, AffinePoint::default());
        assert_ne!(presignature.output.big_r, public_key);
        // every node has the same nonce commitment
        match big_r {
            None => big_r = Some(presignature.output.big_r),
            Some(seen) => assert_eq!(seen, presignature.output.big_r),
        }
        assert!(node.presignatures.take(77).is_none());
    }
}

#[test]
fn a_presignature_message_waits_for_its_triples() {
    let mut triples = TripleManager::new(vec![0, 1, 2], 1, 2, 8);
    let mut presignatures = PresignatureManager::new(vec![0, 1, 2], 1, 2, 8, dummy_key());
    let mut router = MessageRouter::new(100);
    assert_eq!(router.patience(), 100);
    let message = |id: u64, epoch: u64| PresignatureMessage {
        id,
        triple0: 10,
        triple1: 11,
        epoch,
        from: 0,
        data: vec![1, 2, 3],
    };
    // another epoch: dropped
    let routed = router.route_presignature(&mut presignatures, &mut triples, message(1, 7), 1_000);
    assert_eq!(routed, Routed::StaleEpoch);
    // the triples are not there yet: held back
    let routed = router.route_presignature(&mut presignatures, &mut triples, message(1, 8), 1_000);
    assert_eq!(routed, Routed::Buffered);
    let routed = router.route_presignature(&mut presignatures, &mut triples, message(2, 8), 1_050);
    assert_eq!(routed, Routed::Buffered);
    assert_eq!(router.pending_len(), 2);
    assert_eq!(presignatures.generating_len(), 0);
    // still not there: both are held on
    let outcomes = router.retry(&mut presignatures, &mut triples, 1_100);
    assert_eq!(outcomes, vec![Routed::Buffered, Routed::Buffered]);
    assert_eq!(router.pending_len(), 2);
    // the first has waited for too long; the second finds its triples
    assert!(triples.insert(spare_triple(10, 2), false));
    assert!(triples.insert(spare_triple(11, 2), false));
    let outcomes = router.retry(&mut presignatures, &mut triples, 1_101);
    assert_eq!(outcomes, vec![Routed::Expired, Routed::Delivered]);
    assert_eq!(router.pending_len(), 0);
    assert!(presignatures.is_generating(2));
    assert!(!presignatures.is_generating(1));
    assert_eq!(triples.len(), 0);
    // nothing is held: a pass does nothing
    assert!(router.retry(&mut presignatures, &mut triples, 5_000).is_empty());
    // a message for the running generator is delivered, whatever triples it names
    let routed = router.route_presignature(&mut presignatures, &mut triples, message(2, 8), 5_000);
    assert_eq!(routed, Routed::Delivered);
    // a completed presignature takes no message
    assert!(presignatures.insert(dummy_presignature(), false));
    let routed = router.route_presignature(&mut presignatures, &mut triples, message(1, 8), 5_000);
    assert_eq!(routed, Routed::AlreadyCompleted);
    // a held message of an epoch that has passed is dropped by the next pass
    let routed = router.route_presignature(&mut presignatures, &mut triples, message(3, 8), 5_000);
    assert_eq!(routed, Routed::Buffered);
    assert!(presignatures.advance_epoch(vec![0, 1, 2], 2, 9, dummy_key()));
    assert!(triples.advance_epoch(vec![0, 1, 2], 2, 9));
    assert_eq!(router.retry(&mut presignatures, &mut triples, 5_001), vec![Routed::StaleEpoch]);
    assert_eq!(router.pending_len(), 0);
    let routed = router.route_presignature(&mut presignatures, &mut triples, message(3, 9), 5_000);
    assert_eq!(routed, Routed::Buffered);
    router.clear();
    assert_eq!(router.pending_len(), 0);
}

#[test]
fn a_presignature_message_is_refused_with_bad_parameters() {
    let mut triples = TripleManager::new(vec![0, 1, 2], 1, 2, 8);
    let mut presignatures = PresignatureManager::new(vec![0, 1, 2], 1, 3, 8, dummy_key());
    let mut router = MessageRouter::new(100);
    assert!(triples.insert(spare_triple(10, 2), false));
    assert!(triples.insert(spare_triple(11, 2), false));
    let message =
        PresignatureMessage { id: 5, triple0: 10, triple1: 11, epoch: 8, from: 0, data: vec![] };
    let routed = router.route_presignature(&mut presignatures, &mut triples, message, 0);
    assert_eq!(routed, Routed::Refused);
    assert_eq!(presignatures.generating_len(), 0);
    // the triples are spent all the same
    assert_eq!(triples.len(), 0);
}

#[test]
fn triples_of_another_epoch_are_not_spent() {
    let mut triples = TripleManager::new(vec![0, 1, 2], 0, 2, 1);
    let mut manager = PresignatureManager::new(vec![0, 1, 2], 0, 2, 2, dummy_key());
    let mut router = MessageRouter::new(100);
    assert!(triples.insert(spare_triple(10, 2), true));
    assert!(triples.insert(spare_triple(11, 2), true));
    assert!(matches!(
        manager.generate_with_id(1, &mut triples),
        Err(GenerateError::InsufficientTriples)
    ));
    assert!(matches!(
        manager.get_or_generate(1, 10, 11, &mut triples),
        Err(GenerateError::InsufficientTriples)
    ));
    let message =
        PresignatureMessage { id: 1, triple0: 10, triple1: 11, epoch: 2, from: 1, data: vec![] };
    assert_eq!(router.route_presignature(&mut manager, &mut triples, message, 0), Routed::Buffered);
    assert_eq!(triples.len(), 2);
    assert_eq!(triples.my_len(), 2);
    assert_eq!(manager.potential_len(), 0);
}

#[test]
fn inbound_messages_go_to_the_manager_of_their_kind() {
    let mut triples = TripleManager::new(vec![0, 1, 2], 1, 2, 8);
    let mut presignatures = PresignatureManager::new(vec![0, 1, 2], 1, 2, 8, dummy_key());
    let mut router = MessageRouter::new(100);
    let triple = triple_pool::types::TripleMessage { id: 4, epoch: 8, from: 0, data: vec![] };
    let routed = router.route(
        &mut presignatures,
        &mut triples,
        triple_pool::router::Inbound::Triple(triple),
        0,
    );
    assert_eq!(routed, Routed::Delivered);
    assert!(triples.is_generating(4));
    assert_eq!(presignatures.generating_len(), 0);
    let presignature =
        PresignatureMessage { id: 4, triple0: 1, triple1: 2, epoch: 8, from: 0, data: vec![] };
    let routed = router.route(
        &mut presignatures,
        &mut triples,
        triple_pool::router::Inbound::Presignature(presignature),
        0,
    );
    assert_eq!(routed, Routed::Buffered);
    assert_eq!(router.pending_len(), 1);
    assert_eq!(triples.generating_len(), 1);
}

#[test]
fn refusals_by_the_protocol_are_not_retriable() {
    assert!(GenerateError::IdCollision.is_retriable());
    assert!(GenerateError::InsufficientTriples.is_retriable());
    let mut manager = TripleManager::new(vec![0], 0, 1, 1);
    match manager.generate_with_id(1) {
        Err(error) => assert!(!error.is_retriable()),
        Ok(()) => panic!("one participant was accepted"),
    }
}

#[test]
fn a_failed_presigning_is_dropped_and_reported() {
    let mut sender_triples = TripleManager::new(vec![0, 1, 2], 1, 2, 8);
    let mut sender = PresignatureManager::new(vec![0, 1, 2], 1, 2, 8, dummy_key());
    assert!(sender_triples.insert(spare_triple(10, 2), true));
    assert!(sender_triples.insert(spare_triple(11, 2), true));
    sender.generate_with_id(5, &mut sender_triples).unwrap();
    let sent = match sender.poke() {
        Ok(sent) => sent,
        Err(error) => panic!("{:?}", error.failures),
    };
    let (_, genuine) = sent.into_iter().find(|(to, _)| *to == 0).unwrap();
    assert_eq!((genuine.id, genuine.triple0, genuine.triple1), (5, 10, 11));
    assert_eq!((genuine.epoch, genuine.from), (8, 1));
    // keep the header of the message, and put nonsense in place of its body
    let mut data = genuine.data[..28].to_vec();
    data.extend_from_slice(&[0xc1, 0xc1, 0xc1]);
    let forged = PresignatureMessage { data, ..genuine };
    let mut triples = TripleManager::new(vec![0, 1, 2], 0, 2, 8);
    let mut receiver = PresignatureManager::new(vec![0, 1, 2], 0, 2, 8, dummy_key());
    let mut router = MessageRouter::new(100);
    assert!(triples.insert(spare_triple(10, 2), false));
    assert!(triples.insert(spare_triple(11, 2), false));
    assert_eq!(router.route_presignature(&mut receiver, &mut triples, forged, 0), Routed::Delivered);
    assert!(receiver.is_generating(5));
    let error = match receiver.poke() {
        Ok(_) => panic!("the forged message went through"),
        Err(error) => error,
    };
    assert_eq!(error.failures.len(), 1);
    assert_eq!(error.failures[0].id, 5);
    assert!(!receiver.is_generating(5));
    assert!(!receiver.contains(5));
    assert_eq!(receiver.potential_len(), 0);
    assert!(error.messages.iter().all(|(to, m)| *to != 0 && m.from == 0 && m.id == 5));
    // the triples are gone with the presigning
    assert_eq!(triples.len(), 0);
}

#[test]
fn apply_completes_a_presigning() {
    let mut triples = TripleManager::new(vec![0, 1, 2], 1, 2, 8);
    let mut manager = PresignatureManager::new(vec![0, 1, 2], 1, 2, 8, dummy_key());
    assert!(triples.insert(spare_triple(10, 2), true));
    assert!(triples.insert(spare_triple(11, 2), true));
    assert!(triples.insert(spare_triple(12, 2), false));
    assert!(triples.insert(spare_triple(13, 2), false));
    manager.generate_with_id(5, &mut triples).unwrap();
    assert!(manager.get_or_generate(6, 13, 12, &mut triples).unwrap().is_some());
    let mut outbox = Vec::new();
    let progress = manager.apply(6, Action::SendBroadcast(vec![7]), &mut outbox);
    assert!(matches!(progress, Progress::Continue));
    let progress = manager.apply(5, Action::SendPrivate(2, vec![9]), &mut outbox);
    assert!(matches!(progress, Progress::Continue));
    assert!(matches!(manager.apply(5, Action::Wait, &mut outbox), Progress::Waiting));
    let sent: Vec<(Participant, u64, u64, u64, Vec<u8>)> = outbox
        .iter()
        .map(|(to, m)| (*to, m.id, m.triple0, m.triple1, m.data.clone()))
        .collect();
    assert_eq!(
        sent,
        vec![(0, 6, 13, 12, vec![7]), (2, 6, 13, 12, vec![7]), (2, 5, 10, 11, vec![9])]
    );
    assert!(outbox.iter().all(|(_, m)| m.epoch == 8 && m.from == 1));
    let output = dummy_presignature().output;
    assert!(matches!(manager.apply(6, Action::Done(output), &mut outbox), Progress::Completed));
    let output = dummy_presignature().output;
    assert!(matches!(manager.apply(5, Action::Done(output), &mut outbox), Progress::Completed));
    assert_eq!(manager.generating_len(), 0);
    assert_eq!(manager.len(), 2);
    assert_eq!(manager.iter_mine_ids(), vec![5]);
    let mut ids = manager.ids();
    ids.sort();
    assert_eq!(ids, vec![5, 6]);
    let foreign = manager.get(6).unwrap();
    assert_eq!((foreign.triple0, foreign.triple1), (13, 12));
    assert_eq!(foreign.participants, vec![0, 1, 2]);
    assert_eq!(foreign.output.sigma, Scalar::ONE);
    assert!(manager.get(7).is_none());
    let entries = manager.into_entries();
    assert_eq!(entries.len(), 2);
    assert_eq!((entries[0].0.id, entries[0].1), (5, true));
    assert_eq!((entries[1].0.id, entries[1].1), (6, false));
    assert_eq!((entries[0].0.triple0, entries[0].0.triple1), (10, 11));
}

#[test]
fn a_change_of_epoch_cancels_what_is_under_way() {
    let mut triples = TripleManager::new(vec![0, 1, 2], 1, 2, 8);
    let mut presignatures = PresignatureManager::new(vec![0, 1, 2], 1, 2, 8, dummy_key());
    let mut router = MessageRouter::new(100);
    for id in 10..14 {
        assert!(triples.insert(spare_triple(id, 2), id < 12));
    }
    triples.generate_with_id(20).unwrap();
    presignatures.generate_with_id(30, &mut triples).unwrap();
    assert!(presignatures.insert(dummy_presignature(), true));
    let held =
        PresignatureMessage { id: 31, triple0: 98, triple1: 99, epoch: 8, from: 0, data: vec![] };
    assert_eq!(router.route_presignature(&mut presignatures, &mut triples, held, 0), Routed::Buffered);
    // a snapshot of the same epoch, or of an earlier one, changes nothing
    for epoch in [8, 3] {
        let advanced = advance_epoch(
            &mut triples,
            &mut presignatures,
            &mut router,
            vec![5, 6],
            1,
            epoch,
            dummy_key(),
        );
        assert!(!advanced);
    }
    assert_eq!((triples.epoch(), presignatures.epoch()), (8, 8));
    assert_eq!((triples.len(), triples.generating_len()), (2, 1));
    assert_eq!((presignatures.len(), presignatures.generating_len()), (1, 1));
    assert_eq!(router.pending_len(), 1);
    assert_eq!(triples.participants(), &vec![0, 1, 2]);
    // a later epoch cancels it all
    let advanced = advance_epoch(
        &mut triples,
        &mut presignatures,
        &mut router,
        vec![5, 6, 1],
        3,
        9,
        dummy_key(),
    );
    assert!(advanced);
    assert_eq!((triples.epoch(), presignatures.epoch()), (9, 9));
    assert_eq!((triples.len(), triples.my_len(), triples.potential_len()), (0, 0, 0));
    assert_eq!(
        (presignatures.len(), presignatures.my_len(), presignatures.potential_len()),
        (0, 0, 0)
    );
    assert_eq!(router.pending_len(), 0);
    assert_eq!(router.patience(), 100);
    assert_eq!(triples.participants(), &vec![5, 6, 1]);
    assert_eq!(presignatures.participants(), &vec![5, 6, 1]);
    assert_eq!((triples.threshold(), presignatures.threshold()), (3, 3));
    assert_eq!((triples.me(), presignatures.me()), (1, 1));
}
