use cait_sith::protocol::ProtocolError;
use k256::AffinePoint;
use k256::Scalar;
use triple_pool::errors::GenerateError;
use triple_pool::generator::Progress;
use triple_pool::protocol::Action;
use triple_pool::router::route_triple;
use triple_pool::router::Routed;
use triple_pool::triple::TripleManager;
use triple_pool::types::Participant;
use triple_pool::types::Triple;
use triple_pool::types::TripleMessage;
use triple_pool::types::TriplePub;
use triple_pool::types::TripleShare;

fn dummy_triple(id: u64) -> Triple {
    Triple {
        id,
        share: TripleShare { a: Scalar::ZERO, b: Scalar::ZERO, c: Scalar::ZERO },
        public: TriplePub {
            big_a: AffinePoint::default(),
            big_b: AffinePoint::default(),
            big_c: AffinePoint::default(),
            participants: vec![1, 2],
            threshold: 5,
        },
    }
}

fn fresh_manager() -> TripleManager {
    TripleManager::new(vec![0, 1, 2], 0, 5, 123)
}

#[test]
fn test_triple_persistence() {
    let mut triple_manager = fresh_manager();

    let triple_id_1: u64 = 1;
    let triple_1 = dummy_triple(triple_id_1);
    let triple_id_2: u64 = 2;
    let triple_2 = dummy_triple(triple_id_2);

    // Check that the pool is empty at the start
    assert!(!triple_manager.contains(triple_id_1));
    assert!(!triple_manager.contains_mine(triple_id_1));
    assert_eq!(triple_manager.len(), 0);
    assert_eq!(triple_manager.my_len(), 0);
    assert!(triple_manager.is_empty());
    assert_eq!(triple_manager.potential_len(), 0);

    assert!(triple_manager.insert(triple_1, false));
    assert!(triple_manager.insert(triple_2, false));

    // Check that the pool contains the foreign triples
    assert!(triple_manager.contains(triple_id_1));
    assert!(triple_manager.contains(triple_id_2));
    assert!(!triple_manager.contains_mine(triple_id_1));
    assert!(!triple_manager.contains_mine(triple_id_2));
    assert_eq!(triple_manager.len(), 2);
    assert_eq!(triple_manager.my_len(), 0);
    assert_eq!(triple_manager.potential_len(), 2);

    // Take the triples and check that they are removed from the pool
    triple_manager.take_two(triple_id_1, triple_id_2).unwrap();
    assert!(!triple_manager.contains(triple_id_1));
    assert!(!triple_manager.contains(triple_id_2));
    assert!(!triple_manager.contains_mine(triple_id_1));
    assert!(!triple_manager.contains_mine(triple_id_2));
    assert_eq!(triple_manager.len(), 0);
    assert_eq!(triple_manager.my_len(), 0);
    assert_eq!(triple_manager.potential_len(), 0);

    let mine_id_1: u64 = 3;
    let mine_triple_1 = dummy_triple(mine_id_1);
    let mine_id_2: u64 = 4;
    let mine_triple_2 = dummy_triple(mine_id_2);

    // Add mine triples and check that they are in the pool
    assert!(triple_manager.insert(mine_triple_1, true));
    assert!(triple_manager.insert(mine_triple_2, true));
    assert!(triple_manager.contains(mine_id_1));
    assert!(triple_manager.contains(mine_id_2));
    assert!(triple_manager.contains_mine(mine_id_1));
    assert!(triple_manager.contains_mine(mine_id_2));
    assert_eq!(triple_manager.len(), 2);
    assert_eq!(triple_manager.my_len(), 2);
    assert_eq!(triple_manager.potential_len(), 2);

    // Take mine triples and check that they are removed from the pool
    triple_manager.take_mine_twice().unwrap();
    assert!(!triple_manager.contains(mine_id_1));
    assert!(!triple_manager.contains(mine_id_2));
    assert!(!triple_manager.contains_mine(mine_id_1));
    assert!(!triple_manager.contains_mine(mine_id_2));
    assert_eq!(triple_manager.len(), 0);
    assert_eq!(triple_manager.my_len(), 0);
    assert!(triple_manager.is_empty());
    assert_eq!(triple_manager.potential_len(), 0);
}

#[test]
fn empty_pool() {
    let manager = TripleManager::new(Vec::new(), 0, 5, 123);
    assert_eq!(manager.len(), 0);
    assert_eq!(manager.my_len(), 0);
    assert_eq!(manager.potential_len(), 0);
    assert_eq!(manager.generating_len(), 0);
    assert!(manager.is_empty());
    assert_eq!(manager.me(), 0);
    assert_eq!(manager.threshold(), 5);
    assert_eq!(manager.epoch(), 123);
    assert_eq!(manager.target_count(), usize::MAX);
    assert!(manager.participants().is_empty());
}

#[test]
fn foreign_insert_then_take_two() {
    let mut manager = fresh_manager();
    assert!(manager.insert(dummy_triple(1), false));
    assert!(manager.insert(dummy_triple(2), false));
    assert!(manager.contains(1));
    assert!(manager.contains(2));
    assert!(!manager.contains_mine(1));
    assert_eq!(manager.len(), 2);
    assert_eq!(manager.my_len(), 0);
    assert_eq!(manager.potential_len(), 2);
    let (first, second) = manager.take_two(1, 2).unwrap();
    assert_eq!(first.id, 1);
    assert_eq!(second.id, 2);
    assert_eq!(manager.len(), 0);
    assert_eq!(manager.my_len(), 0);
    assert_eq!(manager.potential_len(), 0);
}

#[test]
fn mine_insert_then_take_mine_twice() {
    let mut manager = fresh_manager();
    assert!(manager.insert(dummy_triple(3), true));
    assert!(manager.insert(dummy_triple(4), true));
    assert!(manager.contains_mine(3));
    assert_eq!(manager.my_len(), 2);
    let (first, second) = manager.take_mine_twice().unwrap();
    assert_eq!(first.id, 3);
    assert_eq!(second.id, 4);
    assert_eq!(manager.my_len(), 0);
    assert_eq!(manager.len(), 0);
}

#[test]
fn take_missing() {
    let mut manager = fresh_manager();
    assert!(manager.take(42).is_none());
    assert_eq!(manager.len(), 0);
    assert_eq!(manager.my_len(), 0);
    assert_eq!(manager.potential_len(), 0);
}

#[test]
fn take_removes_from_pool_and_from_own_queue() {
    let mut manager = fresh_manager();
    assert!(manager.insert(dummy_triple(7), true));
    assert!(manager.insert(dummy_triple(8), true));
    assert!(manager.insert(dummy_triple(9), true));
    let taken = manager.take(8).unwrap();
    assert_eq!(taken.id, 8);
    assert!(!manager.contains(8));
    assert!(!manager.contains_mine(8));
    assert_eq!(manager.iter_mine_ids(), vec![7, 9]);
    assert_eq!(manager.len(), 2);
    assert_eq!(manager.my_len(), 2);
    assert!(manager.take(8).is_none());
}

#[test]
fn take_two_is_all_or_nothing() {
    let mut manager = fresh_manager();
    assert!(manager.insert(dummy_triple(1), false));
    assert!(manager.insert(dummy_triple(2), true));
    assert!(manager.take_two(1, 5).is_none());
    assert!(manager.take_two(5, 1).is_none());
    assert!(manager.take_two(1, 1).is_none());
    assert_eq!(manager.len(), 2);
    assert_eq!(manager.my_len(), 1);
    assert!(manager.contains(1));
    assert!(manager.contains(2));
    assert!(manager.take_two(2, 1).is_some());
    assert_eq!(manager.len(), 0);
    assert_eq!(manager.my_len(), 0);
}

#[test]
fn take_mine_twice_needs_two_of_this_nodes_own() {
    let mut manager = fresh_manager();
    assert!(manager.insert(dummy_triple(1), true));
    assert!(manager.insert(dummy_triple(2), false));
    assert!(manager.take_mine_twice().is_none());
    assert_eq!(manager.len(), 2);
    assert_eq!(manager.my_len(), 1);
    assert!(manager.contains_mine(1));
}

#[test]
fn take_mine_twice_takes_the_oldest() {
    let mut manager = fresh_manager();
    for id in [10, 11, 12] {
        assert!(manager.insert(dummy_triple(id), true));
    }
    let (first, second) = manager.take_mine_twice().unwrap();
    assert_eq!((first.id, second.id), (10, 11));
    assert_eq!(manager.iter_mine_ids(), vec![12]);
}

#[test]
fn insert_keeps_the_item_that_is_there() {
    let mut manager = fresh_manager();
    assert!(manager.insert(dummy_triple(1), false));
    let mut other = dummy_triple(1);
    other.public.threshold = 9;
    assert!(!manager.insert(other, true));
    assert_eq!(manager.len(), 1);
    assert_eq!(manager.my_len(), 0);
    assert!(!manager.contains_mine(1));
    assert_eq!(manager.take(1).unwrap().public.threshold, 5);
}

#[test]
fn insert_mine_grows_own_count_by_one() {
    let mut manager = fresh_manager();
    assert!(manager.insert(dummy_triple(1), false));
    let before = manager.my_len();
    assert!(manager.insert(dummy_triple(2), true));
    assert!(manager.contains(2));
    assert!(manager.contains_mine(2));
    assert_eq!(manager.my_len(), before + 1);
}

#[test]
fn epoch_purge() {
    let mut manager = TripleManager::new(vec![0, 1, 2], 0, 2, 123);
    assert!(manager.insert(dummy_triple(1), false));
    assert!(manager.insert(dummy_triple(2), true));
    manager.set_target_count(10);
    manager.generate_with_id(3).unwrap();
    assert_eq!(manager.potential_len(), 3);
    assert!(manager.advance_epoch(vec![0, 1, 2], 2, 124));
    manager.purge_epoch(123);
    assert_eq!(manager.epoch(), 124);
    assert_eq!(manager.len(), 0);
    assert_eq!(manager.my_len(), 0);
    assert_eq!(manager.potential_len(), 0);
    assert!(manager.is_empty());
}

#[test]
fn purge_epoch_removes_only_that_epoch() {
    let mut manager = fresh_manager();
    assert!(manager.insert(dummy_triple(1), false));
    assert!(manager.insert(dummy_triple(2), true));
    manager.purge_epoch(122);
    assert_eq!(manager.len(), 2);
    assert_eq!(manager.my_len(), 1);
    manager.purge_epoch(123);
    assert_eq!(manager.len(), 0);
    assert_eq!(manager.my_len(), 0);
    assert_eq!(manager.epoch(), 123);
}

#[test]
fn advance_epoch_refuses_an_epoch_that_is_not_later() {
    let mut manager = fresh_manager();
    assert!(manager.insert(dummy_triple(1), false));
    assert!(!manager.advance_epoch(vec![5, 6], 2, 123));
    assert!(!manager.advance_epoch(vec![5, 6], 2, 7));
    assert_eq!(manager.epoch(), 123);
    assert_eq!(manager.len(), 1);
    assert_eq!(manager.threshold(), 5);
    assert_eq!(manager.participants(), &vec![0, 1, 2]);
    assert!(manager.advance_epoch(vec![5, 6], 2, 124));
    assert_eq!(manager.threshold(), 2);
    assert_eq!(manager.participants(), &vec![5, 6]);
    assert_eq!(manager.len(), 0);
}

#[test]
fn generate_counts_as_potential_only() {
    let mut manager = TripleManager::new(vec![0, 1, 2], 0, 2, 1);
    manager.generate_with_id(77).unwrap();
    assert!(manager.is_generating(77));
    assert!(!manager.contains(77));
    assert_eq!(manager.len(), 0);
    assert_eq!(manager.generating_len(), 1);
    assert_eq!(manager.potential_len(), 1);
    manager.generate().unwrap();
    assert_eq!(manager.generating_len(), 2);
    assert_eq!(manager.potential_len(), manager.len() + manager.generating_len());
}

#[test]
fn generate_refuses_an_id_in_use() {
    let mut manager = TripleManager::new(vec![0, 1, 2], 0, 2, 1);
    assert!(manager.insert(dummy_triple(5), false));
    manager.generate_with_id(6).unwrap();
    assert!(matches!(manager.generate_with_id(5), Err(GenerateError::IdCollision)));
    assert!(matches!(manager.generate_with_id(6), Err(GenerateError::IdCollision)));
    assert_eq!(manager.potential_len(), 2);
}

#[test]
fn generate_refuses_bad_parameters() {
    // fewer than two participants
    let mut manager = TripleManager::new(vec![0], 0, 1, 1);
    assert!(matches!(manager.generate_with_id(1), Err(GenerateError::Init(_))));
    assert!(matches!(manager.generate(), Err(GenerateError::Init(_))));
    // a threshold above the number of participants
    let mut manager = TripleManager::new(vec![0, 1, 2], 0, 4, 1);
    assert!(matches!(manager.generate_with_id(1), Err(GenerateError::Init(_))));
    // a participant named twice
    let mut manager = TripleManager::new(vec![0, 1, 1], 0, 2, 1);
    assert!(matches!(manager.generate_with_id(1), Err(GenerateError::Init(_))));
    assert_eq!(manager.potential_len(), 0);
    // a threshold equal to the number of participants is accepted
    let mut manager = TripleManager::new(vec![0, 1, 2], 0, 3, 1);
    assert!(manager.generate_with_id(1).is_ok());
}

#[test]
fn insert_refuses_an_id_that_is_generating() {
    let mut manager = TripleManager::new(vec![0, 1, 2], 0, 2, 1);
    manager.generate_with_id(9).unwrap();
    assert!(!manager.insert(dummy_triple(9), true));
    assert!(!manager.contains(9));
    assert!(manager.is_generating(9));
    assert_eq!(manager.potential_len(), 1);
}

#[test]
fn get_or_generate_joins_starts_or_declines() {
    let mut manager = TripleManager::new(vec![0, 1, 2], 1, 2, 1);
    assert!(manager.insert(dummy_triple(1), false));
    // already generated
    assert!(manager.get_or_generate(1).unwrap().is_none());
    assert_eq!(manager.generating_len(), 0);
    // never seen: a generator is started on a peer's initiative
    assert!(manager.get_or_generate(2).unwrap().is_some());
    assert!(manager.is_generating(2));
    assert_eq!(manager.generating_len(), 1);
    // being generated: the same generator
    assert!(manager.get_or_generate(2).unwrap().is_some());
    assert_eq!(manager.generating_len(), 1);
    // bad parameters
    let mut manager = TripleManager::new(vec![0], 0, 1, 1);
    assert!(matches!(manager.get_or_generate(2), Err(GenerateError::Init(_))));
    assert_eq!(manager.generating_len(), 0);
}

#[test]
fn expire_marks_then_drops() {
    let mut manager = TripleManager::new(vec![0, 1, 2], 0, 2, 1);
    manager.generate_with_id(1).unwrap();
    // first sweep: the generator is seen for the first time
    assert!(manager.expire(1_000, 50).is_empty());
    manager.generate_with_id(2).unwrap();
    // exactly the timeout later: not older than the timeout
    assert!(manager.expire(1_050, 50).is_empty());
    assert_eq!(manager.generating_len(), 2);
    // one more: the first generator is dropped, the second has just been seen
    assert_eq!(manager.expire(1_051, 50), vec![1]);
    assert!(!manager.is_generating(1));
    assert!(manager.is_generating(2));
    // a clock that runs backwards drops nothing
    assert!(manager.expire(10, 50).is_empty());
    assert_eq!(manager.expire(1_101, 50), vec![2]);
    assert_eq!(manager.potential_len(), 0);
    // the id is free again
    manager.generate_with_id(1).unwrap();
}

#[test]
fn route_drops_stale_and_completed() {
    let mut manager = TripleManager::new(vec![0, 1, 2], 1, 2, 5);
    assert!(manager.insert(dummy_triple(1), false));
    let stale = TripleMessage { id: 2, epoch: 4, from: 0, data: vec![1, 2, 3] };
    assert!(matches!(route_triple(&mut manager, stale), Routed::StaleEpoch));
    assert_eq!(manager.generating_len(), 0);
    let done = TripleMessage { id: 1, epoch: 5, from: 0, data: vec![1, 2, 3] };
    assert!(matches!(route_triple(&mut manager, done), Routed::AlreadyCompleted));
    assert_eq!(manager.generating_len(), 0);
    let fresh = TripleMessage { id: 2, epoch: 5, from: 0, data: vec![1, 2, 3] };
    assert!(matches!(route_triple(&mut manager, fresh), Routed::Delivered));
    assert!(manager.is_generating(2));
    let mut lonely = TripleManager::new(vec![1], 1, 1, 5);
    let fresh = TripleMessage { id: 2, epoch: 5, from: 0, data: vec![1, 2, 3] };
    assert_eq!(route_triple(&mut lonely, fresh), Routed::Refused);
    assert_eq!(lonely.generating_len(), 0);
}

/// Runs the managers of all participants against each other until none of them has a
/// generator left, and returns how many rounds that took.
fn run_to_completion(managers: &mut Vec<TripleManager>) -> usize {
    let mut rounds = 0;
    while managers.iter().any(|m| m.generating_len() > 0) {
        rounds += 1;
        assert!(rounds < 10_000, "the protocol did not end");
        for at in 0..managers.len() {
            let messages = match managers[at].poke() {
                Ok(messages) => messages,
                Err(_) => panic!("a generator failed"),
            };
            for (to, message) in messages {
                assert_eq!(message.from, at as Participant);
                assert_ne!(to, at as Participant);
                assert_eq!(message.epoch, 9);
                let routed = route_triple(&mut managers[to as usize], message);
                assert!(matches!(routed, Routed::Delivered | Routed::AlreadyCompleted));
            }
        }
    }
    rounds
}

#[test]
fn three_nodes_generate_a_triple() {
    let participants: Vec<Participant> = vec![0, 1, 2];
    let mut managers: Vec<TripleManager> =
        (0..3).map(|me| TripleManager::new(participants.clone(), me, 2, 9)).collect();
    managers[1].generate_with_id(1234).unwrap();
    let first = managers[1].poke().unwrap();
    assert!(!first.is_empty());
    for (to, message) in first {
        assert_eq!(message.id, 1234);
        assert_eq!(message.from, 1);
        assert!(matches!(route_triple(&mut managers[to as usize], message), Routed::Delivered));
    }
    // the peers have joined on the first message
    assert!(managers[0].is_generating(1234));
    assert!(managers[2].is_generating(1234));
    run_to_completion(&mut managers);
    for (me, manager) in managers.iter().enumerate() {
        assert!(manager.contains(1234));
        assert!(!manager.is_generating(1234));
        assert_eq!(manager.len(), 1);
        assert_eq!(manager.potential_len(), 1);
        // only the node that started the generation owns the triple
        assert_eq!(manager.contains_mine(1234), me == 1);
    }
    let triple = managers[0].take(1234).unwrap();
    assert_eq!(triple.id, 1234);
    assert_eq!(triple.public.participants, participants);
    assert_eq!(triple.public.threshold, 2);
    let other = managers[2].take(1234).unwrap();
    assert_eq!(other.public.big_a, triple.public.big_a);
    assert_eq!(other.public.big_b, triple.public.big_b);
    assert_eq!(other.public.big_c, triple.public.big_c);
    assert_ne!(triple.public.big_a, AffinePoint::default());
    // a message that arrives late is dropped
    let late = TripleMessage { id: 1234, epoch: 9, from: 0, data: vec![0] };
    assert!(matches!(route_triple(&mut managers[1], late), Routed::AlreadyCompleted));
}

#[test]
fn a_failed_generator_is_dropped_and_reported() {
    let participants: Vec<Participant> = vec![0, 1, 2];
    let mut sender = TripleManager::new(participants.clone(), 1, 2, 9);
    let mut receiver = TripleManager::new(participants.clone(), 0, 2, 9);
    sender.generate_with_id(55).unwrap();
    // a second generator on the receiving node, which is healthy
    receiver.generate_with_id(66).unwrap();
    let sent = sender.poke().unwrap();
    let (_, genuine) = sent.into_iter().find(|(to, _)| *to == 0).unwrap();
    // keep the header of the message, and put nonsense in place of its body
    let mut data = genuine.data[..28].to_vec();
    data.extend_from_slice(&[0xc1, 0xc1, 0xc1]);
    let forged = TripleMessage { id: 55, epoch: 9, from: 1, data };
    assert_eq!(route_triple(&mut receiver, forged), Routed::Delivered);
    assert!(receiver.is_generating(55));
    assert_eq!(receiver.potential_len(), 2);
    let error = match receiver.poke() {
        Ok(_) => panic!("the forged message went through"),
        Err(error) => error,
    };
    assert_eq!(error.failures.len(), 1);
    assert_eq!(error.failures[0].id, 55);
    // the generator is gone and its id is free; the healthy one stays
    assert!(!receiver.is_generating(55));
    assert!(!receiver.contains(55));
    assert!(receiver.is_generating(66));
    assert_eq!(receiver.potential_len(), 1);
    // what the healthy generator had to say is not lost
    assert!(!error.messages.is_empty());
    assert!(error.messages.iter().all(|(to, m)| *to != 0 && m.from == 0 && m.epoch == 9));
    assert!(error.messages.iter().any(|(_, m)| m.id == 66));
    // a second round has nothing to report
    assert!(receiver.poke().is_ok());
    receiver.generate_with_id(55).unwrap();
}

#[test]
fn apply_does_what_the_action_asks_for() {
    let mut manager = TripleManager::new(vec![4, 7, 2, 9], 7, 3, 21);
    manager.generate_with_id(50).unwrap();
    assert_eq!(route_triple(&mut manager, TripleMessage { id: 60, epoch: 21, from: 4, data: vec![] }), Routed::Delivered);
    let mut outbox = Vec::new();

    // waiting changes nothing
    assert!(matches!(manager.apply(50, Action::Wait, &mut outbox), Progress::Waiting));
    assert!(outbox.is_empty());
    assert_eq!(manager.potential_len(), 2);

    // a broadcast goes to every participant but this node, in their order
    let progress = manager.apply(50, Action::SendBroadcast(vec![1, 2, 3]), &mut outbox);
    assert!(matches!(progress, Progress::Continue));
    let recipients: Vec<Participant> = outbox.iter().map(|(to, _)| *to).collect();
    assert_eq!(recipients, vec![4, 2, 9]);
    for (_, message) in &outbox {
        assert_eq!((message.id, message.epoch, message.from), (50, 21, 7));
        assert_eq!(message.data, vec![1, 2, 3]);
    }

    // a private message goes to its recipient only, behind what is in the outbox
    let progress = manager.apply(60, Action::SendPrivate(9, vec![8]), &mut outbox);
    assert!(matches!(progress, Progress::Continue));
    assert_eq!(outbox.len(), 4);
    let (to, message) = &outbox[3];
    assert_eq!(*to, 9);
    assert_eq!((message.id, message.epoch, message.from), (60, 21, 7));
    assert_eq!(message.data, vec![8]);

    // a generator that has finished leaves its triple in the pool, as this node's own if
    // this node has started it
    let done = |threshold: usize| {
        let triple = dummy_triple(0);
        Action::Done((triple.share, TriplePub { threshold, ..triple.public }))
    };
    assert!(matches!(manager.apply(60, done(60), &mut outbox), Progress::Completed));
    assert!(manager.contains(60));
    assert!(!manager.contains_mine(60));
    assert!(!manager.is_generating(60));
    assert!(matches!(manager.apply(50, done(50), &mut outbox), Progress::Completed));
    assert!(manager.contains_mine(50));
    assert_eq!(manager.iter_mine_ids(), vec![50]);
    assert_eq!(manager.generating_len(), 0);
    assert_eq!(manager.potential_len(), 2);
    assert_eq!(manager.get(50).unwrap().id, 50);
    assert_eq!(manager.get(50).unwrap().public.threshold, 50);
    assert_eq!(manager.get(60).unwrap().public.threshold, 60);
    assert!(manager.get(70).is_none());
    assert_eq!(outbox.len(), 4);

    // a generator that has failed leaves nothing
    manager.generate_with_id(70).unwrap();
    let failed = Action::Failed(ProtocolError::AssertionFailed("no".to_string()));
    match manager.apply(70, failed, &mut outbox) {
        Progress::Failed(failure) => {
            assert_eq!(failure.id, 70);
            assert_eq!(failure.cause.to_string(), "assertion failed no");
        },
        _ => panic!("the failure was not reported"),
    }
    assert!(!manager.is_generating(70));
    assert!(!manager.contains(70));
    assert_eq!(manager.potential_len(), 2);
    assert_eq!(outbox.len(), 4);
}

#[test]
fn a_broadcast_of_a_node_that_is_no_participant_goes_to_all() {
    let mut manager = TripleManager::new(vec![4, 7], 1, 2, 21);
    manager.generate_with_id(50).unwrap();
    let mut outbox = Vec::new();
    manager.apply(50, Action::SendBroadcast(vec![5]), &mut outbox);
    let recipients: Vec<Participant> = outbox.iter().map(|(to, _)| *to).collect();
    assert_eq!(recipients, vec![4, 7]);
}

#[test]
fn the_manager_lists_its_triples() {
    let mut manager = fresh_manager();
    for id in [30, 10, 20, 40] {
        assert!(manager.insert(dummy_triple(id), id >= 30));
    }
    let mut ids = manager.ids();
    ids.sort();
    assert_eq!(ids, vec![10, 20, 30, 40]);
    let entries = manager.into_entries();
    assert_eq!(entries.len(), 4);
    assert_eq!((entries[0].0.id, entries[0].1), (30, true));
    assert_eq!((entries[1].0.id, entries[1].1), (40, true));
    let mut others: Vec<u64> = entries[2..].iter().map(|(triple, _)| triple.id).collect();
    others.sort();
    assert_eq!(others, vec![10, 20]);
    assert!(entries[2..].iter().all(|(_, mine)| !mine));
    // a fresh manager that is given the listing holds the same
    let mut restored = fresh_manager();
    for (triple, mine) in entries {
        assert!(restored.insert(triple, mine));
    }
    assert_eq!(restored.len(), 4);
    assert_eq!(restored.iter_mine_ids(), vec![30, 40]);
}
