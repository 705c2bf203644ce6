use scp::ballot::Ballot;
use scp::message::{Message, ValidityError};
use scp::node::NodeId;
use scp::quorum::{Member, Quorum};
use scp::slot::{deadline_after, priority_peer_of, Phase, Slot, SlotId, ROUND_DURATION};
use scp::topic::{Commit, Nominate, Prepare, Topic};
use scp::value_set::ValueSet;

fn flat(threshold: usize, nodes: &[u64]) -> Quorum<u64> {
    let members = nodes.iter().map(|n| Member::Node(NodeId(*n))).collect();
    Quorum::new(threshold, members).unwrap()
}

fn set(values: &[u64]) -> ValueSet<u64> {
    ValueSet::from_vec(values.to_vec())
}

fn nominating(sender: u64, nominated: &[u64], accepted: &[u64]) -> Message<u64> {
    let mut counter = 0;
    let topic = Topic::Nominate(Nominate { nominated: set(nominated), accepted: set(accepted) });
    Message::new(NodeId(sender), SlotId(0), flat(3, &[1, 2, 3, 4]), topic, &mut counter)
}

fn preparing(sender: u64, quorum: Quorum<u64>, highest: usize, lowest: usize) -> Message<u64> {
    let mut counter = 0;
    let topic = Topic::Prepare(Prepare {
        ballot: Ballot::new(1, 7),
        prepared_a: Ballot::new(1, 7),
        prepared_b: Ballot::none(),
        highest,
        lowest,
    });
    Message::new(NodeId(sender), SlotId(0), quorum, topic, &mut counter)
}

fn committing(sender: u64, quorum: Quorum<u64>) -> Message<u64> {
    let mut counter = 0;
    let topic =
        Topic::Commit(Commit { ballot: Ballot::new(1, 7), prepared: 1, highest: 1, lowest: 1 });
    Message::new(NodeId(sender), SlotId(0), quorum, topic, &mut counter)
}

fn fresh() -> Slot<u64> {
    Slot::new(SlotId(0), NodeId(1), flat(3, &[1, 2, 3, 4]), 50)
}

#[test]
fn new_slot_nominates_and_holds_nothing() {
    let slot = fresh();
    assert_eq!(slot.phase(), Phase::Nominate);
    assert_eq!(slot.id(), SlotId(0));
    assert_eq!(slot.node_id(), NodeId(1));
    assert_eq!(slot.created(), 50);
    assert!(slot.nominated().is_empty() && slot.accepted().is_empty());
    assert!(slot.confirmed().is_empty());
    assert!(slot.ballot().is_zero() && slot.prepared_a().is_zero() && slot.prepared_b().is_zero());
    assert!(slot.highest().is_zero() && slot.lowest().is_zero());
    assert!(slot.sent().is_none());
    assert_eq!(slot.messages().len(), 0);
    assert_eq!(slot.priority_round(), 1);
    assert_eq!(slot.priority_timer(), 50 + ROUND_DURATION);
    assert_eq!(slot.priority_peers().len(), 1);
    assert!(slot.priority_peers().contains(&NodeId(2)));
    assert!(slot.statement().is_none());
    let mut counter = 5;
    assert!(slot.build_message(&mut counter).is_none());
    assert_eq!(counter, 5);
}

#[test]
fn deadlines_grow_with_the_round_and_stop_at_the_last_time() {
    assert_eq!(ROUND_DURATION, 1000);
    assert_eq!(deadline_after(50, 1), 1050);
    assert_eq!(deadline_after(50, 3), 3050);
    assert_eq!(deadline_after(0, 0), 0);
    assert_eq!(deadline_after(u64::MAX - 999, 1), u64::MAX);
    assert_eq!(deadline_after(u64::MAX - 1000, 1), u64::MAX);
    assert_eq!(deadline_after(u64::MAX - 1001, 1), u64::MAX - 1);
    assert_eq!(deadline_after(7, usize::MAX), u64::MAX);
}

#[test]
fn priority_peers_take_turns() {
    let quorum = flat(3, &[1, 2, 3, 4]);
    assert_eq!(priority_peer_of(&quorum, SlotId(0), 1), Some(NodeId(2)));
    assert_eq!(priority_peer_of(&quorum, SlotId(0), 2), Some(NodeId(3)));
    assert_eq!(priority_peer_of(&quorum, SlotId(0), 4), Some(NodeId(1)));
    assert_eq!(priority_peer_of(&quorum, SlotId(3), 1), Some(NodeId(1)));
    assert_eq!(priority_peer_of(&quorum, SlotId(6), 7), Some(NodeId(2)));
    assert_eq!(priority_peer_of(&quorum, SlotId(usize::MAX), usize::MAX), Some(NodeId(3)));
}

#[test]
fn tick_begins_the_next_round_when_the_round_has_ended() {
    let mut slot = fresh();
    slot.tick(1049);
    assert_eq!(slot.priority_round(), 1);
    assert_eq!(slot.priority_peers().len(), 1);
    slot.tick(1050);
    assert_eq!(slot.priority_round(), 2);
    assert_eq!(slot.priority_timer(), 1050 + 2 * ROUND_DURATION);
    assert_eq!(slot.priority_peers().len(), 2);
    assert!(slot.priority_peers().contains(&NodeId(2)));
    assert!(slot.priority_peers().contains(&NodeId(3)));
    slot.tick(1051);
    assert_eq!(slot.priority_round(), 2);
}

#[test]
fn tick_moves_a_preparing_slot_to_the_next_ballot() {
    let mut slot = fresh();
    let mut counter = 0;
    slot.handle(nominating(2, &[7], &[7]), &mut counter).unwrap();
    slot.handle(nominating(3, &[7], &[7]), &mut counter).unwrap();
    assert_eq!(slot.phase(), Phase::NominatePrepare);
    assert_eq!(slot.ballot().number, 1);
    slot.tick(1049);
    assert_eq!(slot.ballot().number, 1);
    slot.tick(1050);
    assert_eq!(slot.ballot().number, 2);
    assert_eq!(slot.ballot().value, Some(7));
    assert_eq!(slot.priority_round(), 2);
    assert_eq!(slot.priority_peers().len(), 2);
    // The new ballot is stated with the next message that comes in.
    let sent = slot.handle(nominating(4, &[7], &[7]), &mut counter).unwrap().unwrap();
    match &sent.topic {
        Topic::NominatePrepare(_, p) => assert_eq!(p.ballot.number, 2),
        _ => panic!("the slot should state that it nominates and prepares"),
    }
}

#[test]
fn tick_leaves_a_committing_slot_alone() {
    let quorum = || flat(2, &[1, 2, 3]);
    let mut slot: Slot<u64> = Slot::new(SlotId(0), NodeId(1), quorum(), 0);
    let mut counter = 0;
    for message in [
        preparing(3, quorum(), 0, 0),
        preparing(2, quorum(), 0, 0),
        preparing(2, quorum(), 1, 1),
        preparing(3, quorum(), 1, 1),
    ] {
        slot.handle(message, &mut counter).unwrap();
    }
    assert_eq!(slot.phase(), Phase::Commit);
    slot.tick(1_000_000);
    assert_eq!(slot.ballot().number, 1);
    assert_eq!(slot.priority_round(), 1);
    assert_eq!(slot.priority_timer(), ROUND_DURATION);
}

fn preparing_ballot(sender: u64, quorum: Quorum<u64>, number: usize, value: u64) -> Message<u64> {
    let mut counter = 0;
    let topic = Topic::Prepare(Prepare {
        ballot: Ballot::new(number, value),
        prepared_a: Ballot::new(number, value),
        prepared_b: Ballot::none(),
        highest: 0,
        lowest: 0,
    });
    Message::new(NodeId(sender), SlotId(0), quorum, topic, &mut counter)
}

#[test]
fn ballot_follows_what_the_slot_accepts_as_prepared() {
    // Of the two nodes 1 and 2 both must agree, so one blocks.
    let quorum = || flat(2, &[1, 2]);
    let mut slot: Slot<u64> = Slot::new(SlotId(0), NodeId(1), quorum(), 0);
    let mut counter = 0;
    let sent = slot.handle(preparing_ballot(2, quorum(), 4, 1), &mut counter).unwrap().unwrap();
    assert_eq!(sent.valid(), Ok(()));
    assert_eq!(slot.phase(), Phase::Prepare);
    assert_eq!((slot.ballot().number, slot.ballot().value), (4, Some(1)));
    assert_eq!((slot.prepared_a().number, slot.prepared_a().value), (4, Some(1)));
    assert_eq!((slot.highest().number, slot.highest().value), (4, Some(1)));

    let sent = slot.handle(preparing_ballot(2, quorum(), 5, 2), &mut counter).unwrap().unwrap();
    assert_eq!(sent.valid(), Ok(()));
    assert_eq!((slot.prepared_a().number, slot.prepared_a().value), (5, Some(2)));
    assert_eq!((slot.prepared_b().number, slot.prepared_b().value), (4, Some(1)));
    assert_eq!((slot.highest().number, slot.highest().value), (5, Some(2)));
    assert_eq!((slot.ballot().number, slot.ballot().value), (5, Some(2)));
    assert_ne!(slot.ballot().compare(slot.prepared_a()), scp::value::Order::Less);
}

#[test]
fn ballot_takes_the_next_number_to_stay_above_what_is_prepared() {
    let quorum = || flat(2, &[1, 2]);
    let mut slot: Slot<u64> = Slot::new(SlotId(0), NodeId(1), quorum(), 0);
    let mut counter = 0;
    slot.handle(preparing_ballot(2, quorum(), 4, 1), &mut counter).unwrap();
    // Node 2 now names a quorum set of which nothing is known: what it holds
    // prepared is accepted on its word, but not confirmed.
    let sent = slot
        .handle(preparing_ballot(2, flat(2, &[5, 6]), 5, 2), &mut counter)
        .unwrap()
        .unwrap();
    assert_eq!((slot.prepared_a().number, slot.prepared_a().value), (5, Some(2)));
    assert_eq!((slot.prepared_b().number, slot.prepared_b().value), (4, Some(1)));
    assert_eq!((slot.highest().number, slot.highest().value), (4, Some(1)));
    // The ballot keeps the value of what is confirmed, under the next number.
    assert_eq!((slot.ballot().number, slot.ballot().value), (6, Some(1)));
    assert_eq!(slot.ballot().compare(slot.prepared_a()), scp::value::Order::Greater);
    assert_eq!(sent.valid(), Ok(()));
    match &sent.topic {
        Topic::Prepare(p) => {
            assert_eq!((p.ballot.number, p.ballot.value), (6, Some(1)));
            assert_eq!((p.prepared_a.number, p.prepared_a.value), (5, Some(2)));
            assert_eq!((p.highest, p.lowest), (4, 4));
        }
        _ => panic!("the slot should state that it prepares"),
    }
}

#[test]
fn malformed_message_is_refused_and_not_kept() {
    let mut slot = fresh();
    let mut counter = 0;
    let refused = slot.handle(nominating(2, &[7], &[8]), &mut counter);
    assert_eq!(refused.err(), Some(ValidityError::Nominate));
    assert_eq!(slot.messages().len(), 0);
    assert!(slot.messages().get(&NodeId(2)).is_none());
    assert!(slot.nominated().is_empty());
    assert!(slot.sent().is_none());
    assert_eq!(counter, 0);
}

#[test]
fn slot_adopts_what_a_priority_peer_nominates() {
    let mut slot = fresh();
    let mut counter = 0;
    let sent = slot.handle(nominating(2, &[7, 8], &[8]), &mut counter).unwrap().unwrap();
    assert_eq!(counter, 1);
    assert_eq!(sent.counter, 1);
    assert_eq!(sent.sender, NodeId(1));
    assert_eq!(sent.slot_id, SlotId(0));
    assert!(slot.nominated().same(&set(&[7, 8])));
    assert!(slot.accepted().is_empty());
    assert_eq!(slot.phase(), Phase::Nominate);
    let expected = Topic::Nominate(Nominate { nominated: set(&[7, 8]), accepted: set(&[]) });
    assert!(sent.topic.same(&expected));
    assert!(slot.sent().unwrap().topic.same(&expected));
    assert!(slot.messages().get(&NodeId(2)).is_some());
}

#[test]
fn slot_ignores_the_nominations_of_other_peers() {
    let mut slot = fresh();
    let mut counter = 0;
    let sent = slot.handle(nominating(3, &[7], &[7]), &mut counter).unwrap();
    assert!(sent.is_none());
    assert!(slot.nominated().is_empty());
    assert_eq!(counter, 0);
    assert!(slot.messages().get(&NodeId(3)).is_some());
}

#[test]
fn same_statement_is_not_sent_twice() {
    let mut slot = fresh();
    let mut counter = 0;
    let first = slot.handle(nominating(2, &[7], &[7]), &mut counter).unwrap();
    assert!(first.is_some());
    let second = slot.handle(nominating(2, &[7], &[7]), &mut counter).unwrap();
    assert!(second.is_none());
    assert_eq!(counter, 1);
    assert_eq!(slot.sent().unwrap().counter, 1);
}

#[test]
fn older_statement_does_not_replace_the_one_kept() {
    let mut slot = fresh();
    let mut counter = 0;
    slot.handle(nominating(3, &[7, 8], &[7, 8]), &mut counter).unwrap();
    slot.handle(nominating(3, &[7], &[7]), &mut counter).unwrap();
    let kept = slot.messages().get(&NodeId(3)).unwrap();
    assert!(kept.topic.same(&Topic::Nominate(Nominate {
        nominated: set(&[7, 8]),
        accepted: set(&[7, 8]),
    })));
    slot.handle(nominating(3, &[7, 8], &[7, 8, 9]), &mut counter).unwrap();
    let kept = slot.messages().get(&NodeId(3)).unwrap();
    assert!(kept.topic.accepted_nominated().same(&set(&[7, 8, 9])));
}

#[test]
fn blocking_set_makes_the_slot_accept_and_a_quorum_confirm() {
    // Of four nodes with threshold 3, two block. Nodes 2 and 3 accept 7.
    let mut slot = fresh();
    let mut counter = 0;
    slot.handle(nominating(2, &[7], &[7]), &mut counter).unwrap();
    assert!(slot.nominated().same(&set(&[7])));
    assert!(slot.accepted().is_empty());
    let sent = slot.handle(nominating(3, &[7], &[7]), &mut counter).unwrap().unwrap();
    assert!(slot.accepted().same(&set(&[7])));
    assert!(slot.nominated().is_empty());
    // The node itself, 2 and 3 make a quorum that accepts 7.
    assert!(slot.confirmed().same(&set(&[7])));
    assert_eq!(slot.phase(), Phase::NominatePrepare);
    assert_eq!(slot.ballot().number, 1);
    assert_eq!(slot.ballot().value, Some(7));
    match &sent.topic {
        Topic::NominatePrepare(n, p) => {
            assert!(n.accepted.same(&set(&[7])));
            assert!(n.nominated.is_empty());
            assert_eq!(p.ballot.number, 1);
            assert_eq!(p.ballot.value, Some(7));
            assert!(p.prepared_a.is_zero());
            assert_eq!((p.highest, p.lowest), (0, 0));
        }
        _ => panic!("the slot should state that it nominates and prepares"),
    }
}

#[test]
fn slot_goes_from_nomination_to_decision() {
    let quorum = || flat(2, &[1, 2, 3]);
    let mut slot: Slot<u64> = Slot::new(SlotId(0), NodeId(1), quorum(), 0);
    let mut counter = 0;

    // One peer that holds (1, 7) prepared does not block.
    let sent = slot.handle(preparing(3, quorum(), 0, 0), &mut counter).unwrap();
    assert!(sent.is_none());
    assert_eq!(slot.phase(), Phase::Nominate);

    // Two do: the slot accepts (1, 7) as prepared, and with itself they are
    // a quorum, so it confirms it too.
    let sent = slot.handle(preparing(2, quorum(), 0, 0), &mut counter).unwrap().unwrap();
    assert_eq!(slot.phase(), Phase::Prepare);
    assert_eq!(slot.prepared_a().number, 1);
    assert_eq!(slot.prepared_a().value, Some(7));
    assert!(slot.prepared_b().is_zero());
    assert_eq!(slot.ballot().number, 1);
    assert_eq!(slot.ballot().value, Some(7));
    assert_eq!(slot.highest().number, 1);
    assert_eq!(slot.lowest().number, 1);
    match &sent.topic {
        Topic::Prepare(p) => assert_eq!((p.highest, p.lowest), (1, 1)),
        _ => panic!("the slot should state that it prepares"),
    }

    // One peer that votes to commit is no quorum.
    let sent = slot.handle(preparing(2, quorum(), 1, 1), &mut counter).unwrap();
    assert!(sent.is_none());
    assert_eq!(slot.phase(), Phase::Prepare);

    // Two are, with the slot's own vote.
    let sent = slot.handle(preparing(3, quorum(), 1, 1), &mut counter).unwrap().unwrap();
    assert_eq!(slot.phase(), Phase::Commit);
    match &sent.topic {
        Topic::Commit(c) => {
            assert_eq!((c.prepared, c.highest, c.lowest), (1, 1, 1));
            assert_eq!(c.ballot.value, Some(7));
        }
        _ => panic!("the slot should state that it commits"),
    }

    // A quorum that accepts the commit decides.
    let sent = slot.handle(committing(2, quorum()), &mut counter).unwrap();
    assert!(sent.is_none());
    assert_eq!(slot.phase(), Phase::Commit);
    let sent = slot.handle(committing(3, quorum()), &mut counter).unwrap().unwrap();
    assert_eq!(slot.phase(), Phase::Externalize);
    match &sent.topic {
        Topic::Externalize(e) => {
            assert_eq!(e.ballot.number, 1);
            assert_eq!(e.ballot.value, Some(7));
            assert_eq!(e.highest, 1);
        }
        _ => panic!("the slot should state its decision"),
    }
    assert_eq!(slot.decision().ballot.value, Some(7));
    assert_eq!(counter, 3);
}
