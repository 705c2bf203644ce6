use scp::ballot::Ballot;
use scp::message::{Message, ValidityError};
use scp::node::{ConsensusError, Event, Node, NodeId};
use scp::quorum::{Member, Quorum};
use scp::slot::{Phase, SlotId};
use scp::slot_map::SlotMap;
use scp::topic::{Commit, Externalize, Nominate, Prepare, Topic};
use scp::value_set::ValueSet;

fn quorum() -> Quorum<u64> {
    let members = [1u64, 2, 3].iter().map(|n| Member::Node(NodeId(*n))).collect();
    Quorum::new(2, members).unwrap()
}

fn from(sender: u64, slot: usize, topic: Topic<u64>) -> Message<u64> {
    let mut counter = 0;
    Message::new(NodeId(sender), SlotId(slot), quorum(), topic, &mut counter)
}

fn decided(number: usize, value: u64, highest: usize) -> Externalize<u64> {
    Externalize { ballot: Ballot::new(number, value), highest }
}

fn node_with_decision() -> Node<u64> {
    let mut externalized = SlotMap::new();
    externalized.insert(SlotId(4), decided(3, 11, 5));
    Node::new(NodeId(1), quorum(), externalized)
}

fn preparing(sender: u64, highest: usize, lowest: usize) -> Message<u64> {
    let topic = Topic::Prepare(Prepare {
        ballot: Ballot::new(1, 7),
        prepared_a: Ballot::new(1, 7),
        prepared_b: Ballot::none(),
        highest,
        lowest,
    });
    from(sender, 9, topic)
}

fn committing(sender: u64) -> Message<u64> {
    from(
        sender,
        9,
        Topic::Commit(Commit { ballot: Ballot::new(1, 7), prepared: 1, highest: 1, lowest: 1 }),
    )
}

#[test]
fn new_node_knows_its_decisions() {
    let node = node_with_decision();
    assert_eq!(node.id(), NodeId(1));
    assert_eq!(node.counter(), 0);
    assert_eq!(node.externalized_value(SlotId(4)), Some(11));
    assert_eq!(node.externalized_value(SlotId(5)), None);
    assert!(node.decision(SlotId(4)).unwrap().same(&decided(3, 11, 5)));
    assert!(node.decision(SlotId(5)).is_none());
    assert!(!node.is_pending(SlotId(4)));
    assert!(!node.is_faulty(NodeId(2)));
}

#[test]
fn diverging_decision_is_reported() {
    let mut node = node_with_decision();
    let inbound = from(2, 4, Topic::Externalize(decided(3, 12, 5)));
    let answer = node.handle(inbound);
    assert_eq!(
        answer.err(),
        Some(ConsensusError::ConsensusDivergence { slot_id: SlotId(4), peer: NodeId(2) })
    );
    assert_eq!(node.externalized_value(SlotId(4)), Some(11));
    assert_eq!(node.counter(), 0);
    assert!(node.is_faulty(NodeId(2)));
    assert!(!node.is_faulty(NodeId(3)));
}

#[test]
fn faulty_peer_is_not_heard_again() {
    let mut node = node_with_decision();
    assert!(node.handle(from(2, 4, Topic::Externalize(decided(3, 12, 5)))).is_err());
    // Neither a second diverging statement nor anything else is answered.
    assert!(node.handle(from(2, 4, Topic::Externalize(decided(3, 12, 5)))).unwrap().is_none());
    assert!(node.handle(preparing(2, 0, 0)).unwrap().is_none());
    assert!(!node.is_pending(SlotId(9)));
    assert_eq!(node.counter(), 0);
    // Other peers are.
    assert!(node.handle(preparing(3, 0, 0)).unwrap().is_none());
    assert!(node.is_pending(SlotId(9)));
}

#[test]
fn agreeing_decision_is_met_with_silence() {
    let mut node = node_with_decision();
    let answer = node.handle(from(2, 4, Topic::Externalize(decided(8, 11, 9))));
    assert!(answer.unwrap().is_none());
    assert_eq!(node.counter(), 0);
    assert!(!node.is_pending(SlotId(4)));
}

#[test]
fn late_peer_is_told_the_decision() {
    let mut node = node_with_decision();
    let late = Topic::Nominate(Nominate {
        nominated: ValueSet::from_vec(vec![1]),
        accepted: ValueSet::from_vec(vec![2]),
    });
    let answer = node.handle(from(3, 4, late)).unwrap().unwrap();
    assert_eq!(answer.sender, NodeId(1));
    assert_eq!(answer.slot_id, SlotId(4));
    assert_eq!(answer.counter, 1);
    assert!(answer.topic.same(&Topic::Externalize(decided(3, 11, 5))));
    assert_eq!(node.counter(), 1);
    assert!(!node.is_pending(SlotId(4)));
}

#[test]
fn malformed_first_message_leaves_an_empty_slot() {
    let mut node = node_with_decision();
    let malformed = Topic::Nominate(Nominate {
        nominated: ValueSet::from_vec(vec![1]),
        accepted: ValueSet::from_vec(vec![2]),
    });
    let answer = node.handle(from(3, 9, malformed));
    assert_eq!(answer.err(), Some(ConsensusError::Validity(ValidityError::Nominate)));
    // The slot is there, but the message is not in it.
    assert!(node.is_pending(SlotId(9)));
    let slot = node.slot(SlotId(9)).unwrap();
    assert_eq!(slot.id(), SlotId(9));
    assert_eq!(slot.node_id(), NodeId(1));
    assert_eq!(slot.phase(), Phase::Nominate);
    assert_eq!(slot.messages().len(), 0);
    assert!(slot.sent().is_none());
    assert_eq!(node.counter(), 0);
    assert!(node.slot(SlotId(8)).is_none());

    let malformed = Topic::Commit(Commit { ballot: Ballot::new(1, 7), prepared: 1, highest: 1, lowest: 2 });
    let answer = node.handle(from(3, 9, malformed));
    assert_eq!(answer.err(), Some(ConsensusError::Validity(ValidityError::Commit)));
    let malformed = Topic::Prepare(Prepare {
        ballot: Ballot::new(1, 7),
        prepared_a: Ballot::new(2, 7),
        prepared_b: Ballot::none(),
        highest: 0,
        lowest: 0,
    });
    let answer = node.handle(from(3, 9, malformed));
    assert_eq!(answer.err(), Some(ConsensusError::Validity(ValidityError::Prepare)));
    assert_eq!(node.slot(SlotId(9)).unwrap().messages().len(), 0);
}

#[test]
fn malformed_message_leaves_a_pending_slot_as_it_was() {
    let mut node = node_with_decision();
    node.handle(preparing(3, 0, 0)).unwrap();
    assert_eq!(node.slot(SlotId(9)).unwrap().messages().len(), 1);
    let malformed = Topic::Commit(Commit { ballot: Ballot::new(1, 7), prepared: 1, highest: 1, lowest: 2 });
    assert!(node.handle(from(2, 9, malformed)).is_err());
    let slot = node.slot(SlotId(9)).unwrap();
    assert_eq!(slot.messages().len(), 1);
    assert!(slot.messages().get(&NodeId(2)).is_none());
    assert_eq!(slot.phase(), Phase::Nominate);
}

#[test]
fn malformed_message_about_a_decided_slot_opens_no_slot() {
    let mut node = node_with_decision();
    let malformed = Topic::Commit(Commit { ballot: Ballot::new(1, 7), prepared: 1, highest: 1, lowest: 2 });
    let answer = node.handle(from(3, 4, malformed)).unwrap().unwrap();
    assert!(answer.topic.same(&Topic::Externalize(decided(3, 11, 5))));
    assert!(!node.is_pending(SlotId(4)));
}

#[test]
fn first_message_creates_the_slot() {
    let mut node = node_with_decision();
    let answer = node.handle(preparing(3, 0, 0)).unwrap();
    assert!(answer.is_none());
    assert!(node.is_pending(SlotId(9)));
    assert_eq!(node.externalized_value(SlotId(9)), None);
}

#[test]
fn decided_slot_moves_to_the_decisions() {
    let mut node = node_with_decision();
    let mut sent = 0;
    for message in [
        preparing(3, 0, 0),
        preparing(2, 0, 0),
        preparing(2, 1, 1),
        preparing(3, 1, 1),
        committing(2),
    ] {
        if let Some(m) = node.handle(message).unwrap() {
            sent += 1;
            assert_eq!(m.counter, sent);
        }
        assert!(node.is_pending(SlotId(9)));
        assert_eq!(node.externalized_value(SlotId(9)), None);
    }
    let last = node.handle(committing(3)).unwrap().unwrap();
    assert!(last.topic.same(&Topic::Externalize(decided(1, 7, 1))));
    assert!(!node.is_pending(SlotId(9)));
    assert_eq!(node.externalized_value(SlotId(9)), Some(7));
    assert_eq!(node.counter(), 3);

    // From now on the node answers from its record.
    let answer = node.handle(preparing(2, 1, 1)).unwrap().unwrap();
    assert!(answer.topic.same(&Topic::Externalize(decided(1, 7, 1))));
    let answer = node.handle(from(2, 9, Topic::Externalize(decided(1, 8, 1))));
    assert_eq!(
        answer.err(),
        Some(ConsensusError::ConsensusDivergence { slot_id: SlotId(9), peer: NodeId(2) })
    );
    assert!(!node.is_pending(SlotId(9)));
}

#[test]
fn run_takes_messages_and_ticks() {
    let mut node = node_with_decision();
    assert!(node.run(Event::Tick(5000)).unwrap().is_none());
    assert_eq!(node.counter(), 0);
    assert!(node.run(Event::Message(preparing(3, 0, 0))).unwrap().is_none());
    assert!(node.is_pending(SlotId(9)));
    assert!(node.run(Event::Tick(9000)).unwrap().is_none());
    assert!(node.is_pending(SlotId(9)));
    let answer = node.run(Event::Message(from(2, 4, Topic::Externalize(decided(3, 12, 5)))));
    assert!(answer.is_err());
    node.tick(10_000);
    assert!(node.is_pending(SlotId(9)));
}

#[test]
fn slot_map_keeps_one_entry_per_slot() {
    let mut map: SlotMap<Externalize<u64>> = SlotMap::new();
    assert_eq!(map.len(), 0);
    map.insert(SlotId(1), decided(1, 1, 1));
    map.insert(SlotId(2), decided(2, 2, 2));
    map.insert(SlotId(1), decided(3, 3, 3));
    assert_eq!(map.len(), 2);
    assert!(map.contains_key(SlotId(1)) && map.contains_key(SlotId(2)));
    assert_eq!(map.get(SlotId(1)).unwrap().highest, 3);
    assert_eq!(map.remove(SlotId(1)).unwrap().highest, 3);
    assert!(map.remove(SlotId(1)).is_none());
    assert!(map.get(SlotId(1)).is_none());
    assert_eq!(map.into_entries().len(), 1);
}
