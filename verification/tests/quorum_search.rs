use scp::message::Message;
use scp::message_cache::MessageCache;
use scp::node::NodeId;
use scp::node_set::NodeSet;
use scp::predicate::{FnPredicate, HashSetPredicate, MinMaxPredicate, Predicate};
use scp::quorum::{Member, Quorum};
use scp::slot::SlotId;
use scp::ballot::Ballot;
use scp::topic::{Commit, Externalize, Nominate, Prepare, Topic};
use scp::value_set::ValueSet;

fn flat(threshold: usize, nodes: &[u64]) -> Quorum<u64> {
    let members = nodes.iter().map(|n| Member::Node(NodeId(*n))).collect();
    Quorum::new(threshold, members).unwrap()
}

fn accepting(sender: u64, quorum: Quorum<u64>, value: u64, counter: &mut usize) -> Message<u64> {
    let topic = Topic::Nominate(Nominate {
        nominated: ValueSet::from_vec(vec![value]),
        accepted: ValueSet::from_vec(vec![value]),
    });
    Message::new(NodeId(sender), SlotId(1), quorum, topic, counter)
}

fn candidates(value: u64) -> HashSetPredicate<u64> {
    HashSetPredicate::new(ValueSet::from_vec(vec![value]), false)
}

#[test]
fn needed_is_one_more_than_the_members_beyond_the_threshold() {
    assert_eq!(flat(3, &[1, 2, 3, 4]).needed(), 2);
    assert_eq!(flat(1, &[1, 2]).needed(), 2);
    assert_eq!(flat(2, &[1, 2]).needed(), 1);
    assert_eq!(flat(4, &[1, 2, 3, 4]).needed(), 1);
}

#[test]
fn quorum_needs_a_threshold_within_its_members() {
    assert!(Quorum::<u64>::new(0, vec![Member::Node(NodeId(1))]).is_none());
    assert!(Quorum::<u64>::new(2, vec![Member::Node(NodeId(1))]).is_none());
    assert!(Quorum::<u64>::new(1, vec![]).is_none());
    let quorum = Quorum::<u64>::new(1, vec![Member::Node(NodeId(1))]).unwrap();
    assert_eq!(quorum.threshold(), 1);
    assert_eq!(quorum.members().len(), 1);
}

#[test]
fn quorum_sets_nest_to_a_limit() {
    assert_eq!(scp::quorum::MAX_NESTING, 16);
    let mut quorum = flat(1, &[1]);
    assert!(!quorum.nested_beyond(1));
    assert!(quorum.nested_beyond(0));
    for level in 2..=16 {
        quorum = Quorum::new(1, vec![Member::Node(NodeId(1)), Member::Quorum(quorum)]).unwrap();
        assert!(!quorum.nested_beyond(level));
        assert!(quorum.nested_beyond(level - 1));
    }
    assert!(Quorum::new(1, vec![Member::Quorum(quorum)]).is_none());
}

#[test]
fn nodes_are_listed_in_declared_order() {
    let inner = flat(2, &[2, 3]);
    let outer: Quorum<u64> = Quorum::new(
        1,
        vec![Member::Node(NodeId(1)), Member::Quorum(inner), Member::Node(NodeId(2))],
    )
    .unwrap();
    assert_eq!(outer.nodes(), vec![NodeId(1), NodeId(2), NodeId(3), NodeId(2)]);
}

#[test]
fn find_quorum_with_three_of_four() {
    let mut counter = 0;
    let mut cache = MessageCache::new();
    for sender in [1, 2, 3] {
        cache.insert(accepting(sender, flat(3, &[1, 2, 3, 4]), 7, &mut counter));
    }
    let (found, narrowed) = flat(3, &[1, 2, 3, 4]).find_quorum(NodeId(1), &cache, candidates(7));
    assert_eq!(found.len(), 3);
    assert!(found.contains(&NodeId(1)));
    assert!(found.contains(&NodeId(2)));
    assert!(found.contains(&NodeId(3)));
    assert!(!found.contains(&NodeId(4)));
    assert!(narrowed.values().same(&ValueSet::from_vec(vec![7])));
}

#[test]
fn find_quorum_with_two_of_four_is_empty() {
    let mut counter = 0;
    let mut cache = MessageCache::new();
    cache.insert(accepting(1, flat(3, &[1, 2, 3, 4]), 7, &mut counter));
    cache.insert(accepting(2, flat(3, &[1, 2, 3, 4]), 7, &mut counter));
    cache.insert(accepting(3, flat(3, &[1, 2, 3, 4]), 8, &mut counter));
    let (found, _) = flat(3, &[1, 2, 3, 4]).find_quorum(NodeId(1), &cache, candidates(7));
    assert!(found.is_empty());
    assert_eq!(found.len(), 0);
}

#[test]
fn find_quorum_counts_the_asking_node_without_a_message() {
    // The asking node is the fourth member and has sent nothing: it counts
    // as accepting all the same, so two matching senders make three.
    let mut counter = 0;
    let mut cache = MessageCache::new();
    cache.insert(accepting(1, flat(3, &[1, 2, 3, 4]), 7, &mut counter));
    cache.insert(accepting(2, flat(3, &[1, 2, 3, 4]), 7, &mut counter));
    let (found, narrowed) = flat(3, &[1, 2, 3, 4]).find_quorum(NodeId(4), &cache, candidates(7));
    assert_eq!(found.len(), 3);
    assert!(found.contains(&NodeId(4)));
    assert!(found.contains(&NodeId(1)));
    assert!(found.contains(&NodeId(2)));
    assert!(!found.contains(&NodeId(3)));
    assert!(narrowed.values().same(&ValueSet::from_vec(vec![7])));
    // Asked as a node that is no member, the same two senders are too few.
    let (found, _) = flat(3, &[1, 2, 3, 4]).find_quorum(NodeId(9), &cache, candidates(7));
    assert!(found.is_empty());
}

#[test]
fn find_quorum_asks_the_senders_own_slice() {
    // Node 2 passes the test, but its own quorum set wants nodes 5 and 6,
    // of whom nothing is known: it does not count.
    let mut counter = 0;
    let mut cache = MessageCache::new();
    cache.insert(accepting(1, flat(2, &[1, 2]), 7, &mut counter));
    cache.insert(accepting(2, flat(2, &[5, 6]), 7, &mut counter));
    let (found, _) = flat(2, &[1, 2]).find_quorum(NodeId(1), &cache, candidates(7));
    assert!(found.is_empty());

    let mut cache = MessageCache::new();
    cache.insert(accepting(1, flat(2, &[1, 2]), 7, &mut counter));
    cache.insert(accepting(2, flat(2, &[1, 2]), 7, &mut counter));
    let (found, _) = flat(2, &[1, 2]).find_quorum(NodeId(1), &cache, candidates(7));
    assert_eq!(found.len(), 2);
}

#[test]
fn find_blocking_goes_through_nested_quorums() {
    // 1 of {A, 2 of {B, C}}: two members must accept, the inner set with one.
    let (a, b, c) = (10, 20, 30);
    let outer = || -> Quorum<u64> {
        Quorum::new(1, vec![Member::Node(NodeId(a)), Member::Quorum(flat(2, &[b, c]))]).unwrap()
    };
    assert_eq!(outer().needed(), 2);
    assert_eq!(flat(2, &[b, c]).needed(), 1);

    let mut counter = 0;
    let mut cache = MessageCache::new();
    cache.insert(accepting(a, outer(), 7, &mut counter));
    cache.insert(accepting(b, outer(), 7, &mut counter));
    let (found, narrowed) = outer().find_blocking(&cache, candidates(7));
    assert_eq!(found.len(), 2);
    assert!(found.contains(&NodeId(a)));
    assert!(found.contains(&NodeId(b)));
    assert!(!found.contains(&NodeId(c)));
    assert!(narrowed.values().same(&ValueSet::from_vec(vec![7])));
}

#[test]
fn find_blocking_fails_when_only_the_inner_set_accepts() {
    let (a, b, c) = (10, 20, 30);
    let outer = || -> Quorum<u64> {
        Quorum::new(1, vec![Member::Node(NodeId(a)), Member::Quorum(flat(2, &[b, c]))]).unwrap()
    };
    let mut counter = 0;
    let mut cache = MessageCache::new();
    cache.insert(accepting(b, outer(), 7, &mut counter));
    let (found, _) = outer().find_blocking(&cache, candidates(7));
    assert!(found.is_empty());
}

#[test]
fn search_for_nothing_succeeds_with_what_it_has() {
    let cache = MessageCache::new();
    let quorum = flat(1, &[1, 2]);
    let mut so_far = NodeSet::new();
    so_far.insert(NodeId(9));
    let (found, _) =
        Quorum::find_blocking_inner(0, quorum.members(), &cache, candidates(7), so_far.duplicate());
    assert_eq!(found.len(), 1);
    assert!(found.contains(&NodeId(9)));
    let (found, _) =
        Quorum::find_quorum_inner(0, quorum.members(), &cache, candidates(7), so_far.duplicate());
    assert!(found.contains(&NodeId(9)));
    let (found, _) =
        Quorum::find_blocking_inner(0, quorum.members(), &cache, candidates(7), NodeSet::new());
    assert!(found.is_empty());
    // More members are wanted than there are.
    let (found, _) =
        Quorum::find_blocking_inner(3, quorum.members(), &cache, candidates(7), so_far.duplicate());
    assert!(found.is_empty());
    let (found, _) = Quorum::find_quorum_inner(3, quorum.members(), &cache, candidates(7), so_far);
    assert!(found.is_empty());
}

#[test]
fn node_sets_behave_as_sets() {
    let mut set = NodeSet::new();
    assert!(set.is_empty());
    assert!(set.insert(NodeId(3)));
    assert!(set.insert(NodeId(1)));
    assert!(!set.insert(NodeId(3)));
    assert_eq!(set.len(), 2);
    assert_eq!(set.get(0), NodeId(3));
    assert_eq!(set.get(1), NodeId(1));
    assert!(set.contains(&NodeId(1)) && !set.contains(&NodeId(2)));
    assert_eq!(set.duplicate().len(), 2);
}

#[test]
fn message_cache_keeps_the_last_message_of_each_sender() {
    let mut counter = 0;
    let mut cache = MessageCache::new();
    assert_eq!(cache.len(), 0);
    cache.insert(accepting(1, flat(1, &[1]), 7, &mut counter));
    cache.insert(accepting(2, flat(1, &[1]), 7, &mut counter));
    cache.insert(accepting(1, flat(1, &[1]), 8, &mut counter));
    assert_eq!(cache.len(), 2);
    assert_eq!(cache.get(&NodeId(1)).unwrap().counter, 3);
    assert!(cache.get(&NodeId(1)).unwrap().topic.accepted_nominated().contains(&8));
    assert_eq!(cache.get(&NodeId(2)).unwrap().counter, 2);
    assert!(cache.get(&NodeId(3)).is_none());
}

#[test]
fn find_blocking_narrows_to_what_all_accept() {
    let mut counter = 0;
    let mut cache = MessageCache::new();
    let both = Topic::Nominate(Nominate {
        nominated: ValueSet::from_vec(vec![7]),
        accepted: ValueSet::from_vec(vec![7, 8]),
    });
    cache.insert(Message::new(NodeId(1), SlotId(1), flat(1, &[1, 2]), both, &mut counter));
    cache.insert(accepting(2, flat(1, &[1, 2]), 8, &mut counter));
    let start = HashSetPredicate::new(ValueSet::from_vec(vec![7, 8, 9]), false);
    let (found, narrowed) = flat(1, &[1, 2]).find_blocking(&cache, start);
    assert_eq!(found.len(), 2);
    assert!(narrowed.values().same(&ValueSet::from_vec(vec![8])));
}

#[test]
fn set_predicate_counts_votes_only_when_asked() {
    let mut counter = 0;
    let topic = Topic::Nominate(Nominate {
        nominated: ValueSet::from_vec(vec![7]),
        accepted: ValueSet::from_vec(vec![8]),
    });
    let message = Message::new(NodeId(1), SlotId(1), flat(1, &[1]), topic, &mut counter);
    let strict = HashSetPredicate::new(ValueSet::from_vec(vec![7]), false);
    assert!(strict.test(&message).is_none());
    let voting = HashSetPredicate::new(ValueSet::from_vec(vec![7, 9]), true);
    let narrowed = voting.dupe().test(&message).unwrap();
    assert!(narrowed.values().same(&ValueSet::from_vec(vec![7])));
    assert!(voting.into_values().same(&ValueSet::from_vec(vec![7, 9])));
    let empty = HashSetPredicate::new(ValueSet::<u64>::new(), true);
    assert!(empty.test(&message).is_none());
}

#[test]
fn prepared_predicate_asks_about_one_ballot() {
    let mut counter = 0;
    let topic = Topic::Prepare(Prepare {
        ballot: Ballot::new(5, 7),
        prepared_a: Ballot::new(3, 7),
        prepared_b: Ballot::new(2, 8),
        highest: 0,
        lowest: 0,
    });
    let message = Message::new(NodeId(1), SlotId(1), flat(1, &[1]), topic, &mut counter);
    assert!(FnPredicate::new(Ballot::new(3, 7), false).test(&message).is_some());
    assert!(FnPredicate::new(Ballot::new(1, 7), false).test(&message).is_some());
    assert!(FnPredicate::new(Ballot::new(2, 8), false).test(&message).is_some());
    assert!(FnPredicate::new(Ballot::new(3, 8), false).test(&message).is_none());
    assert!(FnPredicate::new(Ballot::new(4, 7), false).test(&message).is_none());
    assert!(FnPredicate::new(Ballot::new(4, 7), true).test(&message).is_some());
    assert!(FnPredicate::new(Ballot::new(6, 7), true).test(&message).is_none());
}

#[test]
fn window_predicate_narrows_to_the_overlap() {
    let mut counter = 0;
    let commit = Topic::Commit(Commit { ballot: Ballot::new(9, 7), prepared: 9, highest: 6, lowest: 3 });
    let message = Message::new(NodeId(1), SlotId(1), flat(1, &[1]), commit, &mut counter);
    let narrowed = MinMaxPredicate::new(1, 5, Some(7), false).test(&message).unwrap();
    assert_eq!((narrowed.min(), narrowed.max()), (3, 5));
    let narrowed = MinMaxPredicate::new(4, 9, Some(7), false).test(&message).unwrap();
    assert_eq!((narrowed.min(), narrowed.max()), (4, 6));
    assert!(MinMaxPredicate::new(7, 9, Some(7), false).test(&message).is_none());
    assert!(MinMaxPredicate::new(1, 2, Some(7), false).test(&message).is_none());
    assert!(MinMaxPredicate::new(1, 5, Some(8), false).test(&message).is_none());
    assert!(MinMaxPredicate::new(5, 1, Some(7), false).test(&message).is_none());

    let decided = Topic::Externalize(Externalize { ballot: Ballot::new(4, 7), highest: 6 });
    let message = Message::new(NodeId(1), SlotId(1), flat(1, &[1]), decided, &mut counter);
    let narrowed = MinMaxPredicate::new(1, 9, Some(7), false).test(&message).unwrap();
    assert_eq!((narrowed.min(), narrowed.max()), (4, 9));
    assert!(MinMaxPredicate::new(1, 3, Some(7), false).test(&message).is_none());

    let voting = Topic::Prepare(Prepare {
        ballot: Ballot::new(9, 7),
        prepared_a: Ballot::new(9, 7),
        prepared_b: Ballot::none(),
        highest: 6,
        lowest: 3,
    });
    let message = Message::new(NodeId(1), SlotId(1), flat(1, &[1]), voting, &mut counter);
    assert!(MinMaxPredicate::new(1, 5, Some(7), false).test(&message).is_none());
    let narrowed = MinMaxPredicate::new(1, 5, Some(7), true).test(&message).unwrap();
    assert_eq!((narrowed.min(), narrowed.max()), (3, 5));
}
