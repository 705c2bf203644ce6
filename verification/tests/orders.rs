use scp::ballot::Ballot;
use scp::message::{Message, ValidityError};
use scp::node::NodeId;
use scp::quorum::{Member, Quorum};
use scp::slot::SlotId;
use scp::topic::{Commit, Externalize, Nominate, Prepare, Topic};
use scp::value::{combine, compare_numbers, Order, Value};
use scp::value_set::ValueSet;

fn set(values: &[u64]) -> ValueSet<u64> {
    ValueSet::from_vec(values.to_vec())
}

fn nominate(nominated: &[u64], accepted: &[u64]) -> Nominate<u64> {
    Nominate { nominated: set(nominated), accepted: set(accepted) }
}

fn prepare(ballot: (usize, u64), a: (usize, u64), b: (usize, u64), highest: usize, lowest: usize) -> Prepare<u64> {
    Prepare {
        ballot: Ballot::new(ballot.0, ballot.1),
        prepared_a: Ballot::new(a.0, a.1),
        prepared_b: Ballot::new(b.0, b.1),
        highest,
        lowest,
    }
}

fn envelope(topic: Topic<u64>) -> Message<u64> {
    let mut counter = 0;
    let quorum = Quorum::new(1, vec![Member::Node(NodeId(1))]).unwrap();
    Message::new(NodeId(1), SlotId(1), quorum, topic, &mut counter)
}

#[test]
fn numbers_compare_as_usual() {
    assert_eq!(compare_numbers(1, 2), Order::Less);
    assert_eq!(compare_numbers(2, 2), Order::Equal);
    assert_eq!(compare_numbers(3, 2), Order::Greater);
}

#[test]
fn ballots_compare_by_number_then_value() {
    assert_eq!(Ballot::new(1, 9u64).compare(&Ballot::new(2, 0)), Order::Less);
    assert_eq!(Ballot::new(2, 0u64).compare(&Ballot::new(1, 9)), Order::Greater);
    assert_eq!(Ballot::new(2, 3u64).compare(&Ballot::new(2, 4)), Order::Less);
    assert_eq!(Ballot::new(2, 4u64).compare(&Ballot::new(2, 3)), Order::Greater);
    assert_eq!(Ballot::new(2, 4u64).compare(&Ballot::new(2, 4)), Order::Equal);
}

#[test]
fn zero_ballot_is_comparable_and_comes_first() {
    let zero = Ballot::<u64>::none();
    assert!(zero.is_zero());
    assert!(Ballot::new(0, 5u64).is_zero());
    assert!(!Ballot::new(1, 5u64).is_zero());
    assert_eq!(zero.compare(&Ballot::none()), Order::Equal);
    assert_eq!(zero.compare(&Ballot::new(0, 0)), Order::Less);
    assert_eq!(zero.compare(&Ballot::new(1, 0)), Order::Less);
    assert_eq!(Ballot::new(1, 0u64).compare(&zero), Order::Greater);
}

#[test]
fn ballot_covers_lower_numbers_of_its_value() {
    let ballot = Ballot::new(3, 7u64);
    assert!(ballot.is_covering(&Ballot::new(3, 7)));
    assert!(ballot.is_covering(&Ballot::new(1, 7)));
    assert!(!ballot.is_covering(&Ballot::new(4, 7)));
    assert!(!ballot.is_covering(&Ballot::new(1, 8)));
    assert!(!Ballot::new(0, 7u64).is_covering(&Ballot::new(0, 7)));
}

#[test]
fn ballot_order_is_transitive_on_samples() {
    let samples = [
        Ballot::<u64>::none(),
        Ballot::new(0, 1),
        Ballot::new(1, 0),
        Ballot::new(1, 5),
        Ballot::new(2, 0),
    ];
    for a in &samples {
        for b in &samples {
            assert_eq!(a.compare(b) == Order::Less, b.compare(a) == Order::Greater);
            for c in &samples {
                if a.compare(b) == Order::Less && b.compare(c) == Order::Less {
                    assert_eq!(a.compare(c), Order::Less);
                }
            }
        }
    }
}

#[test]
fn nominate_compares_by_sizes_only() {
    assert_eq!(nominate(&[1, 2, 3], &[4]).compare(&nominate(&[1], &[5, 6])), Order::Less);
    assert_eq!(nominate(&[1], &[5, 6]).compare(&nominate(&[1, 2, 3], &[4])), Order::Greater);
    assert_eq!(nominate(&[1], &[4]).compare(&nominate(&[1, 2], &[5])), Order::Less);
    assert_eq!(nominate(&[1, 2], &[4]).compare(&nominate(&[8, 9], &[5])), Order::Equal);
    assert!(!nominate(&[1, 2], &[4]).same(&nominate(&[8, 9], &[5])));
    assert!(nominate(&[1, 2], &[4]).same(&nominate(&[2, 1], &[4])));
}

#[test]
fn prepare_compares_ballot_then_prepared_then_highest() {
    let base = prepare((3, 1), (2, 1), (1, 1), 5, 0);
    assert_eq!(base.compare(&prepare((4, 0), (0, 0), (0, 0), 0, 0)), Order::Less);
    assert_eq!(base.compare(&prepare((3, 1), (2, 2), (0, 0), 0, 0)), Order::Less);
    assert_eq!(base.compare(&prepare((3, 1), (2, 1), (1, 2), 0, 0)), Order::Less);
    assert_eq!(base.compare(&prepare((3, 1), (2, 1), (1, 1), 6, 0)), Order::Less);
    assert_eq!(base.compare(&prepare((3, 1), (2, 1), (1, 1), 5, 9)), Order::Equal);
    assert_eq!(base.compare(&prepare((3, 1), (2, 1), (1, 1), 4, 9)), Order::Greater);
    assert!(!base.same(&prepare((3, 1), (2, 1), (1, 1), 5, 9)));
    assert!(base.same(&prepare((3, 1), (2, 1), (1, 1), 5, 0)));
}

#[test]
fn commit_compares_ballot_then_prepared_then_highest() {
    let commit = |ballot: (usize, u64), prepared, highest, lowest| Commit {
        ballot: Ballot::new(ballot.0, ballot.1),
        prepared,
        highest,
        lowest,
    };
    let base = commit((3, 1), 2, 5, 1);
    assert_eq!(base.compare(&commit((3, 2), 0, 0, 0)), Order::Less);
    assert_eq!(base.compare(&commit((3, 1), 3, 0, 0)), Order::Less);
    assert_eq!(base.compare(&commit((3, 1), 2, 6, 0)), Order::Less);
    assert_eq!(base.compare(&commit((3, 1), 2, 5, 4)), Order::Equal);
    assert_eq!(base.compare(&commit((3, 1), 2, 4, 4)), Order::Greater);
}

#[test]
fn externalize_compares_highest_only() {
    let a = Externalize { ballot: Ballot::new(9, 1u64), highest: 3 };
    let b = Externalize { ballot: Ballot::new(1, 2u64), highest: 4 };
    let c = Externalize { ballot: Ballot::new(5, 5u64), highest: 3 };
    assert_eq!(a.compare(&b), Order::Less);
    assert_eq!(b.compare(&a), Order::Greater);
    assert_eq!(a.compare(&c), Order::Equal);
    assert!(!a.same(&c));
}

#[test]
fn topics_of_different_kinds_compare_by_precedence() {
    let topics = || -> Vec<Topic<u64>> {
        vec![
            Topic::Nominate(nominate(&[1, 2, 3], &[1, 2, 3])),
            Topic::NominatePrepare(nominate(&[], &[]), prepare((9, 9), (9, 9), (9, 9), 9, 9)),
            Topic::Prepare(prepare((1, 0), (0, 0), (0, 0), 0, 0)),
            Topic::Commit(Commit { ballot: Ballot::none(), prepared: 0, highest: 0, lowest: 0 }),
            Topic::Externalize(Externalize { ballot: Ballot::none(), highest: 0 }),
        ]
    };
    let (left, right) = (topics(), topics());
    for (i, a) in left.iter().enumerate() {
        assert_eq!(a.precedence(), i);
        for (j, b) in right.iter().enumerate() {
            assert_eq!(a.compare(b), compare_numbers(i, j));
        }
    }
}

#[test]
fn nominate_prepare_compares_nominate_first() {
    let a = Topic::NominatePrepare(nominate(&[1], &[1]), prepare((9, 0), (0, 0), (0, 0), 0, 0));
    let b = Topic::NominatePrepare(nominate(&[1], &[1, 2]), prepare((1, 0), (0, 0), (0, 0), 0, 0));
    let c = Topic::NominatePrepare(nominate(&[2], &[3]), prepare((9, 1), (0, 0), (0, 0), 0, 0));
    assert_eq!(a.compare(&b), Order::Less);
    assert_eq!(b.compare(&a), Order::Greater);
    assert_eq!(a.compare(&c), Order::Less);
    assert_eq!(a.compare(&a.duplicate()), Order::Equal);
    assert!(a.same(&a.duplicate()));
    assert!(!a.same(&c));
}

#[test]
fn nominate_with_disjoint_sets_is_malformed() {
    let disjoint = envelope(Topic::Nominate(nominate(&[1, 2], &[3])));
    assert_eq!(disjoint.valid(), Err(ValidityError::Nominate));
    let empty = envelope(Topic::Nominate(nominate(&[], &[])));
    assert_eq!(empty.valid(), Err(ValidityError::Nominate));
    let meeting = envelope(Topic::Nominate(nominate(&[1, 2], &[2, 3])));
    assert_eq!(meeting.valid(), Ok(()));
}

#[test]
fn prepare_is_checked_rule_by_rule() {
    let valid = |p: Prepare<u64>| envelope(Topic::Prepare(p)).valid();
    assert_eq!(valid(prepare((3, 1), (2, 1), (1, 1), 3, 1)), Ok(()));
    assert_eq!(valid(prepare((3, 1), (3, 1), (1, 1), 0, 0)), Ok(()));
    // prepared_a above ballot
    assert_eq!(valid(prepare((3, 1), (3, 2), (1, 1), 0, 0)), Err(ValidityError::Prepare));
    // prepared_b not below prepared_a
    assert_eq!(valid(prepare((3, 1), (2, 1), (2, 1), 0, 0)), Err(ValidityError::Prepare));
    assert_eq!(valid(prepare((3, 1), (2, 1), (2, 2), 0, 0)), Err(ValidityError::Prepare));
    // lowest above highest
    assert_eq!(valid(prepare((3, 1), (2, 1), (1, 1), 1, 2)), Err(ValidityError::Prepare));
    // highest above the ballot's number
    assert_eq!(valid(prepare((3, 1), (2, 1), (1, 1), 4, 1)), Err(ValidityError::Prepare));
}

#[test]
fn commit_and_externalize_are_checked() {
    let commit = |highest, lowest| {
        envelope(Topic::Commit(Commit { ballot: Ballot::new(1, 1u64), prepared: 1, highest, lowest }))
    };
    assert_eq!(commit(2, 2).valid(), Ok(()));
    assert_eq!(commit(1, 2).valid(), Err(ValidityError::Commit));
    let decided = envelope(Topic::Externalize(Externalize { ballot: Ballot::none(), highest: 0 }));
    assert_eq!(decided.valid(), Ok(()));
}

#[test]
fn nominate_prepare_is_valid_when_both_parts_are() {
    let good = prepare((3, 1), (2, 1), (1, 1), 3, 1);
    let bad = prepare((3, 1), (2, 1), (2, 1), 3, 1);
    let valid = |n: Nominate<u64>, p: Prepare<u64>| envelope(Topic::NominatePrepare(n, p)).valid();
    assert_eq!(valid(nominate(&[1], &[1]), good.duplicate()), Ok(()));
    assert_eq!(valid(nominate(&[1], &[2]), good.duplicate()), Err(ValidityError::Nominate));
    assert_eq!(valid(nominate(&[1], &[1]), bad.duplicate()), Err(ValidityError::Prepare));
    assert_eq!(valid(nominate(&[1], &[2]), bad.duplicate()), Err(ValidityError::Nominate));
}

#[test]
fn message_counter_moves_on_with_each_message() {
    let mut counter = 41;
    let quorum = || Quorum::<u64>::new(1, vec![Member::Node(NodeId(1))]).unwrap();
    let first = Message::new(NodeId(1), SlotId(2), quorum(), Topic::Nominate(nominate(&[1], &[1])), &mut counter);
    assert_eq!((first.counter, counter), (42, 42));
    let second = Message::new(NodeId(1), SlotId(2), quorum(), Topic::Nominate(nominate(&[1], &[1])), &mut counter);
    assert_eq!((second.counter, counter), (43, 43));
    assert_eq!(second.sender, NodeId(1));
    assert_eq!(second.slot_id, SlotId(2));
    assert_eq!(second.duplicate().counter, 43);
}

#[test]
fn combine_merges_all_values_of_a_set() {
    assert_eq!(combine(set(&[]), &SlotId(1)), None);
    assert_eq!(combine(set(&[5]), &SlotId(1)), Some(5));
    assert_eq!(combine(set(&[5, 9, 2]), &SlotId(1)), Some(9));
    assert_eq!(combine(set(&[9, 2, 5]), &SlotId(1)), Some(9));
}

#[test]
fn merging_integers_is_commutative_and_associative() {
    let slot = SlotId(3);
    for a in [0u64, 1, 7, u64::MAX] {
        for b in [0u64, 2, 7, 100] {
            assert_eq!(u64::combine(a, b, slot), u64::combine(b, a, slot));
            for c in [0u64, 3, 50] {
                assert_eq!(
                    u64::combine(u64::combine(a, b, slot), c, slot),
                    u64::combine(a, u64::combine(b, c, slot), slot)
                );
            }
        }
    }
    assert_eq!(u64::combine(3, 9, slot), 9);
    assert_eq!(3u64.compare(&9), Order::Less);
    assert_eq!(9u64.duplicate(), 9);
}

#[test]
fn value_sets_behave_as_sets() {
    let mut s = ValueSet::<u64>::new();
    assert!(s.is_empty());
    assert!(s.insert(3));
    assert!(s.insert(5));
    assert!(!s.insert(3));
    assert_eq!(s.len(), 2);
    assert!(s.contains(&3) && s.contains(&5) && !s.contains(&4));
    assert_eq!(*s.get(0), 3);
    let t = set(&[5, 6]);
    assert!(s.intersection(&t).same(&set(&[5])));
    assert!(s.union(&t).same(&set(&[3, 5, 6])));
    assert!(s.difference(&t).same(&set(&[3])));
    assert!(s.intersects(&t));
    assert!(!s.intersects(&set(&[1])));
    assert!(set(&[5]).is_subset_of(&s));
    assert!(!t.is_subset_of(&s));
    assert!(s.duplicate().same(&s));
    assert_eq!(set(&[1, 1, 2]).len(), 2);
    assert_eq!(set(&[4, 2]).into_vec().len(), 2);
}
