//! Predicates: conditions that narrow as messages pass them.

use vstd::prelude::*;
use crate::ballot::{duplicate_value, Ballot};
use crate::message::{Message, MessageView};
use crate::value::Value;
use crate::value_set::ValueSet;

verus! {

/// A condition that is tested against one message after the other and
/// narrows with each message that meets it.
///
/// The view of a predicate is its state. `narrowed` says what a test does to
/// a state: `None` where the message is rejected, else the state to go on with.
pub trait Predicate<T: Value>: View + Sized {
    /// The state after a successful test of `message`, or `None` where
    /// `message` fails the test.
    spec fn narrowed(state: Self::V, message: MessageView<T>) -> Option<Self::V>;

    /// Tests `message`: the narrowed predicate, or `None` where it fails.
    fn test(self, message: &Message<T>) -> (r: Option<Self>)
        ensures
            match Self::narrowed(self@, message@) {
                Some(state) => r is Some && r->0@ == state,
                None => r is None,
            },
    ;

    /// An independent copy, to be narrowed apart from this one.
    fn dupe(&self) -> (r: Self)
        ensures
            r@ == self@,
    ;
}

/// The state of a predicate that narrows a set of candidate values.
#[verifier::reject_recursive_types(T)]
pub struct Candidates<T> {
    /// The values that every message tested so far lets stand.
    pub values: Set<T>,
    /// Whether a message lets a value stand that it only votes for.
    pub votes: bool,
}

/// A predicate that narrows a set of candidate values to those that every
/// tested message accepts as nominated or, if `votes` is set, votes to
/// nominate or accepts as nominated.
#[derive(Debug)]
pub struct HashSetPredicate<T: Value> {
    values: ValueSet<T>,
    votes: bool,
}

impl<T: Value> View for HashSetPredicate<T> {
    type V = Candidates<T>;

    closed spec fn view(&self) -> Candidates<T> {
        Candidates { values: self.values@, votes: self.votes }
    }
}

impl<T: Value> HashSetPredicate<T> {
    /// The predicate that starts from the candidates `values`.
    pub fn new(values: ValueSet<T>, votes: bool) -> (r: Self)
        ensures
            r@ == (Candidates { values: values@, votes }),
    {
        HashSetPredicate { values, votes }
    }

    /// The candidates that are left.
    pub fn values(&self) -> (r: &ValueSet<T>)
        ensures
            r@ == self@.values,
    {
        &self.values
    }

    /// The candidates that are left.
    pub fn into_values(self) -> (r: ValueSet<T>)
        ensures
            r@ == self@.values,
    {
        self.values
    }
}

impl<T: Value> Predicate<T> for HashSetPredicate<T> {
    open spec fn narrowed(state: Candidates<T>, message: MessageView<T>) -> Option<Candidates<T>> {
        let stated = if state.votes {
            message.topic.voted_or_accepted_nominated()
        } else {
            message.topic.accepted_nominated()
        };
        let next = state.values.intersect(stated);
        if state.values == Set::<T>::empty() || next == Set::<T>::empty() {
            None
        } else {
            Some(Candidates { values: next, votes: state.votes })
        }
    }

    fn test(self, message: &Message<T>) -> (r: Option<Self>) {
        if self.values.is_empty() {
            return None;
        }
        let stated = if self.votes {
            message.topic.voted_or_accepted_nominated()
        } else {
            message.topic.accepted_nominated()
        };
        let next_values = self.values.intersection(&stated);
        if next_values.is_empty() {
            None
        } else {
            Some(HashSetPredicate { values: next_values, votes: self.votes })
        }
    }

    fn dupe(&self) -> (r: Self) {
        HashSetPredicate { values: self.values.duplicate(), votes: self.votes }
    }
}

/// The state of a predicate that asks whether a ballot is prepared.
pub struct Prepared<T: Value> {
    /// The ballot that is asked about.
    pub ballot: Ballot<T>,
    /// Whether a message passes that only votes to prepare the ballot.
    pub votes: bool,
}

/// A predicate that is a yes-or-no question to each message and never
/// narrows: whether the message accepts a given ballot as prepared or, if
/// `votes` is set, votes to prepare it or accepts it as prepared.
#[derive(Debug)]
pub struct FnPredicate<T: Value> {
    ballot: Ballot<T>,
    votes: bool,
}

impl<T: Value> View for FnPredicate<T> {
    type V = Prepared<T>;

    closed spec fn view(&self) -> Prepared<T> {
        Prepared { ballot: self.ballot, votes: self.votes }
    }
}

impl<T: Value> FnPredicate<T> {
    /// The predicate that asks about `ballot`.
    pub fn new(ballot: Ballot<T>, votes: bool) -> (r: Self)
        ensures
            r@ == (Prepared { ballot, votes }),
    {
        FnPredicate { ballot, votes }
    }
}

impl<T: Value> Predicate<T> for FnPredicate<T> {
    open spec fn narrowed(state: Prepared<T>, message: MessageView<T>) -> Option<Prepared<T>> {
        let passes = if state.votes {
            message.topic.votes_or_accepts_prepared(state.ballot)
        } else {
            message.topic.accepts_prepared(state.ballot)
        };
        if passes {
            Some(state)
        } else {
            None
        }
    }

    fn test(self, message: &Message<T>) -> (r: Option<Self>) {
        let passes = if self.votes {
            message.topic.votes_or_accepts_prepared(&self.ballot)
        } else {
            message.topic.accepts_prepared(&self.ballot)
        };
        if passes {
            Some(self)
        } else {
            None
        }
    }

    fn dupe(&self) -> (r: Self) {
        FnPredicate { ballot: self.ballot.duplicate(), votes: self.votes }
    }
}

/// The state of a predicate that narrows a window of ballot numbers.
pub struct Window<T: Value> {
    /// The lowest number of the window.
    pub min: usize,
    /// The highest number of the window.
    pub max: usize,
    /// The value whose commit is asked about.
    pub value: Option<T>,
    /// Whether a message counts that only votes to commit.
    pub votes: bool,
}

/// A predicate that narrows a window `min..=max` of ballot numbers to the
/// numbers for which every tested message accepts the commit of a given
/// value or, if `votes` is set, votes to commit it or accepts its commit.
#[derive(Debug)]
pub struct MinMaxPredicate<T: Value> {
    min: usize,
    max: usize,
    value: Option<T>,
    votes: bool,
}

impl<T: Value> View for MinMaxPredicate<T> {
    type V = Window<T>;

    closed spec fn view(&self) -> Window<T> {
        Window { min: self.min, max: self.max, value: self.value, votes: self.votes }
    }
}

impl<T: Value> MinMaxPredicate<T> {
    /// The predicate that starts from the window `min..=max` and asks about
    /// the commit of `value`.
    pub fn new(min: usize, max: usize, value: Option<T>, votes: bool) -> (r: Self)
        ensures
            r@ == (Window { min, max, value, votes }),
    {
        MinMaxPredicate { min, max, value, votes }
    }

    /// The lowest number of the window that is left.
    pub fn min(&self) -> (n: usize)
        ensures
            n == self@.min,
    {
        self.min
    }

    /// The highest number of the window that is left.
    pub fn max(&self) -> (n: usize)
        ensures
            n == self@.max,
    {
        self.max
    }
}

impl<T: Value> Predicate<T> for MinMaxPredicate<T> {
    open spec fn narrowed(state: Window<T>, message: MessageView<T>) -> Option<Window<T>> {
        let stated = if state.votes {
            message.topic.votes_or_accepts_commit(state.value, state.min, state.max)
        } else {
            message.topic.accepts_commit(state.value, state.min, state.max)
        };
        if state.min > state.max {
            None
        } else {
            match stated {
                Some((min, max)) => Some(
                    Window { min, max, value: state.value, votes: state.votes },
                ),
                None => None,
            }
        }
    }

    fn test(self, message: &Message<T>) -> (r: Option<Self>) {
        if self.min > self.max {
            return None;
        }
        let stated = if self.votes {
            message.topic.votes_or_accepts_commit(&self.value, self.min, self.max)
        } else {
            message.topic.accepts_commit(&self.value, self.min, self.max)
        };
        match stated {
            Some((min, max)) => Some(
                MinMaxPredicate { min, max, value: self.value, votes: self.votes },
            ),
            None => None,
        }
    }

    fn dupe(&self) -> (r: Self) {
        MinMaxPredicate {
            min: self.min,
            max: self.max,
            value: duplicate_value(&self.value),
            votes: self.votes,
        }
    }
}

} // verus!
