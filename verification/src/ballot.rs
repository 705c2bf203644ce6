//! Ballots and their order.

use vstd::prelude::*;
use crate::value::{order_of, Order, Value};

verus! {

/// A numbered proposal of a value.
///
/// A ballot with the number 0 is the zero ballot: it stands for "no ballot",
/// compares like any other, and never counts as progress.
#[derive(Debug)]
pub struct Ballot<T: Value> {
    pub number: usize,
    pub value: Option<T>,
}

/// Whether the value `a` of a ballot comes strictly before the value `b`:
/// an absent value comes before every value.
pub open spec fn value_precedes<T: Value>(a: Option<T>, b: Option<T>) -> bool {
    match (a, b) {
        (None, Some(_)) => true,
        (Some(x), Some(y)) => x.precedes(y),
        _ => false,
    }
}

/// Whether two values of ballots are the same.
pub fn same_value<T: Value>(a: &Option<T>, b: &Option<T>) -> (same: bool)
    ensures
        same == (*a == *b),
{
    match (a, b) {
        (None, None) => true,
        (Some(x), Some(y)) => matches!(x.compare(y), Order::Equal),
        _ => false,
    }
}

/// An independent copy of the value of a ballot.
pub fn duplicate_value<T: Value>(value: &Option<T>) -> (r: Option<T>)
    ensures
        r == *value,
{
    match value {
        Some(v) => Some(v.duplicate()),
        None => None,
    }
}

impl<T: Value> Ballot<T> {
    /// Whether this is the zero ballot.
    pub open spec fn zero(self) -> bool {
        self.number == 0
    }

    /// The strict total order on ballots: by number, then by value.
    pub open spec fn precedes(self, other: Self) -> bool {
        self.number < other.number || (self.number == other.number && value_precedes(
            self.value,
            other.value,
        ))
    }

    /// Whether `other` is prepared wherever this ballot is: this ballot is
    /// not the zero ballot, has the value of `other`, and a number that is
    /// not below the number of `other`.
    pub open spec fn covers(self, other: Self) -> bool {
        !self.zero() && other.number <= self.number && other.value == self.value
    }

    /// The outcome of comparing this ballot with `other`.
    pub open spec fn order(self, other: Self) -> Order {
        order_of(self.precedes(other), self == other)
    }

    /// The zero ballot: the number 0 and no value.
    pub fn none() -> (r: Self)
        ensures
            r == (Ballot::<T> { number: 0, value: None }),
    {
        Ballot { number: 0, value: None }
    }

    /// The ballot that proposes `value` under `number`.
    pub fn new(number: usize, value: T) -> (r: Self)
        ensures
            r == (Ballot { number, value: Some(value) }),
    {
        Ballot { number, value: Some(value) }
    }

    /// Whether this is the zero ballot.
    pub fn is_zero(&self) -> (b: bool)
        ensures
            b == self.zero(),
    {
        self.number == 0
    }

    /// Whether `other` is prepared wherever this ballot is.
    pub fn is_covering(&self, other: &Self) -> (b: bool)
        ensures
            b == self.covers(*other),
    {
        self.number != 0 && other.number <= self.number && same_value(&other.value, &self.value)
    }

    /// An independent copy of the ballot.
    pub fn duplicate(&self) -> (r: Self)
        ensures
            r == *self,
    {
        Ballot { number: self.number, value: duplicate_value(&self.value) }
    }

    /// Compares two ballots by number, then by value.
    pub fn compare(&self, other: &Self) -> (o: Order)
        ensures
            o == self.order(*other),
    {
        if self.number < other.number {
            Order::Less
        } else if self.number > other.number {
            Order::Greater
        } else {
            match (&self.value, &other.value) {
                (None, None) => Order::Equal,
                (None, Some(_)) => Order::Less,
                (Some(_), None) => {
                    Order::Greater
                },
                (Some(x), Some(y)) => {
                    proof {
                        T::precedes_is_strict_total(*x, *y, *x);
                    }
                    x.compare(y)
                },
            }
        }
    }
}

/// No ballot comes before itself.
pub proof fn lemma_ballot_order_irreflexive<T: Value>(a: Ballot<T>)
    ensures
        !a.precedes(a),
{
    if let Some(x) = a.value {
        T::precedes_is_strict_total(x, x, x);
    }
}

/// Of two ballots at most one comes before the other.
pub proof fn lemma_ballot_order_antisymmetric<T: Value>(a: Ballot<T>, b: Ballot<T>)
    ensures
        !(a.precedes(b) && b.precedes(a)),
{
    if let (Some(x), Some(y)) = (a.value, b.value) {
        T::precedes_is_strict_total(x, y, x);
        T::precedes_is_strict_total(x, x, x);
    }
}

/// The order on ballots is transitive.
pub proof fn lemma_ballot_order_transitive<T: Value>(a: Ballot<T>, b: Ballot<T>, c: Ballot<T>)
    requires
        a.precedes(b),
        b.precedes(c),
    ensures
        a.precedes(c),
{
    if let (Some(x), Some(y), Some(z)) = (a.value, b.value, c.value) {
        T::precedes_is_strict_total(x, y, z);
    }
}

/// Two different ballots are ordered one way or the other.
pub proof fn lemma_ballot_order_total<T: Value>(a: Ballot<T>, b: Ballot<T>)
    ensures
        a.precedes(b) || a == b || b.precedes(a),
{
    if let (Some(x), Some(y)) = (a.value, b.value) {
        T::precedes_is_strict_total(x, y, x);
    }
}

/// How the outcomes of comparing three ballots with each other fit together.
pub proof fn lemma_ballot_order_laws<T: Value>(a: Ballot<T>, b: Ballot<T>, c: Ballot<T>)
    ensures
        a.order(a) == Order::Equal,
        a.order(b) == b.order(a).reversed(),
        a.order(b) == Order::Less <==> a.precedes(b),
        a.order(b) == Order::Greater <==> b.precedes(a),
        a.order(b) == Order::Equal <==> a == b,
        a.order(b).at_most() && b.order(c).at_most() ==> a.order(c).at_most(),
        a.order(b).at_most() && b.order(c).at_most() && (a.order(b) == Order::Less || b.order(c)
            == Order::Less) ==> a.order(c) == Order::Less,
{
    lemma_ballot_order_irreflexive(a);
    lemma_ballot_order_irreflexive(b);
    lemma_ballot_order_antisymmetric(a, b);
    lemma_ballot_order_antisymmetric(a, c);
    lemma_ballot_order_total(a, b);
    lemma_ballot_order_total(b, c);
    lemma_ballot_order_total(a, c);
    if a.precedes(b) && b.precedes(c) {
        lemma_ballot_order_transitive(a, b, c);
    }
}

} // verus!
