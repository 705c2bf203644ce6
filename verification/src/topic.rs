//! Statements, their order, and what each of them says about values and
//! ballots.

use vstd::prelude::*;
use crate::ballot::{duplicate_value, lemma_ballot_order_laws, same_value, Ballot};
use crate::value::{compare_numbers, number_order, Order, Value};
use crate::value_set::ValueSet;

verus! {

/// The statement that nominates values.
#[derive(Debug)]
pub struct Nominate<T: Value> {
    /// The values that the sender votes to nominate.
    pub nominated: ValueSet<T>,
    /// The values that the sender accepts as nominated.
    pub accepted: ValueSet<T>,
}

/// The statement that prepares a ballot.
#[derive(Debug)]
pub struct Prepare<T: Value> {
    pub ballot: Ballot<T>,
    pub prepared_a: Ballot<T>,
    pub prepared_b: Ballot<T>,
    pub highest: usize,
    pub lowest: usize,
}

/// The statement that commits a ballot.
#[derive(Debug)]
pub struct Commit<T: Value> {
    pub ballot: Ballot<T>,
    pub prepared: usize,
    pub highest: usize,
    pub lowest: usize,
}

/// The statement that a value is decided.
#[derive(Debug)]
pub struct Externalize<T: Value> {
    pub ballot: Ballot<T>,
    pub highest: usize,
}

/// What a node states about a slot.
#[derive(Debug)]
pub enum Topic<T: Value> {
    Nominate(Nominate<T>),
    NominatePrepare(Nominate<T>, Prepare<T>),
    Prepare(Prepare<T>),
    Commit(Commit<T>),
    Externalize(Externalize<T>),
}

/// A nominating statement as two mathematical sets.
#[verifier::reject_recursive_types(T)]
pub struct NominateView<T> {
    pub nominated: Set<T>,
    pub accepted: Set<T>,
}

/// A statement with its value sets as mathematical sets.
#[verifier::reject_recursive_types(T)]
pub enum TopicView<T: Value> {
    Nominate(NominateView<T>),
    NominatePrepare(NominateView<T>, Prepare<T>),
    Prepare(Prepare<T>),
    Commit(Commit<T>),
    Externalize(Externalize<T>),
}

impl<T: Value> View for Nominate<T> {
    type V = NominateView<T>;

    open spec fn view(&self) -> NominateView<T> {
        NominateView { nominated: self.nominated@, accepted: self.accepted@ }
    }
}

impl<T: Value> View for Externalize<T> {
    type V = Externalize<T>;

    open spec fn view(&self) -> Externalize<T> {
        *self
    }
}

impl<T: Value> View for Topic<T> {
    type V = TopicView<T>;

    open spec fn view(&self) -> TopicView<T> {
        match self {
            Topic::Nominate(n) => TopicView::Nominate(n@),
            Topic::NominatePrepare(n, p) => TopicView::NominatePrepare(n@, *p),
            Topic::Prepare(p) => TopicView::Prepare(*p),
            Topic::Commit(c) => TopicView::Commit(*c),
            Topic::Externalize(e) => TopicView::Externalize(*e),
        }
    }
}

impl<T> NominateView<T> {
    /// Both sets are finite.
    pub open spec fn finite(self) -> bool {
        self.nominated.finite() && self.accepted.finite()
    }

    /// The outcome of comparing two nominating statements: by the number of
    /// accepted values, then by the number of nominated values.
    pub open spec fn order(self, other: Self) -> Order {
        number_order(self.accepted.len() as int, other.accepted.len() as int).and_next(
            number_order(self.nominated.len() as int, other.nominated.len() as int),
        )
    }
}

impl<T: Value> Nominate<T> {
    /// The sets of a nominating statement are finite.
    pub proof fn view_is_finite(self)
        ensures
            self@.finite(),
    {
        self.nominated.view_is_finite();
        self.accepted.view_is_finite();
    }

    /// Compares two nominating statements by the sizes of their sets.
    pub fn compare(&self, other: &Self) -> (o: Order)
        ensures
            o == self@.order(other@),
    {
        if self.accepted.len() == other.accepted.len() {
            compare_numbers(self.nominated.len(), other.nominated.len())
        } else {
            compare_numbers(self.accepted.len(), other.accepted.len())
        }
    }

    /// Whether the two statements hold the same sets.
    pub fn same(&self, other: &Self) -> (b: bool)
        ensures
            b == (self@ == other@),
    {
        self.nominated.same(&other.nominated) && self.accepted.same(&other.accepted)
    }

    /// An independent copy of the statement.
    pub fn duplicate(&self) -> (r: Self)
        ensures
            r@ == self@,
    {
        Nominate { nominated: self.nominated.duplicate(), accepted: self.accepted.duplicate() }
    }
}

impl<T: Value> Prepare<T> {
    /// The outcome of comparing two preparing statements: by `ballot`, then
    /// `prepared_a`, then `prepared_b`, then `highest`.
    pub open spec fn order(self, other: Self) -> Order {
        self.ballot.order(other.ballot).and_next(self.prepared_a.order(other.prepared_a)).and_next(
            self.prepared_b.order(other.prepared_b),
        ).and_next(number_order(self.highest as int, other.highest as int))
    }

    /// Compares two preparing statements.
    pub fn compare(&self, other: &Self) -> (o: Order)
        ensures
            o == self.order(*other),
    {
        match self.ballot.compare(&other.ballot) {
            Order::Equal => {},
            order => {
                return order;
            },
        }
        match self.prepared_a.compare(&other.prepared_a) {
            Order::Equal => {},
            order => {
                return order;
            },
        }
        match self.prepared_b.compare(&other.prepared_b) {
            Order::Equal => {},
            order => {
                return order;
            },
        }
        compare_numbers(self.highest, other.highest)
    }

    /// Whether the two statements are the same.
    pub fn same(&self, other: &Self) -> (b: bool)
        ensures
            b == (*self == *other),
    {
        matches!(self.ballot.compare(&other.ballot), Order::Equal) && matches!(
            self.prepared_a.compare(&other.prepared_a),
            Order::Equal
        ) && matches!(self.prepared_b.compare(&other.prepared_b), Order::Equal) && self.highest
            == other.highest && self.lowest == other.lowest
    }

    /// An independent copy of the statement.
    pub fn duplicate(&self) -> (r: Self)
        ensures
            r == *self,
    {
        Prepare {
            ballot: self.ballot.duplicate(),
            prepared_a: self.prepared_a.duplicate(),
            prepared_b: self.prepared_b.duplicate(),
            highest: self.highest,
            lowest: self.lowest,
        }
    }
}

impl<T: Value> Commit<T> {
    /// The outcome of comparing two committing statements: by `ballot`, then
    /// `prepared`, then `highest`.
    pub open spec fn order(self, other: Self) -> Order {
        self.ballot.order(other.ballot).and_next(
            number_order(self.prepared as int, other.prepared as int),
        ).and_next(number_order(self.highest as int, other.highest as int))
    }

    /// Compares two committing statements.
    pub fn compare(&self, other: &Self) -> (o: Order)
        ensures
            o == self.order(*other),
    {
        match self.ballot.compare(&other.ballot) {
            Order::Equal => {},
            order => {
                return order;
            },
        }
        match compare_numbers(self.prepared, other.prepared) {
            Order::Equal => {},
            order => {
                return order;
            },
        }
        compare_numbers(self.highest, other.highest)
    }

    /// Whether the two statements are the same.
    pub fn same(&self, other: &Self) -> (b: bool)
        ensures
            b == (*self == *other),
    {
        matches!(self.ballot.compare(&other.ballot), Order::Equal) && self.prepared
            == other.prepared && self.highest == other.highest && self.lowest == other.lowest
    }

    /// An independent copy of the statement.
    pub fn duplicate(&self) -> (r: Self)
        ensures
            r == *self,
    {
        Commit {
            ballot: self.ballot.duplicate(),
            prepared: self.prepared,
            highest: self.highest,
            lowest: self.lowest,
        }
    }
}

impl<T: Value> Externalize<T> {
    /// The outcome of comparing two deciding statements: by `highest` alone.
    pub open spec fn order(self, other: Self) -> Order {
        number_order(self.highest as int, other.highest as int)
    }

    /// Compares two deciding statements.
    pub fn compare(&self, other: &Self) -> (o: Order)
        ensures
            o == self.order(*other),
    {
        compare_numbers(self.highest, other.highest)
    }

    /// Whether the two statements are the same.
    pub fn same(&self, other: &Self) -> (b: bool)
        ensures
            b == (*self == *other),
    {
        matches!(self.ballot.compare(&other.ballot), Order::Equal) && self.highest
            == other.highest
    }

    /// An independent copy of the statement.
    pub fn duplicate(&self) -> (r: Self)
        ensures
            r == *self,
    {
        Externalize { ballot: self.ballot.duplicate(), highest: self.highest }
    }
}

/// The part of the window `min..=max` that lies within `low..=high`, where
/// `applies` holds and the two meet; `None` otherwise.
pub open spec fn overlap(applies: bool, low: usize, high: usize, min: usize, max: usize) -> Option<
    (usize, usize),
> {
    if applies && low <= max && min <= high {
        Some((if min < low { low } else { min }, if high < max { high } else { max }))
    } else {
        None
    }
}

/// The part of the window `min..=max` that lies within `low..=high`, where
/// `applies` holds and the two meet; `None` otherwise.
pub fn overlapping(applies: bool, low: usize, high: usize, min: usize, max: usize) -> (r: Option<
    (usize, usize),
>)
    ensures
        r == overlap(applies, low, high, min, max),
{
    if applies && low <= max && min <= high {
        Some((if min < low { low } else { min }, if high < max { high } else { max }))
    } else {
        None
    }
}

impl<T: Value> TopicView<T> {
    /// The place of the statement's kind in the forward order of the protocol.
    pub open spec fn precedence(self) -> int {
        match self {
            TopicView::Nominate(_) => 0,
            TopicView::NominatePrepare(_, _) => 1,
            TopicView::Prepare(_) => 2,
            TopicView::Commit(_) => 3,
            TopicView::Externalize(_) => 4,
        }
    }

    /// The value sets of the statement are finite.
    pub open spec fn finite(self) -> bool {
        match self {
            TopicView::Nominate(n) => n.finite(),
            TopicView::NominatePrepare(n, _) => n.finite(),
            _ => true,
        }
    }

    /// The values that the statement votes to nominate.
    pub open spec fn nominated_values(self) -> Set<T> {
        match self {
            TopicView::Nominate(n) => n.nominated,
            TopicView::NominatePrepare(n, _) => n.nominated,
            _ => Set::empty(),
        }
    }

    /// The values that the statement accepts as nominated.
    pub open spec fn accepted_nominated(self) -> Set<T> {
        match self {
            TopicView::Nominate(n) => n.accepted,
            TopicView::NominatePrepare(n, _) => n.accepted,
            _ => Set::empty(),
        }
    }

    /// The values that the statement votes to nominate or accepts as nominated.
    pub open spec fn voted_or_accepted_nominated(self) -> Set<T> {
        match self {
            TopicView::Nominate(n) => n.nominated.union(n.accepted),
            TopicView::NominatePrepare(n, _) => n.nominated.union(n.accepted),
            _ => Set::empty(),
        }
    }

    /// Whether the statement accepts the ballot `b` as prepared. No
    /// statement does so of the zero ballot.
    ///
    /// A preparing statement does so where one of its two prepared ballots
    /// covers `b`, a committing statement where its ballot, taken with the
    /// number `prepared`, covers `b`, and a deciding statement where it
    /// decides the value of `b`.
    pub open spec fn accepts_prepared(self, b: Ballot<T>) -> bool {
        !b.zero() && match self {
            TopicView::Nominate(_) => false,
            TopicView::NominatePrepare(_, p) => p.prepared_a.covers(b) || p.prepared_b.covers(b),
            TopicView::Prepare(p) => p.prepared_a.covers(b) || p.prepared_b.covers(b),
            TopicView::Commit(c) => (Ballot { number: c.prepared, value: c.ballot.value }).covers(b),
            TopicView::Externalize(e) => e.ballot.value == b.value,
        }
    }

    /// Whether the statement votes to prepare the ballot `b` or accepts it
    /// as prepared. No statement does so of the zero ballot.
    ///
    /// Beyond what it accepts, a preparing statement votes for what its
    /// ballot covers, and a committing statement for every ballot with the
    /// value of its own.
    pub open spec fn votes_or_accepts_prepared(self, b: Ballot<T>) -> bool {
        self.accepts_prepared(b) || (!b.zero() && match self {
            TopicView::NominatePrepare(_, p) => p.ballot.covers(b),
            TopicView::Prepare(p) => p.ballot.covers(b),
            TopicView::Commit(c) => c.ballot.value == b.value,
            _ => false,
        })
    }

    /// The part of the window `min..=max` of ballot numbers for which the
    /// statement accepts the commit of `value`, or `None` where there is none.
    ///
    /// A committing statement accepts the numbers from its `lowest` to its
    /// `highest`, a deciding statement every number from that of its ballot on.
    pub open spec fn accepts_commit(self, value: Option<T>, min: usize, max: usize) -> Option<
        (usize, usize),
    > {
        match self {
            TopicView::Commit(c) => overlap(c.ballot.value == value, c.lowest, c.highest, min, max),
            TopicView::Externalize(e) => overlap(
                e.ballot.value == value,
                e.ballot.number,
                usize::MAX,
                min,
                max,
            ),
            _ => None,
        }
    }

    /// The part of the window `min..=max` of ballot numbers for which the
    /// statement votes to commit `value` or accepts its commit, or `None`
    /// where there is none.
    ///
    /// Beyond what it accepts, a preparing statement with a `lowest` above 0
    /// votes for the numbers from its `lowest` to its `highest`.
    pub open spec fn votes_or_accepts_commit(
        self,
        value: Option<T>,
        min: usize,
        max: usize,
    ) -> Option<(usize, usize)> {
        match self {
            TopicView::NominatePrepare(_, p) => overlap(
                p.lowest != 0 && p.ballot.value == value,
                p.lowest,
                p.highest,
                min,
                max,
            ),
            TopicView::Prepare(p) => overlap(
                p.lowest != 0 && p.ballot.value == value,
                p.lowest,
                p.highest,
                min,
                max,
            ),
            _ => self.accepts_commit(value, min, max),
        }
    }

    /// The highest ballot that the statement accepts as prepared; the zero
    /// ballot where it accepts none.
    pub open spec fn prepared_candidate(self) -> Ballot<T> {
        match self {
            TopicView::Nominate(_) => Ballot { number: 0, value: None },
            TopicView::NominatePrepare(_, p) => p.prepared_a,
            TopicView::Prepare(p) => p.prepared_a,
            TopicView::Commit(c) => Ballot { number: c.prepared, value: c.ballot.value },
            TopicView::Externalize(e) => Ballot { number: e.highest, value: e.ballot.value },
        }
    }

    /// The outcome of comparing two statements: two of one kind by that
    /// kind's own order, two of different kinds by precedence.
    pub open spec fn order(self, other: Self) -> Order {
        match (self, other) {
            (TopicView::NominatePrepare(sn, sp), TopicView::NominatePrepare(on, op)) => sn.order(
                on,
            ).and_next(sp.order(op)),
            (TopicView::Nominate(s), TopicView::Nominate(o)) => s.order(o),
            (TopicView::Prepare(s), TopicView::Prepare(o)) => s.order(o),
            (TopicView::Commit(s), TopicView::Commit(o)) => s.order(o),
            (TopicView::Externalize(s), TopicView::Externalize(o)) => s.order(o),
            _ => number_order(self.precedence(), other.precedence()),
        }
    }
}

impl<T: Value> Topic<T> {
    /// The value sets of a statement are finite.
    pub proof fn view_is_finite(self)
        ensures
            self@.finite(),
    {
        match self {
            Topic::Nominate(n) => n.view_is_finite(),
            Topic::NominatePrepare(n, _) => n.view_is_finite(),
            _ => {},
        }
    }

    /// The place of the statement's kind in the forward order of the protocol.
    pub fn precedence(&self) -> (n: usize)
        ensures
            n == self@.precedence(),
    {
        match self {
            Topic::Nominate(_) => 0,
            Topic::NominatePrepare(_, _) => 1,
            Topic::Prepare(_) => 2,
            Topic::Commit(_) => 3,
            Topic::Externalize(_) => 4,
        }
    }

    /// The values that the statement votes to nominate.
    pub fn nominated_values(&self) -> (r: ValueSet<T>)
        ensures
            r@ == self@.nominated_values(),
    {
        match self {
            Topic::Nominate(n) => n.nominated.duplicate(),
            Topic::NominatePrepare(n, _) => n.nominated.duplicate(),
            _ => ValueSet::new(),
        }
    }

    /// The values that the statement accepts as nominated.
    pub fn accepted_nominated(&self) -> (r: ValueSet<T>)
        ensures
            r@ == self@.accepted_nominated(),
    {
        match self {
            Topic::Nominate(n) => n.accepted.duplicate(),
            Topic::NominatePrepare(n, _) => n.accepted.duplicate(),
            _ => ValueSet::new(),
        }
    }

    /// The values that the statement votes to nominate or accepts as nominated.
    pub fn voted_or_accepted_nominated(&self) -> (r: ValueSet<T>)
        ensures
            r@ == self@.voted_or_accepted_nominated(),
    {
        match self {
            Topic::Nominate(n) => n.nominated.union(&n.accepted),
            Topic::NominatePrepare(n, _) => n.nominated.union(&n.accepted),
            _ => ValueSet::new(),
        }
    }

    /// Whether the statement accepts the ballot `b` as prepared.
    pub fn accepts_prepared(&self, b: &Ballot<T>) -> (r: bool)
        ensures
            r == self@.accepts_prepared(*b),
    {
        !b.is_zero() && match self {
            Topic::Nominate(_) => false,
            Topic::NominatePrepare(_, p) => p.prepared_a.is_covering(b) || p.prepared_b.is_covering(
                b,
            ),
            Topic::Prepare(p) => p.prepared_a.is_covering(b) || p.prepared_b.is_covering(b),
            Topic::Commit(c) => c.prepared != 0 && b.number <= c.prepared && same_value(
                &b.value,
                &c.ballot.value,
            ),
            Topic::Externalize(e) => same_value(&e.ballot.value, &b.value),
        }
    }

    /// Whether the statement votes to prepare the ballot `b` or accepts it
    /// as prepared.
    pub fn votes_or_accepts_prepared(&self, b: &Ballot<T>) -> (r: bool)
        ensures
            r == self@.votes_or_accepts_prepared(*b),
    {
        self.accepts_prepared(b) || (!b.is_zero() && match self {
            Topic::NominatePrepare(_, p) => p.ballot.is_covering(b),
            Topic::Prepare(p) => p.ballot.is_covering(b),
            Topic::Commit(c) => same_value(&c.ballot.value, &b.value),
            _ => false,
        })
    }

    /// The part of the window `min..=max` of ballot numbers for which the
    /// statement accepts the commit of `value`, or `None` where there is none.
    pub fn accepts_commit(&self, value: &Option<T>, min: usize, max: usize) -> (r: Option<
        (usize, usize),
    >)
        ensures
            r == self@.accepts_commit(*value, min, max),
    {
        match self {
            Topic::Commit(c) => overlapping(
                same_value(&c.ballot.value, value),
                c.lowest,
                c.highest,
                min,
                max,
            ),
            Topic::Externalize(e) => overlapping(
                same_value(&e.ballot.value, value),
                e.ballot.number,
                usize::MAX,
                min,
                max,
            ),
            _ => None,
        }
    }

    /// The part of the window `min..=max` of ballot numbers for which the
    /// statement votes to commit `value` or accepts its commit, or `None`
    /// where there is none.
    pub fn votes_or_accepts_commit(&self, value: &Option<T>, min: usize, max: usize) -> (r: Option<
        (usize, usize),
    >)
        ensures
            r == self@.votes_or_accepts_commit(*value, min, max),
    {
        match self {
            Topic::NominatePrepare(_, p) => overlapping(
                p.lowest != 0 && same_value(&p.ballot.value, value),
                p.lowest,
                p.highest,
                min,
                max,
            ),
            Topic::Prepare(p) => overlapping(
                p.lowest != 0 && same_value(&p.ballot.value, value),
                p.lowest,
                p.highest,
                min,
                max,
            ),
            _ => self.accepts_commit(value, min, max),
        }
    }

    /// The highest ballot that the statement accepts as prepared; the zero
    /// ballot where it accepts none.
    pub fn prepared_candidate(&self) -> (r: Ballot<T>)
        ensures
            r == self@.prepared_candidate(),
    {
        match self {
            Topic::Nominate(_) => Ballot::none(),
            Topic::NominatePrepare(_, p) => p.prepared_a.duplicate(),
            Topic::Prepare(p) => p.prepared_a.duplicate(),
            Topic::Commit(c) => Ballot {
                number: c.prepared,
                value: duplicate_value(&c.ballot.value),
            },
            Topic::Externalize(e) => Ballot {
                number: e.highest,
                value: duplicate_value(&e.ballot.value),
            },
        }
    }

    /// Compares two statements.
    pub fn compare(&self, other: &Self) -> (o: Order)
        ensures
            o == self@.order(other@),
    {
        match (self, other) {
            (Topic::NominatePrepare(sn, sp), Topic::NominatePrepare(on, op)) => {
                match sn.compare(on) {
                    Order::Equal => sp.compare(op),
                    order => order,
                }
            },
            (Topic::Nominate(s), Topic::Nominate(o)) => s.compare(o),
            (Topic::Prepare(s), Topic::Prepare(o)) => s.compare(o),
            (Topic::Commit(s), Topic::Commit(o)) => s.compare(o),
            (Topic::Externalize(s), Topic::Externalize(o)) => s.compare(o),
            (s, o) => compare_numbers(s.precedence(), o.precedence()),
        }
    }

    /// Whether the two statements say the same.
    pub fn same(&self, other: &Self) -> (b: bool)
        ensures
            b == (self@ == other@),
    {
        match (self, other) {
            (Topic::NominatePrepare(sn, sp), Topic::NominatePrepare(on, op)) => sn.same(on)
                && sp.same(op),
            (Topic::Nominate(s), Topic::Nominate(o)) => s.same(o),
            (Topic::Prepare(s), Topic::Prepare(o)) => s.same(o),
            (Topic::Commit(s), Topic::Commit(o)) => s.same(o),
            (Topic::Externalize(s), Topic::Externalize(o)) => s.same(o),
            _ => false,
        }
    }

    /// An independent copy of the statement.
    pub fn duplicate(&self) -> (r: Self)
        ensures
            r@ == self@,
    {
        match self {
            Topic::Nominate(n) => Topic::Nominate(n.duplicate()),
            Topic::NominatePrepare(n, p) => Topic::NominatePrepare(n.duplicate(), p.duplicate()),
            Topic::Prepare(p) => Topic::Prepare(p.duplicate()),
            Topic::Commit(c) => Topic::Commit(c.duplicate()),
            Topic::Externalize(e) => Topic::Externalize(e.duplicate()),
        }
    }
}

/// How the outcomes of comparing three preparing statements fit together.
proof fn lemma_prepare_order_laws<T: Value>(a: Prepare<T>, b: Prepare<T>, c: Prepare<T>)
    ensures
        a.order(a) == Order::Equal,
        a.order(b) == b.order(a).reversed(),
        a.order(b).at_most() && b.order(c).at_most() ==> a.order(c).at_most(),
        a.order(b).at_most() && b.order(c).at_most() && (a.order(b) == Order::Less || b.order(c)
            == Order::Less) ==> a.order(c) == Order::Less,
        a.order(b) == Order::Equal && b.order(c) == Order::Equal ==> a.order(c) == Order::Equal,
{
    lemma_ballot_order_laws(a.ballot, b.ballot, c.ballot);
    lemma_ballot_order_laws(a.prepared_a, b.prepared_a, c.prepared_a);
    lemma_ballot_order_laws(a.prepared_b, b.prepared_b, c.prepared_b);
}

/// How the outcomes of comparing three committing statements fit together.
proof fn lemma_commit_order_laws<T: Value>(a: Commit<T>, b: Commit<T>, c: Commit<T>)
    ensures
        a.order(a) == Order::Equal,
        a.order(b) == b.order(a).reversed(),
        a.order(b).at_most() && b.order(c).at_most() ==> a.order(c).at_most(),
        a.order(b).at_most() && b.order(c).at_most() && (a.order(b) == Order::Less || b.order(c)
            == Order::Less) ==> a.order(c) == Order::Less,
{
    lemma_ballot_order_laws(a.ballot, b.ballot, c.ballot);
}

/// Every statement compares as equal to itself.
pub proof fn lemma_topic_order_reflexive<T: Value>(a: TopicView<T>)
    ensures
        a.order(a) == Order::Equal,
{
    match a {
        TopicView::NominatePrepare(_, p) => lemma_prepare_order_laws(p, p, p),
        TopicView::Prepare(p) => lemma_prepare_order_laws(p, p, p),
        TopicView::Commit(c) => lemma_commit_order_laws(c, c, c),
        _ => {},
    }
}

/// Exchanging the two sides of a comparison reverses its outcome: where each
/// of two statements is at most the other, they compare as equal.
pub proof fn lemma_topic_order_antisymmetric<T: Value>(a: TopicView<T>, b: TopicView<T>)
    ensures
        a.order(b) == b.order(a).reversed(),
        a.order(b).at_most() && b.order(a).at_most() ==> a.order(b) == Order::Equal,
{
    match (a, b) {
        (TopicView::NominatePrepare(_, p), TopicView::NominatePrepare(_, q)) => {
            lemma_prepare_order_laws(p, q, p)
        },
        (TopicView::Prepare(p), TopicView::Prepare(q)) => lemma_prepare_order_laws(p, q, p),
        (TopicView::Commit(c), TopicView::Commit(d)) => lemma_commit_order_laws(c, d, c),
        _ => {},
    }
}

/// The order on statements is transitive, and strict where one step is.
pub proof fn lemma_topic_order_transitive<T: Value>(
    a: TopicView<T>,
    b: TopicView<T>,
    c: TopicView<T>,
)
    requires
        a.order(b).at_most(),
        b.order(c).at_most(),
    ensures
        a.order(c).at_most(),
        a.order(b) == Order::Less || b.order(c) == Order::Less ==> a.order(c) == Order::Less,
{
    match (a, b, c) {
        (
            TopicView::NominatePrepare(_, p),
            TopicView::NominatePrepare(_, q),
            TopicView::NominatePrepare(_, r),
        ) => lemma_prepare_order_laws(p, q, r),
        (TopicView::Prepare(p), TopicView::Prepare(q), TopicView::Prepare(r)) => {
            lemma_prepare_order_laws(p, q, r)
        },
        (TopicView::Commit(p), TopicView::Commit(q), TopicView::Commit(r)) => {
            lemma_commit_order_laws(p, q, r)
        },
        _ => {},
    }
}

/// Any two statements are comparable.
pub proof fn lemma_topic_order_total<T: Value>(a: TopicView<T>, b: TopicView<T>)
    ensures
        a.order(b).at_most() || b.order(a).at_most(),
{
    lemma_topic_order_antisymmetric(a, b);
}

/// A statement of an earlier kind comes before every statement of a later
/// kind, whatever the two hold.
pub proof fn lemma_topic_order_respects_precedence<T: Value>(a: TopicView<T>, b: TopicView<T>)
    requires
        a.precedence() < b.precedence(),
    ensures
        a.order(b) == Order::Less,
        b.order(a) == Order::Greater,
{
}

/// The zero ballot makes no progress: no statement accepts it as prepared
/// or votes to prepare it, and it covers no ballot.
pub proof fn lemma_zero_ballot_makes_no_progress<T: Value>(
    topic: TopicView<T>,
    zero: Ballot<T>,
    other: Ballot<T>,
)
    requires
        zero.zero(),
    ensures
        !topic.accepts_prepared(zero),
        !topic.votes_or_accepts_prepared(zero),
        !zero.covers(other),
{
}

} // verus!
