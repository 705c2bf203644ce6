//! The slot: the state machine of one decision.

use vstd::prelude::*;
use crate::ballot::{
    duplicate_value, lemma_ballot_order_antisymmetric, lemma_ballot_order_irreflexive,
    lemma_ballot_order_total, lemma_ballot_order_transitive, same_value, Ballot,
};
use crate::message::{Message, ValidityError};
use crate::message_cache::MessageCache;
use crate::node::NodeId;
use crate::node_set::NodeSet;
use crate::predicate::{FnPredicate, HashSetPredicate, MinMaxPredicate, Predicate, Window};
use crate::quorum::{lemma_quorum_search_keeps, Quorum};
use crate::slot_view::{
    deadline, lemma_accepting_keeps, lemma_received_moves_forward, priority_peer, SlotView,
};
use crate::topic::{Commit, Externalize, Nominate, Prepare, Topic};
use crate::value::{combine, Order, Value};
use crate::value_set::ValueSet;

verus! {

/// Identity of one independent decision instance.
#[derive(Debug, Clone, Copy, PartialEq, Eq, Hash, Structural)]
pub struct SlotId(pub usize);

/// How far a slot has come. A slot only ever moves forward.
#[derive(Debug, Clone, Copy, PartialEq, Eq, PartialOrd, Ord, Structural)]
pub enum Phase {
    Nominate,
    NominatePrepare,
    Prepare,
    Commit,
    Externalize,
}

impl Phase {
    /// The place of the phase in the forward order.
    pub open spec fn rank(self) -> int {
        match self {
            Phase::Nominate => 0,
            Phase::NominatePrepare => 1,
            Phase::Prepare => 2,
            Phase::Commit => 3,
            Phase::Externalize => 4,
        }
    }

    /// Whether nomination runs in this phase.
    pub open spec fn nominates(self) -> bool {
        self == Phase::Nominate || self == Phase::NominatePrepare
    }

    /// Whether the preparing of ballots runs in this phase.
    pub open spec fn prepares(self) -> bool {
        self == Phase::NominatePrepare || self == Phase::Prepare
    }
}

/// The state of one decision in progress.
#[derive(Debug)]
pub struct Slot<T: Value> {
    id: SlotId,
    node_id: NodeId,
    quorum: Quorum<T>,
    phase: Phase,
    messages: MessageCache<T>,
    sent: Option<Message<T>>,
    created: u64,
    nominated: ValueSet<T>,
    accepted: ValueSet<T>,
    confirmed: ValueSet<T>,
    ballot: Ballot<T>,
    prepared_a: Ballot<T>,
    prepared_b: Ballot<T>,
    highest: Ballot<T>,
    lowest: Ballot<T>,
    priority_peers: NodeSet,
    priority_round: usize,
    priority_timer: u64,
}

impl<T: Value> View for Slot<T> {
    type V = SlotView<T>;

    closed spec fn view(&self) -> SlotView<T> {
        SlotView {
            id: self.id,
            node_id: self.node_id,
            quorum: self.quorum@,
            phase: self.phase,
            messages: self.messages@,
            sent: match self.sent {
                Some(m) => Some(m@),
                None => None,
            },
            created: self.created,
            nominated: self.nominated@,
            accepted: self.accepted@,
            confirmed: self.confirmed@,
            ballot: self.ballot,
            prepared_a: self.prepared_a,
            prepared_b: self.prepared_b,
            highest: self.highest,
            lowest: self.lowest,
            priority_peers: self.priority_peers@,
            priority_round: self.priority_round,
            priority_timer: self.priority_timer,
        }
    }
}

/// The time that a round lasts, for each round that has begun.
pub const ROUND_DURATION: u64 = 1000;

/// The time at which the round `round` ends if it begins at `now`.
pub fn deadline_after(now: u64, round: usize) -> (r: u64)
    ensures
        r == deadline(now, round),
{
    let room = (u64::MAX - now) / ROUND_DURATION;
    if round as u64 <= room {
        now + ROUND_DURATION * (round as u64)
    } else {
        u64::MAX
    }
}

/// The node whose nominations a slot adopts from the round `round` on.
pub fn priority_peer_of<T: Value>(quorum: &Quorum<T>, slot_id: SlotId, round: usize) -> (r: Option<
    NodeId,
>)
    ensures
        r == priority_peer(quorum@, slot_id, round),
{
    let nodes = quorum.nodes();
    let n = nodes.len();
    if n == 0 {
        None
    } else {
        let start = slot_id.0 % n;
        let turn = round % n;
        let place = if start >= n - turn {
            start - (n - turn)
        } else {
            start + turn
        };
        assert(place == ((slot_id.0 as int % n as int) + (round as int % n as int)) % (n as int))
            by (nonlinear_arith)
            requires
                n > 0,
                start == slot_id.0 as int % n as int,
                turn == round as int % n as int,
                0 <= start < n,
                0 <= turn < n,
                place == if start >= n - turn {
                    start - (n - turn)
                } else {
                    start + turn
                },
        ;
        Some(nodes[place])
    }
}

impl<T: Value> Slot<T> {
    #[verifier::type_invariant]
    spec fn ordered(self) -> bool {
        &&& !self.prepared_a.precedes(self.prepared_b)
        &&& !self.ballot.precedes(self.prepared_a)
        &&& self.lowest.number <= self.highest.number <= self.ballot.number
    }

    /// Creates the slot `slot_id` of the node `node_id`, which has the
    /// quorum set `quorum`, at the time `now`.
    pub fn new(slot_id: SlotId, node_id: NodeId, quorum: Quorum<T>, now: u64) -> (r: Slot<T>)
        ensures
            r@ == SlotView::<T>::created(slot_id, node_id, quorum@, now),
            r@.ordered(),
    {
        let mut priority_peers = NodeSet::new();
        match priority_peer_of(&quorum, slot_id, 1) {
            Some(peer) => {
                priority_peers.insert(peer);
            },
            None => {},
        }
        Slot {
            id: slot_id,
            node_id,
            quorum,
            phase: Phase::Nominate,
            messages: MessageCache::new(),
            sent: None,
            created: now,
            nominated: ValueSet::new(),
            accepted: ValueSet::new(),
            confirmed: ValueSet::new(),
            ballot: Ballot::none(),
            prepared_a: Ballot::none(),
            prepared_b: Ballot::none(),
            highest: Ballot::none(),
            lowest: Ballot::none(),
            priority_peers,
            priority_round: 1,
            priority_timer: deadline_after(now, 1),
        }
    }

    /// Gives the slot the identity and the quorum set that its node has now.
    pub fn refresh(&mut self, node_id: NodeId, quorum: Quorum<T>)
        ensures
            final(self)@ == (SlotView { node_id, quorum: quorum@, ..old(self)@ }),
    {
        proof {
            use_type_invariant(&*self);
        }
        self.node_id = node_id;
        self.quorum = quorum;
    }

    /// The phase of the slot.
    pub fn phase(&self) -> (r: Phase)
        ensures
            r == self@.phase,
            self@.ordered(),
    {
        proof {
            use_type_invariant(self);
        }
        self.phase
    }

    /// The slot's identity.
    pub fn id(&self) -> (r: SlotId)
        ensures
            r == self@.id,
    {
        self.id
    }

    /// The node to which the slot belongs.
    pub fn node_id(&self) -> (r: NodeId)
        ensures
            r == self@.node_id,
    {
        self.node_id
    }

    /// The time at which the slot was created.
    pub fn created(&self) -> (r: u64)
        ensures
            r == self@.created,
    {
        self.created
    }

    /// The values that the slot votes to nominate.
    pub fn nominated(&self) -> (r: &ValueSet<T>)
        ensures
            r@ == self@.nominated,
    {
        &self.nominated
    }

    /// The values that the slot accepts as nominated.
    pub fn accepted(&self) -> (r: &ValueSet<T>)
        ensures
            r@ == self@.accepted,
    {
        &self.accepted
    }

    /// The values that the slot holds confirmed as nominated.
    pub fn confirmed(&self) -> (r: &ValueSet<T>)
        ensures
            r@ == self@.confirmed,
    {
        &self.confirmed
    }

    /// The ballot that the slot is working on.
    pub fn ballot(&self) -> (r: &Ballot<T>)
        ensures
            *r == self@.ballot,
    {
        &self.ballot
    }

    /// The highest ballot that the slot accepts as prepared.
    pub fn prepared_a(&self) -> (r: &Ballot<T>)
        ensures
            *r == self@.prepared_a,
    {
        &self.prepared_a
    }

    /// The ballot that the slot accepted as prepared before `prepared_a`,
    /// with another value.
    pub fn prepared_b(&self) -> (r: &Ballot<T>)
        ensures
            *r == self@.prepared_b,
    {
        &self.prepared_b
    }

    /// The upper end of the ballots that the slot commits.
    pub fn highest(&self) -> (r: &Ballot<T>)
        ensures
            *r == self@.highest,
    {
        &self.highest
    }

    /// The lower end of the ballots that the slot commits.
    pub fn lowest(&self) -> (r: &Ballot<T>)
        ensures
            *r == self@.lowest,
    {
        &self.lowest
    }

    /// The nodes whose nominations the slot adopts.
    pub fn priority_peers(&self) -> (r: &NodeSet)
        ensures
            r@ == self@.priority_peers,
    {
        &self.priority_peers
    }

    /// The round of nomination in which the slot is.
    pub fn priority_round(&self) -> (r: usize)
        ensures
            r == self@.priority_round,
    {
        self.priority_round
    }

    /// The time at which the slot's round of nomination ends.
    pub fn priority_timer(&self) -> (r: u64)
        ensures
            r == self@.priority_timer,
    {
        self.priority_timer
    }

    /// The message that the slot sent last.
    pub fn sent(&self) -> (r: Option<&Message<T>>)
        ensures
            match r {
                Some(m) => self@.sent == Some(m@),
                None => self@.sent is None,
            },
    {
        self.sent.as_ref()
    }

    /// The messages that the slot keeps.
    pub fn messages(&self) -> (r: &MessageCache<T>)
        ensures
            r@ == self@.messages,
    {
        &self.messages
    }

    /// What the slot decides, once it is decided.
    pub fn decision(&self) -> (r: Externalize<T>)
        ensures
            r == self@.decision(),
    {
        Externalize { ballot: self.lowest.duplicate(), highest: self.highest.number }
    }

    /// What the slot states in its phase.
    pub fn statement(&self) -> (r: Option<Topic<T>>)
        ensures
            match self@.statement() {
                Some(t) => r is Some && r->0@ == t,
                None => r is None,
            },
    {
        match self.phase {
            Phase::Nominate => {
                if self.nominated.is_empty() && self.accepted.is_empty() {
                    return None;
                }
                Some(
                    Topic::Nominate(
                        Nominate {
                            nominated: self.nominated.duplicate(),
                            accepted: self.accepted.duplicate(),
                        },
                    ),
                )
            },
            Phase::NominatePrepare => Some(
                Topic::NominatePrepare(
                    Nominate {
                        nominated: self.nominated.duplicate(),
                        accepted: self.accepted.duplicate(),
                    },
                    Prepare {
                        ballot: self.ballot.duplicate(),
                        prepared_a: self.prepared_a.duplicate(),
                        prepared_b: self.prepared_b.duplicate(),
                        highest: self.highest.number,
                        lowest: self.lowest.number,
                    },
                ),
            ),
            Phase::Prepare => Some(
                Topic::Prepare(
                    Prepare {
                        ballot: self.ballot.duplicate(),
                        prepared_a: self.prepared_a.duplicate(),
                        prepared_b: self.prepared_b.duplicate(),
                        highest: self.highest.number,
                        lowest: self.lowest.number,
                    },
                ),
            ),
            Phase::Commit => Some(
                Topic::Commit(
                    Commit {
                        ballot: self.ballot.duplicate(),
                        prepared: self.prepared_a.number,
                        highest: self.highest.number,
                        lowest: self.lowest.number,
                    },
                ),
            ),
            Phase::Externalize => Some(
                Topic::Externalize(
                    Externalize { ballot: self.lowest.duplicate(), highest: self.highest.number },
                ),
            ),
        }
    }

    /// Builds the message that carries what the slot states in its phase,
    /// numbered by the next value of `counter`; `None`, with `counter` as it
    /// was, where the slot has nothing to state.
    pub fn build_message(&self, counter: &mut usize) -> (r: Option<Message<T>>)
        requires
            *old(counter) < usize::MAX,
        ensures
            match self@.statement() {
                Some(t) => r is Some && r->0@ == self@.envelope(t, (*old(counter) + 1) as nat)
                    && *final(counter) == *old(counter) + 1,
                None => r is None && *final(counter) == *old(counter),
            },
    {
        match self.statement() {
            Some(topic) => Some(
                Message::new(self.node_id, self.id, self.quorum.duplicate(), topic, counter),
            ),
            None => None,
        }
    }

    /// Searches the slot's quorum set for a blocking set that passes `predicate`.
    pub fn find_blocking<P: Predicate<T>>(&self, predicate: P) -> (r: (NodeSet, P))
        ensures
            (r.0@, r.1@) == self@.blocking::<P>(predicate@),
    {
        self.quorum.find_blocking(&self.messages, predicate)
    }

    /// Searches the slot's quorum set for a quorum that passes `predicate`.
    pub fn find_quorum<P: Predicate<T>>(&self, predicate: P) -> (r: (NodeSet, P))
        ensures
            (r.0@, r.1@) == self@.quorum::<P>(predicate@),
    {
        self.quorum.find_quorum(self.node_id, &self.messages, predicate)
    }

    /// Decides whether the slot accepts a statement, given the predicate
    /// that a blocking set must pass and the one that a quorum must pass.
    /// Returns the nodes on whose word it accepts, or the empty set, and the
    /// predicate as the deciding test or search narrowed it.
    pub fn accept<P: Predicate<T>>(&self, blocking: P, voting: P) -> (r: (NodeSet, P))
        ensures
            (r.0@, r.1@) == self@.accepting::<P>(blocking@, voting@),
    {
        if let Some(message) = &self.sent {
            if let Some(narrowed) = blocking.dupe().test(message) {
                let mut accepting = NodeSet::new();
                accepting.insert(self.node_id);
                return (accepting, narrowed);
            }
        }
        let (found, narrowed) = self.find_blocking(blocking);
        if !found.is_empty() {
            return (found, narrowed);
        }
        if let Some(message) = &self.sent {
            if let Some(_) = voting.dupe().test(message) {
                return self.find_quorum(voting);
            }
        }
        (NodeSet::new(), voting)
    }

    /// Promotes values: nominated values that the slot accepts as nominated
    /// become accepted, and accepted values that a quorum accepts as
    /// nominated become confirmed.
    pub fn update_values(&mut self)
        ensures
            final(self)@ == old(self)@.with_values_promoted(),
    {
        proof {
            use_type_invariant(&*self);
        }
        let (node_ids, narrowed) = self.accept(
            HashSetPredicate::new(self.nominated.duplicate(), false),
            HashSetPredicate::new(self.nominated.duplicate(), true),
        );
        if !node_ids.is_empty() {
            self.accepted = self.accepted.union(narrowed.values());
        }
        self.nominated = self.nominated.difference(&self.accepted);
        let (node_ids, narrowed) = self.find_quorum(
            HashSetPredicate::new(self.accepted.duplicate(), false),
        );
        if !node_ids.is_empty() {
            self.confirmed = self.confirmed.union(narrowed.values());
        }
    }

    /// Considers accepting `candidate` as prepared.
    pub fn update_prepared(&mut self, candidate: Ballot<T>)
        ensures
            final(self)@ == old(self)@.with_prepared(candidate),
    {
        proof {
            use_type_invariant(&*self);
            lemma_ballot_order_irreflexive(self.prepared_a);
            lemma_ballot_order_antisymmetric(self.prepared_a, candidate);
            lemma_ballot_order_antisymmetric(self.prepared_b, candidate);
            lemma_ballot_order_total(self.prepared_a, self.prepared_b);
            lemma_ballot_order_total(self.prepared_a, candidate);
            lemma_ballot_order_irreflexive(candidate);
            lemma_ballot_order_antisymmetric(self.ballot, candidate);
            lemma_ballot_order_total(self.ballot, candidate);
            if self.prepared_b.precedes(self.prepared_a) && self.prepared_a.precedes(candidate) {
                lemma_ballot_order_transitive(self.prepared_b, self.prepared_a, candidate);
            }
        }
        match self.phase {
            Phase::Commit => {
                return ;
            },
            Phase::Externalize => {
                return ;
            },
            _ => {},
        }
        if candidate.is_zero() || !matches!(self.prepared_a.compare(&candidate), Order::Less) {
            return ;
        }
        let (node_ids, _) = self.accept(
            FnPredicate::new(candidate.duplicate(), false),
            FnPredicate::new(candidate.duplicate(), true),
        );
        if node_ids.is_empty() {
            return ;
        }
        if matches!(self.ballot.compare(&candidate), Order::Less) {
            self.ballot = candidate.duplicate();
        }
        if !self.prepared_a.is_zero() && !same_value(
            &self.prepared_a.value,
            &candidate.value,
        ) {
            self.prepared_b = self.prepared_a.duplicate();
        }
        self.prepared_a = candidate;
    }

    /// Chooses the value of the slot's ballot. The ballot takes the next
    /// number where it would come before `prepared_a` with that value.
    pub fn update_ballot(&mut self)
        requires
            old(self)@.phase.rank() < Phase::Commit.rank(),
        ensures
            final(self)@ == old(self)@.with_ballot_chosen(),
    {
        proof {
            use_type_invariant(&*self);
        }
        let value = if !self.highest.is_zero() {
            duplicate_value(&self.highest.value)
        } else if !self.confirmed.is_empty() {
            combine(self.accepted.duplicate(), &self.id)
        } else if !self.prepared_a.is_zero() {
            duplicate_value(&self.prepared_a.value)
        } else {
            duplicate_value(&self.ballot.value)
        };
        let mut chosen = Ballot { number: self.ballot.number, value };
        proof {
            lemma_ballot_order_antisymmetric(chosen, self.prepared_a);
            lemma_ballot_order_total(chosen, self.prepared_a);
        }
        if matches!(chosen.compare(&self.prepared_a), Order::Less) {
            if chosen.number == usize::MAX {
                return ;
            }
            chosen.number = chosen.number + 1;
        }
        self.ballot = chosen;
    }

    /// The nomination step for `message`.
    pub fn nominate(&mut self, message: &Message<T>)
        ensures
            final(self)@ == old(self)@.nominating(message@),
    {
        proof {
            use_type_invariant(&*self);
            reveal(SlotView::nominating);
        }
        if self.nominated.is_empty() && self.priority_peers.contains(&message.sender) {
            self.nominated = message.topic.nominated_values();
        }
        self.update_values();
        if matches!(self.phase, Phase::Nominate) {
            if self.confirmed.is_empty() {
                self.update_prepared(message.topic.prepared_candidate());
                if self.prepared_a.is_zero() {
                    return ;
                }
            }
            proof {
                use_type_invariant(&*self);
            }
            if self.ballot.number == 0 {
                self.ballot.number = 1;
            }
            self.phase = Phase::NominatePrepare;
            self.update_ballot();
        }
    }

    /// Considers confirming `prepared_a` as prepared.
    pub fn confirm_prepared(&mut self)
        ensures
            final(self)@ == old(self)@.with_prepared_confirmed(),
    {
        proof {
            use_type_invariant(&*self);
            lemma_ballot_order_total(self.highest, self.prepared_a);
            lemma_ballot_order_antisymmetric(self.highest, self.prepared_a);
        }
        if matches!(self.phase, Phase::Commit | Phase::Externalize) {
            return ;
        }
        if self.prepared_a.is_zero() || !matches!(
            self.highest.compare(&self.prepared_a),
            Order::Less
        ) {
            return ;
        }
        let (node_ids, _) = self.find_quorum(FnPredicate::new(self.prepared_a.duplicate(), false));
        if node_ids.is_empty() {
            return ;
        }
        if matches!(self.phase, Phase::NominatePrepare) {
            self.phase = Phase::Prepare;
        }
        self.highest = self.prepared_a.duplicate();
        if self.lowest.is_zero() {
            self.lowest = self.prepared_a.duplicate();
        }
    }

    /// Narrows the numbers of `lowest` and `highest` to the window from `min`
    /// to `max`, which lies within the slot's own, and enters `phase`;
    /// changes nothing where the window is empty.
    fn narrow_to(&mut self, min: usize, max: usize, phase: Phase)
        requires
            old(self)@.lowest.number <= min,
            max <= old(self)@.highest.number,
        ensures
            final(self)@ == old(self)@.narrowed_to(
                Window { min, max, value: old(self)@.ballot.value, votes: false },
                phase,
            ),
    {
        proof {
            use_type_invariant(&*self);
        }
        if min <= max {
            self.phase = phase;
            self.lowest = Ballot { number: min, value: duplicate_value(&self.ballot.value) };
            self.highest = Ballot { number: max, value: duplicate_value(&self.ballot.value) };
        }
    }

    /// Considers accepting the commit of the slot's ballot.
    pub fn accept_commit(&mut self)
        ensures
            final(self)@ == old(self)@.with_commit_accepted(),
    {
        if matches!(self.phase, Phase::Commit | Phase::Externalize) {
            return ;
        }
        if self.lowest.is_zero() || self.highest.is_zero() {
            return ;
        }
        let (node_ids, narrowed) = self.accept(
            MinMaxPredicate::new(
                self.lowest.number,
                self.highest.number,
                duplicate_value(&self.ballot.value),
                false,
            ),
            MinMaxPredicate::new(
                self.lowest.number,
                self.highest.number,
                duplicate_value(&self.ballot.value),
                true,
            ),
        );
        if node_ids.is_empty() {
            return ;
        }
        proof {
            lemma_accepting_keeps::<T, MinMaxPredicate<T>>(
                self@,
                self@.window(false),
                self@.window(true),
                |found: Window<T>| self@.holds_window(found),
            );
        }
        self.narrow_to(narrowed.min(), narrowed.max(), Phase::Commit);
    }

    /// The preparing step for `message`.
    pub fn prepare(&mut self, message: &Message<T>)
        ensures
            final(self)@ == old(self)@.preparing(message@),
    {
        proof {
            reveal(SlotView::preparing);
        }
        if matches!(self.phase, Phase::Commit | Phase::Externalize) {
            return ;
        }
        self.update_prepared(message.topic.prepared_candidate());
        self.update_prepared(self.ballot.duplicate());
        self.confirm_prepared();
        self.update_ballot();
        self.accept_commit();
    }

    /// The committing step.
    pub fn commit(&mut self)
        ensures
            final(self)@ == old(self)@.committing(),
    {
        if !matches!(self.phase, Phase::Commit) {
            return ;
        }
        let (node_ids, narrowed) = self.find_quorum(
            MinMaxPredicate::new(
                self.lowest.number,
                self.highest.number,
                duplicate_value(&self.ballot.value),
                false,
            ),
        );
        if node_ids.is_empty() {
            return ;
        }
        proof {
            lemma_quorum_search_keeps::<T, MinMaxPredicate<T>>(
                self@.quorum.threshold,
                self@.quorum.members,
                self@.messages,
                self@.window(false),
                Set::empty().insert(self@.node_id),
                |found: Window<T>| self@.holds_window(found),
            );
        }
        self.narrow_to(narrowed.min(), narrowed.max(), Phase::Externalize);
    }

    /// Keeps `message` unless the message kept from its sender states as
    /// much or more; returns a copy of the message on which to act.
    fn record(&mut self, message: Message<T>) -> (r: Message<T>)
        ensures
            r@ == old(self)@.effective(message@),
            final(self)@ == (SlotView {
                messages: old(self)@.messages.insert(r@.sender, r@),
                ..old(self)@
            }),
    {
        proof {
            use_type_invariant(&*self);
        }
        let kept = match self.messages.get(&message.sender) {
            Some(m) => match m.topic.compare(&message.topic) {
                Order::Less => None,
                _ => Some(m.duplicate()),
            },
            None => None,
        };
        match kept {
            Some(m) => {
                assert(self@.messages.insert(m@.sender, m@) =~= self@.messages);
                m
            },
            None => {
                let copy = message.duplicate();
                let mut messages = MessageCache::new();
                std::mem::swap(&mut messages, &mut self.messages);
                messages.insert(message);
                self.messages = messages;
                copy
            },
        }
    }

    /// Takes in `message`, and returns what the slot has to send.
    ///
    /// A malformed message is refused with the error that says what is
    /// wrong with it, and leaves the slot and `counter` as they were: it is
    /// not kept. A well-formed message is taken in as `received` says; the
    /// slot then sends what it states, numbered by the next value of
    /// `counter`, unless it states what it sent last.
    pub fn handle(&mut self, message: Message<T>, counter: &mut usize) -> (r: Result<
        Option<Message<T>>,
        ValidityError,
    >)
        requires
            *old(counter) < usize::MAX,
        ensures
            final(self)@ == old(self)@.handled(message@, *old(counter) as nat),
            match old(self)@.reply(message@, *old(counter) as nat) {
                Ok(Some(m)) => r is Ok && r->Ok_0 is Some && r->Ok_0->0@ == m && *final(counter)
                    == *old(counter) + 1,
                Ok(None) => r is Ok && r->Ok_0 is None && *final(counter) == *old(counter),
                Err(e) => r == Err::<Option<Message<T>>, ValidityError>(e) && *final(counter)
                    == *old(counter),
            },
            final(self)@.phase.rank() >= old(self)@.phase.rank(),
            final(self)@.ordered(),
    {
        proof {
            use_type_invariant(&*self);
        }
        match message.valid() {
            Err(e) => {
                return Err(e);
            },
            Ok(()) => {},
        }
        let ghost before = self@;
        proof {
            reveal(SlotView::received);
        }
        let effective = self.record(message);
        if matches!(self.phase, Phase::Nominate | Phase::NominatePrepare) {
            self.nominate(&effective);
        }
        if matches!(self.phase, Phase::NominatePrepare | Phase::Prepare) {
            self.prepare(&effective);
        }
        if matches!(self.phase, Phase::Commit) {
            self.commit();
        }
        proof {
            use_type_invariant(&*self);
            lemma_received_moves_forward(before, message@);
        }
        let repeated = match (&self.sent, self.statement()) {
            (Some(sent), Some(topic)) => sent.topic.same(&topic),
            _ => false,
        };
        if repeated {
            return Ok(None);
        }
        match self.build_message(counter) {
            Some(m) => {
                self.sent = Some(m.duplicate());
                Ok(Some(m))
            },
            None => {
                self.sent = None;
                Ok(None)
            },
        }
    }

    /// Tells the slot that the time has come to `now`.
    pub fn tick(&mut self, now: u64)
        ensures
            final(self)@ == old(self)@.ticked(now),
            final(self)@.ordered(),
    {
        proof {
            use_type_invariant(&*self);
        }
        if matches!(self.phase, Phase::Commit | Phase::Externalize) || now < self.priority_timer
            || self.priority_round == usize::MAX {
            return ;
        }
        let round = self.priority_round + 1;
        if matches!(self.phase, Phase::Nominate | Phase::NominatePrepare) {
            match priority_peer_of(&self.quorum, self.id, round) {
                Some(peer) => {
                    let mut peers = NodeSet::new();
                    std::mem::swap(&mut peers, &mut self.priority_peers);
                    peers.insert(peer);
                    self.priority_peers = peers;
                },
                None => {},
            }
        }
        if matches!(self.phase, Phase::NominatePrepare | Phase::Prepare) && self.ballot.number
            < usize::MAX {
            self.ballot.number = self.ballot.number + 1;
        }
        self.priority_round = round;
        self.priority_timer = deadline_after(now, round);
    }
}

} // verus!
