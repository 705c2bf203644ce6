//! The slot as a mathematical value: what each of its steps does, and the
//! laws that the steps obey.

use vstd::prelude::*;
use crate::ballot::{
    lemma_ballot_order_antisymmetric, lemma_ballot_order_irreflexive, lemma_ballot_order_total,
    lemma_ballot_order_transitive, Ballot,
};
use crate::message::{MessageView, ValidityError};
use crate::node::NodeId;
use crate::predicate::{
    Candidates, FnPredicate, HashSetPredicate, MinMaxPredicate, Predicate, Prepared, Window,
};
use crate::quorum::{
    blocking_search, kept_by_tests, lemma_blocking_search_grows, lemma_blocking_search_keeps,
    lemma_quorum_search_grows, lemma_quorum_search_keeps, quorum_search, QuorumView,
};
use crate::slot::{Phase, SlotId, ROUND_DURATION};
use crate::topic::{Commit, Externalize, NominateView, Prepare, TopicView};
use crate::value::{combined, Order, Value};

verus! {

/// The state of a slot as a mathematical value.
#[verifier::reject_recursive_types(T)]
pub struct SlotView<T: Value> {
    pub id: SlotId,
    pub node_id: NodeId,
    pub quorum: QuorumView,
    pub phase: Phase,
    pub messages: Map<NodeId, MessageView<T>>,
    pub sent: Option<MessageView<T>>,
    pub created: u64,
    pub nominated: Set<T>,
    pub accepted: Set<T>,
    pub confirmed: Set<T>,
    pub ballot: Ballot<T>,
    pub prepared_a: Ballot<T>,
    pub prepared_b: Ballot<T>,
    pub highest: Ballot<T>,
    pub lowest: Ballot<T>,
    pub priority_peers: Set<NodeId>,
    pub priority_round: usize,
    pub priority_timer: u64,
}

/// The time at which the round `round` ends if it begins at `now`: later by
/// `ROUND_DURATION` for each round so far, and never beyond the last time.
pub open spec fn deadline(now: u64, round: usize) -> u64 {
    if now + ROUND_DURATION * round <= u64::MAX {
        (now + ROUND_DURATION * round) as u64
    } else {
        u64::MAX
    }
}

/// The node whose nominations a slot adopts from the round `round` on: the
/// nodes of its quorum set take turns, from a start that the slot gives.
pub open spec fn priority_peer(quorum: QuorumView, slot_id: SlotId, round: usize) -> Option<
    NodeId,
> {
    let nodes = quorum.nodes();
    let n = nodes.len() as int;
    if n == 0 {
        None
    } else {
        Some(nodes[((slot_id.0 as int % n) + (round as int % n)) % n])
    }
}

impl<T: Value> SlotView<T> {
    /// The ballots of a slot are in order: `prepared_b` does not come after
    /// `prepared_a`, `prepared_a` does not come after `ballot`, and the
    /// numbers of `lowest`, of `highest` and of `ballot` do not fall.
    pub open spec fn ordered(self) -> bool {
        &&& !self.prepared_a.precedes(self.prepared_b)
        &&& !self.ballot.precedes(self.prepared_a)
        &&& self.lowest.number <= self.highest.number <= self.ballot.number
    }

    /// The preparing statement of the slot.
    pub open spec fn preparing_statement(self) -> Prepare<T> {
        Prepare {
            ballot: self.ballot,
            prepared_a: self.prepared_a,
            prepared_b: self.prepared_b,
            highest: self.highest.number,
            lowest: self.lowest.number,
        }
    }

    /// What the slot decides, once it is decided: the ballot `lowest`, with
    /// the number of `highest`.
    pub open spec fn decision(self) -> Externalize<T> {
        Externalize { ballot: self.lowest, highest: self.highest.number }
    }

    /// What the slot states in its phase: nothing while it nominates and
    /// has neither nominated nor accepted a value.
    pub open spec fn statement(self) -> Option<TopicView<T>> {
        let nominate = NominateView { nominated: self.nominated, accepted: self.accepted };
        match self.phase {
            Phase::Nominate => if self.nominated == Set::<T>::empty() && self.accepted == Set::<
                T,
            >::empty() {
                None
            } else {
                Some(TopicView::Nominate(nominate))
            },
            Phase::NominatePrepare => Some(
                TopicView::NominatePrepare(nominate, self.preparing_statement()),
            ),
            Phase::Prepare => Some(TopicView::Prepare(self.preparing_statement())),
            Phase::Commit => Some(
                TopicView::Commit(
                    Commit {
                        ballot: self.ballot,
                        prepared: self.prepared_a.number,
                        highest: self.highest.number,
                        lowest: self.lowest.number,
                    },
                ),
            ),
            Phase::Externalize => Some(
                TopicView::Externalize(
                    Externalize { ballot: self.lowest, highest: self.highest.number },
                ),
            ),
        }
    }

    /// The message that carries `topic` from this slot under `counter`.
    pub open spec fn envelope(self, topic: TopicView<T>, counter: nat) -> MessageView<T> {
        MessageView {
            counter,
            sender: self.node_id,
            slot_id: self.id,
            quorum: self.quorum,
            topic,
        }
    }

    /// The search for a blocking set in the slot's quorum set, among the
    /// messages kept.
    pub open spec fn blocking<P: Predicate<T>>(self, state: P::V) -> (Set<NodeId>, P::V) {
        blocking_search::<T, P>(
            self.quorum.needed(),
            self.quorum.members,
            self.messages,
            state,
            Set::empty(),
        )
    }

    /// The search for a quorum in the slot's quorum set, among the messages
    /// kept, the slot's own node counted as accepting.
    pub open spec fn quorum<P: Predicate<T>>(self, state: P::V) -> (Set<NodeId>, P::V) {
        quorum_search::<T, P>(
            self.quorum.threshold,
            self.quorum.members,
            self.messages,
            state,
            Set::empty().insert(self.node_id),
        )
    }

    /// Whether the message that the slot sent last passes `state`.
    pub open spec fn sent_passes<P: Predicate<T>>(self, state: P::V) -> bool {
        self.sent matches Some(m) && P::narrowed(state, m) is Some
    }

    /// The nodes on whose word the slot accepts a statement, with the state
    /// in which the deciding test or search ended; the empty set where the
    /// slot does not accept yet.
    ///
    /// The slot accepts on its own word where the message it sent last
    /// passes `blocking`; else on the word of a blocking set that passes
    /// `blocking`; else, where the message it sent last passes `voting`, on
    /// the word of a quorum that passes `voting`.
    pub open spec fn accepting<P: Predicate<T>>(self, blocking: P::V, voting: P::V) -> (
        Set<NodeId>,
        P::V,
    ) {
        if self.sent_passes::<P>(blocking) {
            (Set::empty().insert(self.node_id), P::narrowed(blocking, self.sent->0)->0)
        } else if self.blocking::<P>(blocking).0 != Set::<NodeId>::empty() {
            self.blocking::<P>(blocking)
        } else if self.sent_passes::<P>(voting) {
            self.quorum::<P>(voting)
        } else {
            (Set::empty(), voting)
        }
    }

    /// The slot after the promotion of values.
    ///
    /// First the nominated values that the slot accepts as nominated join
    /// the accepted values: those that are left of the nominated values once
    /// the slot accepts, each message letting stand what it accepts as
    /// nominated and, for a quorum, also what it votes to nominate. What is
    /// accepted leaves the nominated values. Then the accepted values that a
    /// quorum accepts as nominated join the confirmed values.
    pub open spec fn with_values_promoted(self) -> SlotView<T> {
        let first = self.accepting::<HashSetPredicate<T>>(
            Candidates { values: self.nominated, votes: false },
            Candidates { values: self.nominated, votes: true },
        );
        let accepted = if first.0 != Set::<NodeId>::empty() {
            self.accepted.union(first.1.values)
        } else {
            self.accepted
        };
        let second = self.quorum::<HashSetPredicate<T>>(
            Candidates { values: accepted, votes: false },
        );
        let confirmed = if second.0 != Set::<NodeId>::empty() {
            self.confirmed.union(second.1.values)
        } else {
            self.confirmed
        };
        SlotView { nominated: self.nominated.difference(accepted), accepted, confirmed, ..self }
    }

    /// The slot after it has considered accepting `candidate` as prepared.
    ///
    /// Nothing changes from the commit phase on, for the zero ballot, for a
    /// candidate that `prepared_a` does not come before, and where the slot
    /// does not accept: a message speaks for the candidate where it accepts
    /// it as prepared and, for a quorum, also where it votes to prepare it.
    /// Where the slot accepts, the candidate becomes `prepared_a`; the old
    /// `prepared_a` becomes `prepared_b` if it is not the zero ballot and has
    /// another value; and the candidate becomes `ballot` too where `ballot`
    /// came before it.
    pub open spec fn with_prepared(self, candidate: Ballot<T>) -> SlotView<T> {
        let found = self.accepting::<FnPredicate<T>>(
            Prepared { ballot: candidate, votes: false },
            Prepared { ballot: candidate, votes: true },
        );
        if self.phase.rank() >= Phase::Commit.rank() || candidate.zero()
            || !self.prepared_a.precedes(candidate) || found.0 == Set::<NodeId>::empty() {
            self
        } else {
            SlotView {
                ballot: if self.ballot.precedes(candidate) {
                    candidate
                } else {
                    self.ballot
                },
                prepared_a: candidate,
                prepared_b: if !self.prepared_a.zero() && self.prepared_a.value
                    != candidate.value {
                    self.prepared_a
                } else {
                    self.prepared_b
                },
                ..self
            }
        }
    }

    /// The value that the slot chooses for its ballot: the value of
    /// `highest` where that is not the zero ballot; else, where a value is
    /// confirmed, the accepted values merged into one; else the value of
    /// `prepared_a` where that is not the zero ballot; else the value as it is.
    pub open spec fn chosen_value(self) -> Option<T> {
        if !self.highest.zero() {
            self.highest.value
        } else if self.confirmed != Set::<T>::empty() {
            combined(self.accepted, self.id)
        } else if !self.prepared_a.zero() {
            self.prepared_a.value
        } else {
            self.ballot.value
        }
    }

    /// The slot after the choice of the value of its ballot.
    ///
    /// The ballot gets the value that `chosen_value` gives. Where it would
    /// come before `prepared_a` with that value, it also gets the next
    /// number; and where there is no next number, it stays as it is.
    pub open spec fn with_ballot_chosen(self) -> SlotView<T> {
        let chosen = Ballot { number: self.ballot.number, value: self.chosen_value() };
        if !chosen.precedes(self.prepared_a) {
            SlotView { ballot: chosen, ..self }
        } else if self.ballot.number < usize::MAX {
            SlotView {
                ballot: Ballot {
                    number: (self.ballot.number + 1) as usize,
                    value: self.chosen_value(),
                },
                ..self
            }
        } else {
            self
        }
    }

    /// The slot as it is created at the time `now`, for the node `node_id`
    /// with the quorum set `quorum`: it nominates, has no value, no ballot
    /// and no message, and is in its first round.
    pub open spec fn created(slot_id: SlotId, node_id: NodeId, quorum: QuorumView, now: u64) -> SlotView<
        T,
    > {
        SlotView {
            id: slot_id,
            node_id,
            quorum,
            phase: Phase::Nominate,
            messages: Map::empty(),
            sent: None,
            created: now,
            nominated: Set::empty(),
            accepted: Set::empty(),
            confirmed: Set::empty(),
            ballot: Ballot { number: 0, value: None },
            prepared_a: Ballot { number: 0, value: None },
            prepared_b: Ballot { number: 0, value: None },
            highest: Ballot { number: 0, value: None },
            lowest: Ballot { number: 0, value: None },
            priority_peers: match priority_peer(quorum, slot_id, 1) {
                Some(peer) => Set::empty().insert(peer),
                None => Set::empty(),
            },
            priority_round: 1,
            priority_timer: deadline(now, 1),
        }
    }

    /// The slot after the time has come to `now`.
    ///
    /// Before the commit phase, where the slot's round has ended, the next
    /// round begins: a slot that nominates adds the node whose turn it is to
    /// the nodes whose nominations it adopts, and a slot that prepares goes
    /// on to the ballot with the next number.
    pub open spec fn ticked(self, now: u64) -> SlotView<T> {
        if self.phase.rank() < Phase::Commit.rank() && now >= self.priority_timer
            && self.priority_round < usize::MAX {
            let round = (self.priority_round + 1) as usize;
            SlotView {
                priority_round: round,
                priority_peers: match priority_peer(self.quorum, self.id, round) {
                    Some(peer) if self.phase.nominates() => self.priority_peers.insert(peer),
                    _ => self.priority_peers,
                },
                priority_timer: deadline(now, round),
                ballot: Ballot {
                    number: if self.phase.prepares() && self.ballot.number < usize::MAX {
                        (self.ballot.number + 1) as usize
                    } else {
                        self.ballot.number
                    },
                    value: self.ballot.value,
                },
                ..self
            }
        } else {
            self
        }
    }

    /// The slot as it enters the phase in which it both nominates and
    /// prepares: its ballot gets the number 1 if it had the number 0.
    pub open spec fn started(self) -> SlotView<T> {
        SlotView {
            phase: Phase::NominatePrepare,
            ballot: Ballot {
                number: if self.ballot.number == 0 {
                    1
                } else {
                    self.ballot.number
                },
                value: self.ballot.value,
            },
            ..self
        }
    }

    /// The slot after the nomination step for `message`.
    ///
    /// A slot that has nominated nothing adopts the values that the message
    /// nominates, if its sender is one of the nodes whose nominations the
    /// slot adopts. Then values are promoted. A slot in its first phase then
    /// moves on if a value is confirmed, or if none is and it accepts as
    /// prepared the ballot that the message holds prepared: it enters the
    /// next phase and chooses the value of its ballot.
    #[verifier::opaque]
    pub open spec fn nominating(self, message: MessageView<T>) -> SlotView<T> {
        let adopted = if self.nominated == Set::<T>::empty() && self.priority_peers.contains(
            message.sender,
        ) {
            SlotView { nominated: message.topic.nominated_values(), ..self }
        } else {
            self
        };
        let promoted = adopted.with_values_promoted();
        let prepared = if promoted.confirmed == Set::<T>::empty() {
            promoted.with_prepared(message.topic.prepared_candidate())
        } else {
            promoted
        };
        if promoted.phase != Phase::Nominate {
            promoted
        } else if prepared.confirmed == Set::<T>::empty() && prepared.prepared_a.zero() {
            prepared
        } else {
            prepared.started().with_ballot_chosen()
        }
    }

    /// The slot after it has considered confirming `prepared_a` as prepared.
    ///
    /// Before the commit phase, where `prepared_a` is not the zero ballot,
    /// `highest` comes before it, and a quorum accepts it as prepared, it
    /// becomes `highest`, and also `lowest` if that was the zero ballot; a
    /// slot that nominated until then stops nominating.
    pub open spec fn with_prepared_confirmed(self) -> SlotView<T> {
        let found = self.quorum::<FnPredicate<T>>(
            Prepared { ballot: self.prepared_a, votes: false },
        );
        if self.phase.rank() >= Phase::Commit.rank() || self.prepared_a.zero()
            || !self.highest.precedes(self.prepared_a) || found.0 == Set::<NodeId>::empty() {
            self
        } else {
            SlotView {
                phase: if self.phase == Phase::NominatePrepare {
                    Phase::Prepare
                } else {
                    self.phase
                },
                highest: self.prepared_a,
                lowest: if self.lowest.zero() {
                    self.prepared_a
                } else {
                    self.lowest
                },
                ..self
            }
        }
    }

    /// The window of ballot numbers from `lowest` to `highest`, for the
    /// commit of the value of `ballot`.
    pub open spec fn window(self, votes: bool) -> Window<T> {
        Window {
            min: self.lowest.number,
            max: self.highest.number,
            value: self.ballot.value,
            votes,
        }
    }

    /// The slot with the numbers of `lowest` and `highest` narrowed to the
    /// window `found`, both with the value of `ballot`, and in the phase
    /// `phase`; unchanged where the window is empty.
    pub open spec fn narrowed_to(self, found: Window<T>, phase: Phase) -> SlotView<T> {
        if found.min > found.max {
            self
        } else {
            SlotView {
                phase,
                lowest: Ballot { number: found.min, value: self.ballot.value },
                highest: Ballot { number: found.max, value: self.ballot.value },
                ..self
            }
        }
    }

    /// Whether the window `found` lies within the slot's own window.
    pub open spec fn holds_window(self, found: Window<T>) -> bool {
        self.lowest.number <= found.min && found.max <= self.highest.number
    }

    /// The slot after it has considered accepting the commit of its ballot.
    ///
    /// Before the commit phase, where neither `lowest` nor `highest` is the
    /// zero ballot and the slot accepts the commit for a part of the window
    /// between their numbers, it narrows the two to that part and enters the
    /// commit phase. A message
    /// speaks for the numbers for which it accepts the commit of the value
    /// of `ballot` and, for a quorum, also for those for which it votes to
    /// commit it.
    pub open spec fn with_commit_accepted(self) -> SlotView<T> {
        let found = self.accepting::<MinMaxPredicate<T>>(self.window(false), self.window(true));
        if self.phase.rank() >= Phase::Commit.rank() || self.lowest.zero() || self.highest.zero()
            || found.0 == Set::<NodeId>::empty() {
            self
        } else {
            self.narrowed_to(found.1, Phase::Commit)
        }
    }

    /// The slot after the preparing step for `message`, which changes
    /// nothing from the commit phase on.
    ///
    /// The slot considers accepting as prepared first the ballot that the
    /// message holds prepared, then its own ballot; considers confirming
    /// `prepared_a`; chooses the value of its ballot; and considers accepting
    /// the commit of its ballot.
    #[verifier::opaque]
    pub open spec fn preparing(self, message: MessageView<T>) -> SlotView<T> {
        let first = self.with_prepared(message.topic.prepared_candidate());
        let second = first.with_prepared(first.ballot);
        if self.phase.rank() >= Phase::Commit.rank() {
            self
        } else {
            second.with_prepared_confirmed().with_ballot_chosen().with_commit_accepted()
        }
    }

    /// The slot after the committing step: in the commit phase, where a
    /// quorum accepts the commit of the value of `ballot` for a part of the
    /// window between the numbers of `lowest` and `highest`, the slot narrows
    /// the two to that part and is decided.
    pub open spec fn committing(self) -> SlotView<T> {
        let found = self.quorum::<MinMaxPredicate<T>>(self.window(false));
        if self.phase != Phase::Commit || found.0 == Set::<NodeId>::empty() {
            self
        } else {
            self.narrowed_to(found.1, Phase::Externalize)
        }
    }

    /// The message on which the slot acts when `message` comes in: the
    /// message kept from the same sender, unless `message` states more.
    pub open spec fn effective(self, message: MessageView<T>) -> MessageView<T> {
        if self.messages.contains_key(message.sender) && self.messages[message.sender].topic.order(
            message.topic,
        ) != Order::Less {
            self.messages[message.sender]
        } else {
            message
        }
    }

    /// The slot after it has taken in the well-formed message `message`,
    /// before it states anything.
    ///
    /// The message is kept if it states more than the message kept from its
    /// sender. Then the steps of the slot's phase run, each in the phase in
    /// which the step before left the slot: the nomination step, the
    /// preparing step and the committing step.
    #[verifier::opaque]
    pub open spec fn received(self, message: MessageView<T>) -> SlotView<T> {
        let effective = self.effective(message);
        let kept = SlotView { messages: self.messages.insert(effective.sender, effective), ..self };
        let nominated = if kept.phase.nominates() {
            kept.nominating(effective)
        } else {
            kept
        };
        let prepared = if nominated.phase.prepares() {
            nominated.preparing(effective)
        } else {
            nominated
        };
        if prepared.phase == Phase::Commit {
            prepared.committing()
        } else {
            prepared
        }
    }

    /// Whether the slot states what the message it sent last states.
    pub open spec fn repeats(self) -> bool {
        self.sent is Some && self.statement() == Some(self.sent->0.topic)
    }

    /// What the slot sends after a step, under the next value of `counter`:
    /// what it states, unless it is what the slot sent last.
    pub open spec fn outgoing(self, counter: nat) -> Option<MessageView<T>> {
        if self.repeats() {
            None
        } else {
            match self.statement() {
                Some(topic) => Some(self.envelope(topic, counter + 1)),
                None => None,
            }
        }
    }

    /// The slot after it has sent what `outgoing` says: it remembers what
    /// it stated last, and that it stated nothing.
    pub open spec fn having_sent(self, counter: nat) -> SlotView<T> {
        if self.repeats() {
            self
        } else {
            SlotView { sent: self.outgoing(counter), ..self }
        }
    }

    /// What the slot answers to `message`: the error that says what is
    /// wrong with a malformed message, else what the slot sends, under the
    /// next value of `counter`, after it has taken in the message.
    pub open spec fn reply(self, message: MessageView<T>, counter: nat) -> Result<
        Option<MessageView<T>>,
        ValidityError,
    > {
        match message.topic.validity() {
            Err(e) => Err(e),
            Ok(()) => Ok(self.received(message).outgoing(counter)),
        }
    }

    /// The slot after it has answered `message`: as it was where the
    /// message is malformed, else as it is after it has taken in the message
    /// and sent what it had to send.
    pub open spec fn handled(self, message: MessageView<T>, counter: nat) -> SlotView<T> {
        if message.topic.validity() is Err {
            self
        } else {
            self.received(message).having_sent(counter)
        }
    }
}

/// Whether `after` is a slot that a step can make of `before`: the phase
/// has not fallen back, and the slot is who it was, keeps the messages it
/// kept, has sent what it had sent, and is in the round it was in.
pub open spec fn stepped<T: Value>(before: SlotView<T>, after: SlotView<T>) -> bool {
    &&& after.phase.rank() >= before.phase.rank()
    &&& after.id == before.id
    &&& after.node_id == before.node_id
    &&& after.quorum == before.quorum
    &&& after.messages == before.messages
    &&& after.sent == before.sent
    &&& after.created == before.created
    &&& after.priority_peers == before.priority_peers
    &&& after.priority_round == before.priority_round
    &&& after.priority_timer == before.priority_timer
}

/// The nomination step, the preparing step and the committing step never
/// let a slot fall back to an earlier phase, and leave alone who the slot
/// is, the messages it keeps, what it sent last, and its rounds. A step
/// that does not run in the phase of the slot changes nothing.
pub proof fn lemma_steps_leave_alone<T: Value>(slot: SlotView<T>, message: MessageView<T>)
    ensures
        stepped(slot, slot.nominating(message)),
        stepped(slot, slot.preparing(message)),
        stepped(slot, slot.committing()),
        slot.phase.rank() >= Phase::Commit.rank() ==> slot.preparing(message) == slot,
        slot.phase != Phase::Commit ==> slot.committing() == slot,
{
    reveal(SlotView::nominating);
    reveal(SlotView::preparing);
}

/// Taking in a message never lets a slot fall back to an earlier phase, and
/// leaves alone who the slot is, what it sent last, and its rounds.
pub proof fn lemma_received_moves_forward<T: Value>(slot: SlotView<T>, message: MessageView<T>)
    ensures
        slot.received(message).phase.rank() >= slot.phase.rank(),
        slot.received(message).id == slot.id,
        slot.received(message).node_id == slot.node_id,
        slot.received(message).quorum == slot.quorum,
        slot.received(message).sent == slot.sent,
        slot.received(message).created == slot.created,
        slot.received(message).priority_peers == slot.priority_peers,
        slot.received(message).priority_round == slot.priority_round,
        slot.received(message).priority_timer == slot.priority_timer,
{
    reveal(SlotView::received);
    let effective = slot.effective(message);
    let kept = SlotView { messages: slot.messages.insert(effective.sender, effective), ..slot };
    lemma_steps_leave_alone(kept, effective);
    let nominated = if kept.phase.nominates() {
        kept.nominating(effective)
    } else {
        kept
    };
    lemma_steps_leave_alone(nominated, effective);
    let prepared = if nominated.phase.prepares() {
        nominated.preparing(effective)
    } else {
        nominated
    };
    lemma_steps_leave_alone(prepared, effective);
}

/// The state with which a slot accepts has every property of the two states
/// from which it began that every successful test keeps.
pub proof fn lemma_accepting_keeps<T: Value, P: Predicate<T>>(
    slot: SlotView<T>,
    blocking: P::V,
    voting: P::V,
    keeps: spec_fn(P::V) -> bool,
)
    requires
        keeps(blocking),
        keeps(voting),
        kept_by_tests::<T, P>(keeps),
    ensures
        keeps(slot.accepting::<P>(blocking, voting).1),
{
    lemma_blocking_search_keeps::<T, P>(
        slot.quorum.needed(),
        slot.quorum.members,
        slot.messages,
        blocking,
        Set::empty(),
        keeps,
    );
    lemma_quorum_search_keeps::<T, P>(
        slot.quorum.threshold,
        slot.quorum.members,
        slot.messages,
        voting,
        Set::empty().insert(slot.node_id),
        keeps,
    );
}

/// A slot accepts on the word of its own node or of nodes of which it
/// keeps a message.
pub proof fn lemma_accepting_nodes_are_known<T: Value, P: Predicate<T>>(
    slot: SlotView<T>,
    blocking: P::V,
    voting: P::V,
)
    ensures
        forall|n: NodeId| #[trigger]
            slot.accepting::<P>(blocking, voting).0.contains(n) ==> n == slot.node_id
                || slot.messages.contains_key(n),
{
    lemma_blocking_search_grows::<T, P>(
        slot.quorum.needed(),
        slot.quorum.members,
        slot.messages,
        blocking,
        Set::empty(),
    );
    lemma_quorum_search_grows::<T, P>(
        slot.quorum.threshold,
        slot.quorum.members,
        slot.messages,
        voting,
        Set::empty().insert(slot.node_id),
    );
}

/// Promotion moves values forward only: what was accepted or confirmed
/// stays so, what becomes accepted was nominated, what becomes confirmed is
/// accepted, and no accepted value stays nominated.
pub proof fn lemma_promotion_moves_values_forward<T: Value>(slot: SlotView<T>)
    ensures
        slot.accepted.subset_of(slot.with_values_promoted().accepted),
        slot.with_values_promoted().accepted.subset_of(slot.accepted.union(slot.nominated)),
        slot.confirmed.subset_of(slot.with_values_promoted().confirmed),
        slot.with_values_promoted().confirmed.subset_of(
            slot.confirmed.union(slot.with_values_promoted().accepted),
        ),
        slot.with_values_promoted().nominated.disjoint(slot.with_values_promoted().accepted),
        slot.with_values_promoted().nominated.subset_of(slot.nominated),
{
    let among_nominated = |c: Candidates<T>| c.values.subset_of(slot.nominated);
    assert(kept_by_tests::<T, HashSetPredicate<T>>(among_nominated));
    lemma_accepting_keeps::<T, HashSetPredicate<T>>(
        slot,
        Candidates { values: slot.nominated, votes: false },
        Candidates { values: slot.nominated, votes: true },
        among_nominated,
    );
    let accepted = slot.with_values_promoted().accepted;
    let among_accepted = |c: Candidates<T>| c.values.subset_of(accepted);
    assert(kept_by_tests::<T, HashSetPredicate<T>>(among_accepted));
    lemma_quorum_search_keeps::<T, HashSetPredicate<T>>(
        slot.quorum.threshold,
        slot.quorum.members,
        slot.messages,
        Candidates { values: accepted, votes: false },
        Set::empty().insert(slot.node_id),
        among_accepted,
    );
}

/// No step of a slot lets it fall back to an earlier phase, and the passing
/// of time leaves the phase alone and never lowers the number of the ballot.
pub proof fn lemma_steps_move_forward<T: Value>(
    slot: SlotView<T>,
    message: MessageView<T>,
    candidate: Ballot<T>,
    now: u64,
)
    ensures
        slot.with_values_promoted().phase == slot.phase,
        slot.with_prepared(candidate).phase == slot.phase,
        slot.with_ballot_chosen().phase == slot.phase,
        slot.nominating(message).phase.rank() >= slot.phase.rank(),
        slot.with_prepared_confirmed().phase.rank() >= slot.phase.rank(),
        slot.with_commit_accepted().phase.rank() >= slot.phase.rank(),
        slot.preparing(message).phase.rank() >= slot.phase.rank(),
        slot.committing().phase.rank() >= slot.phase.rank(),
        slot.ticked(now).phase == slot.phase,
        slot.ticked(now).ballot.number >= slot.ballot.number,
        slot.ticked(now).ballot.value == slot.ballot.value,
{
    lemma_steps_leave_alone(slot, message);
}

/// The ballots of a slot stay in order when it considers a ballot as prepared.
pub proof fn lemma_prepared_keeps_order<T: Value>(slot: SlotView<T>, candidate: Ballot<T>)
    requires
        slot.ordered(),
    ensures
        slot.with_prepared(candidate).ordered(),
{
    lemma_ballot_order_irreflexive(slot.prepared_a);
    lemma_ballot_order_irreflexive(candidate);
    lemma_ballot_order_antisymmetric(slot.prepared_a, candidate);
    lemma_ballot_order_antisymmetric(slot.prepared_b, candidate);
    lemma_ballot_order_antisymmetric(slot.ballot, candidate);
    lemma_ballot_order_total(slot.prepared_a, slot.prepared_b);
    lemma_ballot_order_total(slot.ballot, candidate);
    if slot.prepared_b.precedes(slot.prepared_a) && slot.prepared_a.precedes(candidate) {
        lemma_ballot_order_transitive(slot.prepared_b, slot.prepared_a, candidate);
    }
}

/// The ballots of a slot stay in order when it chooses the value of its
/// ballot, and the ballot then has the chosen value unless no number is left.
pub proof fn lemma_ballot_chosen_keeps_order<T: Value>(slot: SlotView<T>)
    requires
        slot.ordered(),
    ensures
        slot.with_ballot_chosen().ordered(),
        slot.with_ballot_chosen().ballot.number >= slot.ballot.number,
        slot.ballot.number < usize::MAX ==> slot.with_ballot_chosen().ballot.value
            == slot.chosen_value(),
{
    lemma_ballot_order_antisymmetric(slot.ballot, slot.prepared_a);
    lemma_ballot_order_total(slot.ballot, slot.prepared_a);
}

/// The ballots of a slot stay in order when it confirms a ballot as prepared.
pub proof fn lemma_confirmed_keeps_order<T: Value>(slot: SlotView<T>)
    requires
        slot.ordered(),
    ensures
        slot.with_prepared_confirmed().ordered(),
{
    lemma_ballot_order_total(slot.highest, slot.prepared_a);
    lemma_ballot_order_antisymmetric(slot.highest, slot.prepared_a);
    lemma_ballot_order_antisymmetric(slot.ballot, slot.prepared_a);
    lemma_ballot_order_total(slot.ballot, slot.prepared_a);
}

/// The ballots of a slot stay in order when it narrows its window of
/// commits on the word of the nodes it accepts from, or of a quorum.
pub proof fn lemma_commit_keeps_order<T: Value>(slot: SlotView<T>)
    requires
        slot.ordered(),
    ensures
        slot.with_commit_accepted().ordered(),
        slot.committing().ordered(),
{
    let within = |found: Window<T>| slot.holds_window(found);
    assert(kept_by_tests::<T, MinMaxPredicate<T>>(within));
    lemma_accepting_keeps::<T, MinMaxPredicate<T>>(
        slot,
        slot.window(false),
        slot.window(true),
        within,
    );
    lemma_quorum_search_keeps::<T, MinMaxPredicate<T>>(
        slot.quorum.threshold,
        slot.quorum.members,
        slot.messages,
        slot.window(false),
        Set::empty().insert(slot.node_id),
        within,
    );
}

/// The ballots of a slot stay in order through the nomination step.
pub proof fn lemma_nominating_keeps_order<T: Value>(slot: SlotView<T>, message: MessageView<T>)
    requires
        slot.ordered(),
    ensures
        slot.with_values_promoted().ordered(),
        slot.nominating(message).ordered(),
{
    reveal(SlotView::nominating);
    let adopted = if slot.nominated == Set::<T>::empty() && slot.priority_peers.contains(
        message.sender,
    ) {
        SlotView { nominated: message.topic.nominated_values(), ..slot }
    } else {
        slot
    };
    let promoted = adopted.with_values_promoted();
    assert(promoted.ordered());
    lemma_prepared_keeps_order(promoted, message.topic.prepared_candidate());
    let prepared = if promoted.confirmed == Set::<T>::empty() {
        promoted.with_prepared(message.topic.prepared_candidate())
    } else {
        promoted
    };
    assert(prepared.ordered());
    lemma_ballot_order_antisymmetric(prepared.ballot, prepared.prepared_a);
    lemma_ballot_order_total(prepared.ballot, prepared.prepared_a);
    assert(prepared.started().ordered());
    lemma_ballot_chosen_keeps_order(prepared.started());
}

/// The ballots of a slot stay in order through the preparing step.
pub proof fn lemma_preparing_keeps_order<T: Value>(slot: SlotView<T>, message: MessageView<T>)
    requires
        slot.ordered(),
    ensures
        slot.preparing(message).ordered(),
{
    reveal(SlotView::preparing);
    let first = slot.with_prepared(message.topic.prepared_candidate());
    lemma_prepared_keeps_order(slot, message.topic.prepared_candidate());
    let second = first.with_prepared(first.ballot);
    lemma_prepared_keeps_order(first, first.ballot);
    let third = second.with_prepared_confirmed();
    lemma_confirmed_keeps_order(second);
    let fourth = third.with_ballot_chosen();
    lemma_ballot_chosen_keeps_order(third);
    lemma_commit_keeps_order(fourth);
}

/// The ballots of a slot stay in order when time passes.
pub proof fn lemma_ticked_keeps_order<T: Value>(slot: SlotView<T>, now: u64)
    requires
        slot.ordered(),
    ensures
        slot.ticked(now).ordered(),
{
    lemma_ballot_order_antisymmetric(slot.ballot, slot.prepared_a);
    lemma_ballot_order_total(slot.ballot, slot.prepared_a);
}

/// The ballots of a slot stay in order whatever message it takes in: the
/// slot never states a ballot that comes before the one it holds prepared.
pub proof fn lemma_received_keeps_order<T: Value>(
    slot: SlotView<T>,
    message: MessageView<T>,
    counter: nat,
)
    requires
        slot.ordered(),
    ensures
        slot.received(message).ordered(),
        slot.received(message).having_sent(counter).ordered(),
        slot.handled(message, counter).ordered(),
{
    reveal(SlotView::received);
    let effective = slot.effective(message);
    let kept = SlotView { messages: slot.messages.insert(effective.sender, effective), ..slot };
    lemma_nominating_keeps_order(kept, effective);
    let nominated = if kept.phase.nominates() {
        kept.nominating(effective)
    } else {
        kept
    };
    lemma_preparing_keeps_order(nominated, effective);
    let prepared = if nominated.phase.prepares() {
        nominated.preparing(effective)
    } else {
        nominated
    };
    lemma_commit_keeps_order(prepared);
}

/// A decided slot stays as it is, whatever message comes in, but for the
/// messages that it keeps.
pub proof fn lemma_decided_slot_is_final<T: Value>(slot: SlotView<T>, message: MessageView<T>)
    requires
        slot.phase == Phase::Externalize,
    ensures
        slot.received(message) == (SlotView {
            messages: slot.messages.insert(
                slot.effective(message).sender,
                slot.effective(message),
            ),
            ..slot
        }),
        slot.received(message).statement() == slot.statement(),
{
    reveal(SlotView::received);
    let effective = slot.effective(message);
    let kept = SlotView { messages: slot.messages.insert(effective.sender, effective), ..slot };
    lemma_steps_leave_alone(kept, effective);
}

/// A malformed message is refused and leaves the slot as it was: it does
/// not join the messages that the slot keeps. A nominating statement whose
/// nominated values and accepted values have no value in common is malformed.
pub proof fn lemma_malformed_message_changes_nothing<T: Value>(
    slot: SlotView<T>,
    message: MessageView<T>,
    counter: nat,
)
    requires
        message.topic.validity() is Err,
    ensures
        slot.reply(message, counter) == Err::<Option<MessageView<T>>, ValidityError>(
            message.topic.validity()->Err_0,
        ),
        slot.handled(message, counter) == slot,
        slot.handled(message, counter).messages == slot.messages,
        message.topic matches TopicView::Nominate(n) ==> n.nominated.disjoint(n.accepted)
            && slot.reply(message, counter) == Err::<Option<MessageView<T>>, ValidityError>(
            ValidityError::Nominate,
        ),
{
}

/// A nominating statement whose nominated values and accepted values have
/// no value in common is refused, and leaves the slot as it was.
pub proof fn lemma_disjoint_nomination_is_refused<T: Value>(
    slot: SlotView<T>,
    message: MessageView<T>,
    counter: nat,
)
    requires
        message.topic matches TopicView::Nominate(n) && n.nominated.disjoint(n.accepted),
    ensures
        slot.reply(message, counter) == Err::<Option<MessageView<T>>, ValidityError>(
            ValidityError::Nominate,
        ),
        slot.handled(message, counter) == slot,
{
}

/// A slot that has sent nothing sends what it states after a well-formed
/// message, from its node and about itself, and remembers it as sent.
pub proof fn lemma_first_statement_is_sent<T: Value>(
    slot: SlotView<T>,
    message: MessageView<T>,
    counter: nat,
)
    requires
        slot.sent is None,
        message.topic.validity() is Ok,
        slot.received(message).statement() is Some,
    ensures
        slot.reply(message, counter) matches Ok(Some(m)) && m.topic == slot.received(
            message,
        ).statement()->0 && m.sender == slot.node_id && m.slot_id == slot.id && m.counter
            == counter + 1 && slot.handled(message, counter).sent == Some(m),
{
    lemma_received_moves_forward(slot, message);
}

/// A statement is sent once: where a slot has sent a message and the next
/// well-formed message leaves it stating what that message states, it sends
/// nothing then, and what it remembers as sent stays.
pub proof fn lemma_same_statement_is_not_sent_again<T: Value>(
    slot: SlotView<T>,
    first: MessageView<T>,
    second: MessageView<T>,
    counter: nat,
)
    requires
        slot.reply(first, counter) matches Ok(Some(m)) && slot.handled(first, counter).received(
            second,
        ).statement() == Some(m.topic),
        second.topic.validity() is Ok,
    ensures
        slot.handled(first, counter).reply(second, counter + 1) == Ok::<
            Option<MessageView<T>>,
            ValidityError,
        >(None),
        slot.handled(first, counter).handled(second, counter + 1).sent == Some(
            slot.reply(first, counter)->Ok_0->0,
        ),
{
    let sent = slot.handled(first, counter);
    lemma_received_moves_forward(sent, second);
    assert(sent.received(second).repeats());
}

} // verus!
