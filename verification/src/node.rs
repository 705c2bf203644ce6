//! The node: it routes messages to its slots and keeps the decisions.

use vstd::prelude::*;
use crate::ballot::{duplicate_value, same_value};
use crate::message::{Message, MessageView, ValidityError};
use crate::node_set::NodeSet;
use crate::quorum::{Quorum, QuorumView};
use crate::slot::{Phase, Slot, SlotId};
use crate::slot_view::{lemma_received_moves_forward, SlotView};
use crate::slot_map::SlotMap;
use crate::topic::{Externalize, Topic, TopicView};
use crate::value::Value;

verus! {

/// Identity of a peer, stable for the lifetime of the network.
#[derive(Debug, Clone, Copy, PartialEq, Eq, Hash, PartialOrd, Ord, Structural)]
pub struct NodeId(pub u64);

/// Why a node refuses a message.
#[derive(Debug, Clone, Copy, PartialEq, Eq, Structural)]
pub enum ConsensusError {
    /// The statement of the message is malformed. The message is ignored.
    Validity(ValidityError),
    /// The peer `peer` states that the slot `slot_id` is decided with
    /// another value than the one with which this node decided it.
    ConsensusDivergence { slot_id: SlotId, peer: NodeId },
}

/// What a node is told from outside.
#[derive(Debug)]
pub enum Event<T: Value> {
    /// A message came in.
    Message(Message<T>),
    /// The time has come to the given value.
    Tick(u64),
}

/// A participant: its identity, its quorum set, the slots that it is
/// deciding, and the decisions that it has reached.
#[derive(Debug)]
pub struct Node<T: Value> {
    id: NodeId,
    quorum: Quorum<T>,
    pending: SlotMap<Slot<T>>,
    externalized: SlotMap<Externalize<T>>,
    faulty: NodeSet,
    counter: usize,
    now: u64,
}

/// A node as a mathematical value.
#[verifier::reject_recursive_types(T)]
pub struct NodeView<T: Value> {
    pub id: NodeId,
    pub quorum: QuorumView,
    pub pending: Map<SlotId, SlotView<T>>,
    pub externalized: Map<SlotId, Externalize<T>>,
    pub faulty: Set<NodeId>,
    pub counter: usize,
    pub now: u64,
}

impl<T: Value> View for Node<T> {
    type V = NodeView<T>;

    closed spec fn view(&self) -> NodeView<T> {
        NodeView {
            id: self.id,
            quorum: self.quorum@,
            pending: self.pending@,
            externalized: self.externalized@,
            faulty: self.faulty@,
            counter: self.counter,
            now: self.now,
        }
    }
}

impl<T: Value> NodeView<T> {
    /// No slot is both pending and decided; every pending slot is kept
    /// under its own identity and is not decided yet.
    pub open spec fn wf(self) -> bool {
        forall|id: SlotId| #[trigger]
            self.pending.contains_key(id) ==> !self.externalized.contains_key(id)
                && self.pending[id].id == id && self.pending[id].phase != Phase::Externalize
    }

    /// The message that carries `topic` about the slot `slot_id` from this
    /// node under the next value of its counter.
    pub open spec fn envelope(self, slot_id: SlotId, topic: TopicView<T>) -> MessageView<T> {
        MessageView {
            counter: (self.counter + 1) as nat,
            sender: self.id,
            slot_id,
            quorum: self.quorum,
            topic,
        }
    }

    /// The slot that takes in a message about the slot `slot_id`: the
    /// pending one, or one created at the time of the last tick, in either
    /// case with the identity and the quorum set that the node has now.
    pub open spec fn slot_for(self, slot_id: SlotId) -> SlotView<T> {
        let slot = if self.pending.contains_key(slot_id) {
            self.pending[slot_id]
        } else {
            SlotView::<T>::created(slot_id, self.id, self.quorum, self.now)
        };
        SlotView { node_id: self.id, quorum: self.quorum, ..slot }
    }

    /// Whether `message` states that a slot is decided with another value
    /// than the one with which this node decided it.
    pub open spec fn diverges(self, message: MessageView<T>) -> bool {
        &&& self.externalized.contains_key(message.slot_id)
        &&& message.topic matches TopicView::Externalize(e)
        &&& e.ballot.value != self.externalized[message.slot_id].ballot.value
    }

    /// What the node answers to `message`.
    ///
    /// To a peer that it holds faulty: nothing. About a decided slot: an
    /// error where the message states a decision with another value; nothing
    /// where it states a decision with the same value; to any other
    /// statement, the node's own decision. About any other slot: what the
    /// slot for it answers, which is an error where the statement is
    /// malformed.
    pub open spec fn answer(self, message: MessageView<T>) -> Result<
        Option<MessageView<T>>,
        ConsensusError,
    > {
        if self.faulty.contains(message.sender) {
            Ok(None)
        } else if self.diverges(message) {
            Err(
                ConsensusError::ConsensusDivergence {
                    slot_id: message.slot_id,
                    peer: message.sender,
                },
            )
        } else if self.externalized.contains_key(message.slot_id) {
            if message.topic is Externalize {
                Ok(None)
            } else {
                Ok(
                    Some(
                        self.envelope(
                            message.slot_id,
                            TopicView::Externalize(self.externalized[message.slot_id]),
                        ),
                    ),
                )
            }
        } else {
            match self.slot_for(message.slot_id).reply(message, self.counter as nat) {
                Err(e) => Err(ConsensusError::Validity(e)),
                Ok(sent) => Ok(sent),
            }
        }
    }

    /// The node after it has answered `message`.
    ///
    /// Its counter has moved on if it sent something. A message from a peer
    /// that the node holds faulty changes nothing. A peer whose message
    /// diverges is held faulty from then on. Any other message about a
    /// decided slot changes nothing else. A message about any other slot
    /// goes to the slot for it, which is created if none is pending: the
    /// slot is pending afterwards, as the message left it, and as it was
    /// where the message is malformed; but a slot that is decided by the
    /// message leaves the pending slots, and its decision joins the decisions.
    pub open spec fn handled(self, message: MessageView<T>) -> NodeView<T> {
        let counter = match self.answer(message) {
            Ok(Some(_)) => (self.counter + 1) as usize,
            _ => self.counter,
        };
        if self.faulty.contains(message.sender) {
            self
        } else if self.diverges(message) {
            NodeView { faulty: self.faulty.insert(message.sender), ..self }
        } else if self.externalized.contains_key(message.slot_id) {
            NodeView { counter, ..self }
        } else {
            let slot = self.slot_for(message.slot_id).handled(message, self.counter as nat);
            if slot.phase == Phase::Externalize {
                NodeView {
                    counter,
                    pending: self.pending.remove(message.slot_id),
                    externalized: self.externalized.insert(message.slot_id, slot.decision()),
                    ..self
                }
            } else {
                NodeView { counter, pending: self.pending.insert(message.slot_id, slot), ..self }
            }
        }
    }

    /// The node after the time has come to `now`: every pending slot has
    /// been told.
    pub open spec fn ticked(self, now: u64) -> NodeView<T> {
        NodeView {
            now,
            pending: Map::new(
                |id: SlotId| self.pending.contains_key(id),
                |id: SlotId| self.pending[id].ticked(now),
            ),
            ..self
        }
    }

    /// The value with which the slot `slot_id` is decided, if it is.
    pub open spec fn externalized_value(self, slot_id: SlotId) -> Option<T> {
        if self.externalized.contains_key(slot_id) {
            self.externalized[slot_id].ballot.value
        } else {
            None
        }
    }
}

/// A decision stands: no message and no passing of time changes or removes
/// a decision that a node has reached.
pub proof fn lemma_decisions_stand<T: Value>(
    node: NodeView<T>,
    message: MessageView<T>,
    now: u64,
    slot_id: SlotId,
)
    requires
        node.externalized.contains_key(slot_id),
    ensures
        node.handled(message).externalized.contains_key(slot_id),
        node.handled(message).externalized[slot_id] == node.externalized[slot_id],
        node.handled(message).externalized_value(slot_id) == node.externalized_value(slot_id),
        node.ticked(now).externalized == node.externalized,
{
}

/// A message about a decided slot leaves the slots and the decisions as
/// they are, and is refused exactly when it comes from a peer that is not
/// held faulty and states a decision with another value; that peer is held
/// faulty from then on, and nothing is sent to it.
pub proof fn lemma_decided_slot_is_not_reopened<T: Value>(
    node: NodeView<T>,
    message: MessageView<T>,
)
    requires
        node.externalized.contains_key(message.slot_id),
    ensures
        node.handled(message).pending == node.pending,
        node.handled(message).externalized == node.externalized,
        node.answer(message) is Err <==> !node.faulty.contains(message.sender) && (
        message.topic matches TopicView::Externalize(e) && e.ballot.value
            != node.externalized[message.slot_id].ballot.value),
        node.answer(message) is Err ==> node.handled(message).faulty.contains(message.sender)
            && node.handled(message).counter == node.counter,
{
}

/// A statement that a slot is decided with the value with which this node
/// decided it is met with silence, whatever else it holds: no error, no
/// message, and the node stays as it is.
pub proof fn lemma_agreeing_decision_is_met_with_silence<T: Value>(
    node: NodeView<T>,
    message: MessageView<T>,
)
    requires
        node.externalized.contains_key(message.slot_id),
        message.topic matches TopicView::Externalize(e) && e.ballot.value
            == node.externalized[message.slot_id].ballot.value,
    ensures
        node.answer(message) == Ok::<Option<MessageView<T>>, ConsensusError>(None),
        node.handled(message) == node,
{
}

/// A statement that a slot is decided with another value than the one with
/// which this node decided it is refused as a divergence, unless its sender
/// is held faulty already; the decision of the node stands.
pub proof fn lemma_diverging_decision_is_refused<T: Value>(
    node: NodeView<T>,
    message: MessageView<T>,
)
    requires
        node.externalized.contains_key(message.slot_id),
        message.topic matches TopicView::Externalize(e) && e.ballot.value
            != node.externalized[message.slot_id].ballot.value,
        !node.faulty.contains(message.sender),
    ensures
        node.answer(message) == Err::<Option<MessageView<T>>, ConsensusError>(
            ConsensusError::ConsensusDivergence {
                slot_id: message.slot_id,
                peer: message.sender,
            },
        ),
        node.handled(message).externalized == node.externalized,
        node.handled(message).pending == node.pending,
{
}

/// A message about a slot that is not decided, from a peer that is not held
/// faulty, goes to the slot for it, which is created if none is pending.
/// Afterwards that slot is pending as the message left it, or decided if the
/// message decided it; what is kept for every other slot is as it was. A
/// malformed message leaves the slot pending as it was or as it was
/// created, and is not among the messages that the slot keeps.
pub proof fn lemma_message_reaches_its_slot<T: Value>(node: NodeView<T>, message: MessageView<T>)
    requires
        node.wf(),
        !node.externalized.contains_key(message.slot_id),
        !node.faulty.contains(message.sender),
    ensures
        ({
            let id = message.slot_id;
            let slot = node.slot_for(id).handled(message, node.counter as nat);
            let after = node.handled(message);
            &&& after.wf()
            &&& slot.phase != Phase::Externalize ==> after.pending.contains_key(id)
                && after.pending[id] == slot && after.externalized == node.externalized
            &&& slot.phase == Phase::Externalize ==> !after.pending.contains_key(id)
                && after.externalized == node.externalized.insert(id, slot.decision())
            &&& forall|other: SlotId|
                other != id ==> after.pending.contains_key(other) == node.pending.contains_key(
                    other,
                ) && (node.pending.contains_key(other) ==> after.pending[other]
                    == node.pending[other])
            &&& message.topic.validity() is Err ==> after.pending.contains_key(id)
                && after.pending[id] == node.slot_for(id) && after.pending[id].messages == (
            if node.pending.contains_key(id) {
                node.pending[id].messages
            } else {
                Map::empty()
            }) && node.answer(message) == Err::<Option<MessageView<T>>, ConsensusError>(
                ConsensusError::Validity(message.topic.validity()->Err_0),
            )
        }),
{
    lemma_received_moves_forward(node.slot_for(message.slot_id), message);
}

/// A peer that is held faulty stays so, and its messages change nothing.
pub proof fn lemma_faulty_peer_is_not_heard<T: Value>(
    node: NodeView<T>,
    message: MessageView<T>,
    now: u64,
    peer: NodeId,
)
    requires
        node.faulty.contains(peer),
    ensures
        node.handled(message).faulty.contains(peer),
        node.ticked(now).faulty.contains(peer),
        message.sender == peer ==> node.handled(message) == node && node.answer(message) == Ok::<
            Option<MessageView<T>>,
            ConsensusError,
        >(None),
{
}

/// No slot is both pending and decided, before and after every message
/// and every passing of time.
pub proof fn lemma_node_stays_well_formed<T: Value>(
    node: NodeView<T>,
    message: MessageView<T>,
    now: u64,
)
    requires
        node.wf(),
    ensures
        node.handled(message).wf(),
        node.ticked(now).wf(),
{
    let slot = node.slot_for(message.slot_id);
    lemma_received_moves_forward(slot, message);
    assert(node.handled(message).wf());
    assert(node.ticked(now).wf());
}

impl<T: Value> Node<T> {
    #[verifier::type_invariant]
    spec fn wf(self) -> bool {
        forall|id: SlotId| #[trigger]
            self.pending@.contains_key(id) ==> !self.externalized@.contains_key(id)
                && self.pending@[id].id == id && self.pending@[id].phase != Phase::Externalize
    }

    /// Builds the node `id` with the quorum set `quorum` and the decisions
    /// `externalized` that it reached before. No slot is pending, no peer is
    /// held faulty, the node has sent nothing, and its time is 0.
    pub fn new(id: NodeId, quorum: Quorum<T>, externalized: SlotMap<Externalize<T>>) -> (r: Node<T>)
        ensures
            r@ == (NodeView {
                id,
                quorum: quorum@,
                pending: Map::empty(),
                externalized: externalized@,
                faulty: Set::empty(),
                counter: 0,
                now: 0,
            }),
            r@.wf(),
    {
        Node {
            id,
            quorum,
            pending: SlotMap::new(),
            externalized,
            faulty: NodeSet::new(),
            counter: 0,
            now: 0,
        }
    }

    /// The node's identity.
    pub fn id(&self) -> (r: NodeId)
        ensures
            r == self@.id,
    {
        self.id
    }

    /// The number of messages that the node has sent.
    pub fn counter(&self) -> (r: usize)
        ensures
            r == self@.counter,
            self@.wf(),
    {
        proof {
            use_type_invariant(self);
        }
        self.counter
    }

    /// The value with which the slot `slot_id` is decided, if it is.
    pub fn externalized_value(&self, slot_id: SlotId) -> (r: Option<T>)
        ensures
            r == self@.externalized_value(slot_id),
    {
        match self.externalized.get(slot_id) {
            Some(e) => duplicate_value(&e.ballot.value),
            None => None,
        }
    }

    /// The decision on the slot `slot_id`, if it is decided.
    pub fn decision(&self, slot_id: SlotId) -> (r: Option<Externalize<T>>)
        ensures
            r == if self@.externalized.contains_key(slot_id) {
                Some(self@.externalized[slot_id])
            } else {
                None
            },
    {
        match self.externalized.get(slot_id) {
            Some(e) => Some(e.duplicate()),
            None => None,
        }
    }

    /// Whether the node holds the peer `peer` faulty.
    pub fn is_faulty(&self, peer: NodeId) -> (b: bool)
        ensures
            b == self@.faulty.contains(peer),
    {
        self.faulty.contains(&peer)
    }

    /// The slot `slot_id`, if it is being decided.
    pub fn slot(&self, slot_id: SlotId) -> (r: Option<&Slot<T>>)
        ensures
            match r {
                Some(slot) => self@.pending.contains_key(slot_id) && slot@
                    == self@.pending[slot_id],
                None => !self@.pending.contains_key(slot_id),
            },
    {
        self.pending.get(slot_id)
    }

    /// Whether the slot `slot_id` is being decided.
    pub fn is_pending(&self, slot_id: SlotId) -> (b: bool)
        ensures
            b == self@.pending.contains_key(slot_id),
    {
        self.pending.contains_key(slot_id)
    }

    /// Takes in `message`, and returns what the node has to send.
    pub fn handle(&mut self, message: Message<T>) -> (r: Result<Option<Message<T>>, ConsensusError>)
        requires
            old(self)@.counter < usize::MAX,
        ensures
            final(self)@ == old(self)@.handled(message@),
            match old(self)@.answer(message@) {
                Ok(Some(m)) => r is Ok && r->Ok_0 is Some && r->Ok_0->0@ == m,
                Ok(None) => r is Ok && r->Ok_0 is None,
                Err(e) => r == Err::<Option<Message<T>>, ConsensusError>(e),
            },
            final(self)@.wf(),
    {
        proof {
            use_type_invariant(&*self);
        }
        if self.faulty.contains(&message.sender) {
            return Ok(None);
        }
        if let Some(own) = self.externalized.get(message.slot_id) {
            match &message.topic {
                Topic::Externalize(e) => {
                    if !same_value(&e.ballot.value, &own.ballot.value) {
                        let mut faulty = NodeSet::new();
                        std::mem::swap(&mut faulty, &mut self.faulty);
                        faulty.insert(message.sender);
                        self.faulty = faulty;
                        return Err(
                            ConsensusError::ConsensusDivergence {
                                slot_id: message.slot_id,
                                peer: message.sender,
                            },
                        );
                    }
                    return Ok(None);
                },
                _ => {
                    let topic = Topic::Externalize(own.duplicate());
                    let mut counter = self.counter;
                    let reply = Message::new(
                        self.id,
                        message.slot_id,
                        self.quorum.duplicate(),
                        topic,
                        &mut counter,
                    );
                    self.counter = counter;
                    return Ok(Some(reply));
                },
            }
        }
        let slot_id = message.slot_id;
        let ghost before = self@;
        let mut pending: SlotMap<Slot<T>> = SlotMap::new();
        std::mem::swap(&mut pending, &mut self.pending);
        let mut slot = match pending.remove(slot_id) {
            Some(slot) => slot,
            None => Slot::new(slot_id, self.id, self.quorum.duplicate(), self.now),
        };
        slot.refresh(self.id, self.quorum.duplicate());
        assert(slot@ == before.slot_for(slot_id));
        proof {
            lemma_received_moves_forward(slot@, message@);
        }
        let mut counter = self.counter;
        let sent = slot.handle(message, &mut counter);
        self.counter = counter;
        assert(slot@ == before.slot_for(slot_id).handled(message@, before.counter as nat));
        assert(before.pending.remove(slot_id).insert(slot_id, slot@) =~= before.pending.insert(
            slot_id,
            slot@,
        ));
        match slot.phase() {
            Phase::Externalize => {
                self.pending = pending;
                let mut externalized: SlotMap<Externalize<T>> = SlotMap::new();
                std::mem::swap(&mut externalized, &mut self.externalized);
                externalized.insert(slot_id, slot.decision());
                self.externalized = externalized;
            },
            _ => {
                pending.insert(slot_id, slot);
                self.pending = pending;
            },
        }
        match sent {
            Ok(m) => Ok(m),
            Err(e) => Err(ConsensusError::Validity(e)),
        }
    }

    /// Tells the node that the time has come to `now`.
    pub fn tick(&mut self, now: u64)
        ensures
            final(self)@ == old(self)@.ticked(now),
            final(self)@.wf(),
    {
        proof {
            use_type_invariant(&*self);
        }
        let ghost before = self.pending@;
        let mut pending: SlotMap<Slot<T>> = SlotMap::new();
        std::mem::swap(&mut pending, &mut self.pending);
        let mut entries = pending.into_entries();
        let ghost all = entries@;
        let mut ticked: SlotMap<Slot<T>> = SlotMap::new();
        while entries.len() > 0
            invariant
                crate::slot_map::one_per_key(all),
                crate::slot_map::map_of(all) == before,
                entries@ == all.take(entries@.len() as int),
                entries@.len() <= all.len(),
                forall|id: SlotId| #[trigger]
                    ticked@.contains_key(id) <==> exists|i: int|
                        entries@.len() <= i < all.len() && (#[trigger] all[i]).0 == id,
                forall|i: int|
                    entries@.len() <= i < all.len() ==> ticked@[(#[trigger] all[i]).0]
                        == all[i].1@.ticked(now),
            decreases entries@.len(),
        {
            let ghost n = entries@.len() as int;
            let (id, mut slot) = entries.pop().unwrap();
            assert(entries@ =~= all.take(n - 1));
            assert(all[n - 1] == (id, slot));
            slot.tick(now);
            ticked.insert(id, slot);
        }
        proof {
            assert forall|id: SlotId| ticked@.contains_key(id) <==> before.contains_key(id) by {
                if before.contains_key(id) {
                    let k = crate::slot_map::place_of(all, id);
                    assert(all[k].0 == id);
                }
            }
            assert forall|id: SlotId| ticked@.contains_key(id) implies ticked@[id]
                == before[id].ticked(now) by {
                let k = crate::slot_map::place_of(all, id);
                crate::slot_map::lemma_map_of_entry(all, k);
            }
            assert(ticked@ =~= old(self)@.ticked(now).pending);
        }
        self.pending = ticked;
        self.now = now;
    }

    /// Takes one step for `event`: takes in a message, or is told the time.
    /// Returns what the node has to send.
    pub fn run(&mut self, event: Event<T>) -> (r: Result<Option<Message<T>>, ConsensusError>)
        requires
            event is Message ==> old(self)@.counter < usize::MAX,
        ensures
            match event {
                Event::Message(message) => {
                    &&& final(self)@ == old(self)@.handled(message@)
                    &&& match old(self)@.answer(message@) {
                        Ok(Some(m)) => r is Ok && r->Ok_0 is Some && r->Ok_0->0@ == m,
                        Ok(None) => r is Ok && r->Ok_0 is None,
                        Err(e) => r == Err::<Option<Message<T>>, ConsensusError>(e),
                    }
                },
                Event::Tick(now) => final(self)@ == old(self)@.ticked(now) && r is Ok && r->Ok_0
                    is None,
            },
    {
        match event {
            Event::Message(message) => self.handle(message),
            Event::Tick(now) => {
                self.tick(now);
                Ok(None)
            },
        }
    }
}

} // verus!
