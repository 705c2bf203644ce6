//! Messages, and the rules that a statement must meet to be taken in.

use vstd::prelude::*;
use crate::node::NodeId;
use crate::quorum::{Quorum, QuorumView};
use crate::slot::SlotId;
use crate::topic::{Commit, Nominate, NominateView, Prepare, Topic, TopicView};
use crate::ballot::{
    lemma_ballot_order_antisymmetric, lemma_ballot_order_irreflexive, lemma_ballot_order_total,
};
use crate::value::{Order, Value};

verus! {

/// The envelope in which a node sends a statement about a slot.
#[derive(Debug)]
pub struct Message<T: Value> {
    /// The message's place in its sender's order of sending.
    pub counter: usize,
    pub sender: NodeId,
    pub slot_id: SlotId,
    pub quorum: Quorum<T>,
    pub topic: Topic<T>,
}

/// A message with its quorum and its statement as mathematical values.
#[verifier::reject_recursive_types(T)]
pub struct MessageView<T: Value> {
    pub counter: nat,
    pub sender: NodeId,
    pub slot_id: SlotId,
    pub quorum: QuorumView,
    pub topic: TopicView<T>,
}

impl<T: Value> View for Message<T> {
    type V = MessageView<T>;

    open spec fn view(&self) -> MessageView<T> {
        MessageView {
            counter: self.counter as nat,
            sender: self.sender,
            slot_id: self.slot_id,
            quorum: self.quorum@,
            topic: self.topic@,
        }
    }
}

/// Why a statement is malformed.
#[derive(Debug, Clone, Copy, PartialEq, Eq, Structural)]
pub enum ValidityError {
    /// No nominated value of a nominating statement is among its accepted values.
    Nominate,
    /// The ballots or the bounds of a preparing statement are out of order.
    Prepare,
    /// The bounds of a committing statement are out of order.
    Commit,
}

impl<T> NominateView<T> {
    /// A nominating statement is well formed when some value is both
    /// nominated and accepted.
    pub open spec fn valid(self) -> bool {
        !self.nominated.disjoint(self.accepted)
    }
}

impl<T: Value> Prepare<T> {
    /// A preparing statement is well formed when `prepared_b` comes strictly
    /// before `prepared_a`, `prepared_a` does not come after `ballot`, and
    /// `lowest <= highest <= ballot.number`.
    pub open spec fn valid(self) -> bool {
        &&& !self.ballot.precedes(self.prepared_a)
        &&& self.prepared_b.precedes(self.prepared_a)
        &&& self.lowest <= self.highest
        &&& self.highest <= self.ballot.number
    }
}

impl<T: Value> Commit<T> {
    /// A committing statement is well formed when `lowest <= highest`.
    pub open spec fn valid(self) -> bool {
        self.lowest <= self.highest
    }
}

impl<T: Value> TopicView<T> {
    /// Whether the statement is well formed, and if not, which part is not.
    pub open spec fn validity(self) -> Result<(), ValidityError> {
        match self {
            TopicView::Nominate(n) => if n.valid() {
                Ok(())
            } else {
                Err(ValidityError::Nominate)
            },
            TopicView::NominatePrepare(n, p) => if !n.valid() {
                Err(ValidityError::Nominate)
            } else if !p.valid() {
                Err(ValidityError::Prepare)
            } else {
                Ok(())
            },
            TopicView::Prepare(p) => if p.valid() {
                Ok(())
            } else {
                Err(ValidityError::Prepare)
            },
            TopicView::Commit(c) => if c.valid() {
                Ok(())
            } else {
                Err(ValidityError::Commit)
            },
            TopicView::Externalize(_) => Ok(()),
        }
    }
}

impl<T: Value> Message<T> {
    /// Wraps `topic` in an envelope, numbered by the next value of the
    /// sender's counter.
    pub fn new(
        sender: NodeId,
        slot_id: SlotId,
        quorum: Quorum<T>,
        topic: Topic<T>,
        counter: &mut usize,
    ) -> (r: Message<T>)
        requires
            *old(counter) < usize::MAX,
        ensures
            *final(counter) == *old(counter) + 1,
            r == (Message { counter: (*old(counter) + 1) as usize, sender, slot_id, quorum, topic }),
    {
        *counter += 1;
        Message { counter: *counter, sender, slot_id, quorum, topic }
    }

    /// An independent copy of the message.
    pub fn duplicate(&self) -> (r: Self)
        ensures
            r@ == self@,
    {
        Message {
            counter: self.counter,
            sender: self.sender,
            slot_id: self.slot_id,
            quorum: self.quorum.duplicate(),
            topic: self.topic.duplicate(),
        }
    }

    /// Checks a nominating statement.
    pub fn nominate_valid(t: &Nominate<T>) -> (r: Result<(), ValidityError>)
        ensures
            r == if t@.valid() {
                Ok::<(), ValidityError>(())
            } else {
                Err(ValidityError::Nominate)
            },
    {
        if t.nominated.intersects(&t.accepted) {
            Ok(())
        } else {
            Err(ValidityError::Nominate)
        }
    }

    /// Checks a preparing statement.
    pub fn prepare_valid(t: &Prepare<T>) -> (r: Result<(), ValidityError>)
        ensures
            r == if t.valid() {
                Ok::<(), ValidityError>(())
            } else {
                Err(ValidityError::Prepare)
            },
    {
        proof {
            lemma_ballot_order_irreflexive(t.prepared_a);
            lemma_ballot_order_antisymmetric(t.prepared_a, t.ballot);
            lemma_ballot_order_total(t.prepared_a, t.ballot);
        }
        if matches!(t.prepared_a.compare(&t.ballot), Order::Greater) {
            return Err(ValidityError::Prepare);
        }
        if !matches!(t.prepared_b.compare(&t.prepared_a), Order::Less) {
            return Err(ValidityError::Prepare);
        }
        if t.lowest > t.highest {
            return Err(ValidityError::Prepare);
        }
        if t.highest > t.ballot.number {
            return Err(ValidityError::Prepare);
        }
        Ok(())
    }

    /// Checks a committing statement.
    pub fn commit_valid(t: &Commit<T>) -> (r: Result<(), ValidityError>)
        ensures
            r == if t.valid() {
                Ok::<(), ValidityError>(())
            } else {
                Err(ValidityError::Commit)
            },
    {
        if t.lowest > t.highest {
            Err(ValidityError::Commit)
        } else {
            Ok(())
        }
    }

    /// Checks the message's statement against the rules of its kind.
    pub fn valid(&self) -> (r: Result<(), ValidityError>)
        ensures
            r == self@.topic.validity(),
    {
        match &self.topic {
            Topic::Nominate(n) => Message::nominate_valid(n),
            Topic::NominatePrepare(n, p) => {
                match Message::nominate_valid(n) {
                    Ok(()) => Message::prepare_valid(p),
                    Err(e) => Err(e),
                }
            },
            Topic::Prepare(p) => Message::prepare_valid(p),
            Topic::Commit(c) => Message::commit_valid(c),
            Topic::Externalize(_) => Ok(()),
        }
    }
}

} // verus!
