//! The messages that a slot keeps, one for each sender.

use vstd::prelude::*;
use crate::message::{Message, MessageView};
use crate::node::NodeId;
use crate::value::Value;

verus! {

/// The latest message kept from each sender.
#[derive(Debug)]
pub struct MessageCache<T: Value> {
    entries: Vec<Message<T>>,
}

/// Whether some message of `entries` comes from `sender`.
spec fn has_sender<T: Value>(entries: Seq<Message<T>>, sender: NodeId) -> bool {
    exists|i: int| 0 <= i < entries.len() && #[trigger] entries[i].sender == sender
}

/// The place in `entries` of a message from `sender`.
spec fn place_of<T: Value>(entries: Seq<Message<T>>, sender: NodeId) -> int {
    choose|i: int| 0 <= i < entries.len() && #[trigger] entries[i].sender == sender
}

/// No two messages of `entries` come from the same sender.
spec fn one_per_sender<T: Value>(entries: Seq<Message<T>>) -> bool {
    forall|i: int, j: int|
        0 <= i < entries.len() && 0 <= j < entries.len() && i != j ==> #[trigger] entries[i].sender
            != #[trigger] entries[j].sender
}

/// The senders of `entries`, where no two messages come from the same
/// sender, are as many as the messages.
proof fn lemma_senders<T: Value>(entries: Seq<Message<T>>)
    requires
        one_per_sender(entries),
    ensures
        Set::new(|sender: NodeId| has_sender(entries, sender)).finite(),
        Set::new(|sender: NodeId| has_sender(entries, sender)).len() == entries.len(),
    decreases entries.len(),
{
    let senders = Set::new(|sender: NodeId| has_sender(entries, sender));
    if entries.len() == 0 {
        assert(senders =~= Set::<NodeId>::empty());
    } else {
        let before = entries.drop_last();
        let last = entries.last().sender;
        lemma_senders(before);
        let fewer = Set::new(|sender: NodeId| has_sender(before, sender));
        assert(entries[entries.len() - 1].sender == last);
        assert forall|sender: NodeId| senders.contains(sender) <==> fewer.insert(last).contains(
            sender,
        ) by {
            if has_sender(entries, sender) && sender != last {
                let k = place_of(entries, sender);
                assert(before[k].sender == sender);
            }
            if has_sender(before, sender) {
                let k = place_of(before, sender);
                assert(entries[k].sender == sender);
            }
        }
        assert(senders =~= fewer.insert(last));
        assert(!fewer.contains(last)) by {
            if has_sender(before, last) {
                let k = place_of(before, last);
                assert(entries[k].sender == last);
            }
        }
    }
}

impl<T: Value> View for MessageCache<T> {
    type V = Map<NodeId, MessageView<T>>;

    closed spec fn view(&self) -> Map<NodeId, MessageView<T>> {
        Map::new(
            |sender: NodeId| has_sender(self.entries@, sender),
            |sender: NodeId| self.entries@[place_of(self.entries@, sender)]@,
        )
    }
}

impl<T: Value> MessageCache<T> {
    #[verifier::type_invariant]
    spec fn distinct(self) -> bool {
        one_per_sender(self.entries@)
    }

    /// The cache that holds no message.
    pub fn new() -> (r: Self)
        ensures
            r@ == Map::<NodeId, MessageView<T>>::empty(),
    {
        let r = MessageCache { entries: Vec::new() };
        assert(r@ =~= Map::<NodeId, MessageView<T>>::empty());
        r
    }

    /// The place of the message from `sender`, if there is one.
    fn find(&self, sender: &NodeId) -> (r: Option<usize>)
        ensures
            match r {
                Some(i) => i < self.entries@.len() && self.entries@[i as int].sender == *sender
                    && has_sender(self.entries@, *sender) && place_of(self.entries@, *sender) == i,
                None => !has_sender(self.entries@, *sender),
            },
    {
        proof {
            use_type_invariant(self);
        }
        let mut i: usize = 0;
        while i < self.entries.len()
            invariant
                i <= self.entries.len(),
                one_per_sender(self.entries@),
                forall|j: int| 0 <= j < i ==> self.entries@[j].sender != *sender,
            decreases self.entries.len() - i,
        {
            if self.entries[i].sender == *sender {
                return Some(i);
            }
            i += 1;
        }
        None
    }

    /// The message kept from `sender`, if there is one.
    pub fn get(&self, sender: &NodeId) -> (r: Option<&Message<T>>)
        ensures
            match r {
                Some(m) => self@.contains_key(*sender) && m@ == self@[*sender] && m.sender
                    == *sender,
                None => !self@.contains_key(*sender),
            },
    {
        match self.find(sender) {
            Some(i) => Some(&self.entries[i]),
            None => None,
        }
    }

    /// Keeps `message` as the message of its sender, in place of the one
    /// kept from that sender before.
    pub fn insert(&mut self, message: Message<T>)
        ensures
            final(self)@ == old(self)@.insert(message.sender, message@),
    {
        proof {
            use_type_invariant(&*self);
        }
        let ghost before = self.entries@;
        let place = self.find(&message.sender);
        let mut entries: Vec<Message<T>> = Vec::new();
        std::mem::swap(&mut entries, &mut self.entries);
        match place {
            Some(i) => {
                entries.set(i, message);
            },
            None => {
                entries.push(message);
            },
        }
        proof {
            let after = entries@;
            assert(one_per_sender(after));
            assert forall|sender: NodeId| has_sender(after, sender) <==> (sender == message.sender
                || has_sender(before, sender)) by {
                if has_sender(after, sender) {
                    let k = place_of(after, sender);
                    if sender != message.sender {
                        assert(before[k].sender == sender);
                    }
                }
                if sender == message.sender {
                    match place {
                        Some(i) => {
                            assert(after[i as int].sender == sender);
                        },
                        None => {
                            assert(after[before.len() as int].sender == sender);
                        },
                    }
                } else if has_sender(before, sender) {
                    let k = place_of(before, sender);
                    assert(after[k].sender == sender);
                }
            }
            assert forall|sender: NodeId| has_sender(after, sender) implies after[place_of(
                after,
                sender,
            )]@ == (if sender == message.sender {
                message@
            } else {
                before[place_of(before, sender)]@
            }) by {
                let k = place_of(after, sender);
                if sender != message.sender {
                    assert(before[k].sender == sender);
                    assert(place_of(before, sender) == k);
                }
            }
        }
        self.entries = entries;
        assert(self@ =~= old(self)@.insert(message.sender, message@));
    }

    /// The number of senders of whom a message is kept.
    pub fn len(&self) -> (n: usize)
        ensures
            n == 0 <==> self@ == Map::<NodeId, MessageView<T>>::empty(),
            n == self@.dom().len(),
            self@.dom().finite(),
    {
        proof {
            use_type_invariant(self);
            lemma_senders(self.entries@);
        }
        proof {
            if self.entries@.len() == 0 {
                assert(self@ =~= Map::<NodeId, MessageView<T>>::empty());
            } else {
                assert(self.entries@[0].sender == self.entries@[0].sender);
                assert(has_sender(self.entries@, self.entries@[0].sender));
                assert(self@.contains_key(self.entries@[0].sender));
            }
        }
        self.entries.len()
    }
}

} // verus!
