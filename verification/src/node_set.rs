//! Sets of nodes.

use vstd::prelude::*;
use crate::node::NodeId;

verus! {

/// A finite set of nodes.
///
/// The nodes are kept in the order in which they were first inserted, and
/// none occurs twice.
#[derive(Debug)]
pub struct NodeSet {
    items: Vec<NodeId>,
}

impl View for NodeSet {
    type V = Set<NodeId>;

    closed spec fn view(&self) -> Set<NodeId> {
        self.items@.to_set()
    }
}

impl NodeSet {
    #[verifier::type_invariant]
    spec fn distinct(self) -> bool {
        self.items@.no_duplicates()
    }

    /// The nodes of the set in the order in which they were inserted.
    pub closed spec fn elements(self) -> Seq<NodeId> {
        self.items@
    }

    /// The view of a set holds exactly the nodes of `elements`, and is finite.
    pub proof fn view_is_finite(self)
        ensures
            self@.finite(),
            self@ == self.elements().to_set(),
    {
        vstd::seq_lib::seq_to_set_is_finite(self.items@);
    }

    /// The empty set.
    pub fn new() -> (r: Self)
        ensures
            r@ == Set::<NodeId>::empty(),
            r.elements() == Seq::<NodeId>::empty(),
    {
        let r = NodeSet { items: Vec::new() };
        assert(r.items@.to_set() =~= Set::<NodeId>::empty());
        r
    }

    /// The number of nodes in the set.
    pub fn len(&self) -> (n: usize)
        ensures
            n == self@.len(),
            n == self.elements().len(),
            self@.finite(),
    {
        proof {
            use_type_invariant(self);
            self.items@.unique_seq_to_set();
            vstd::seq_lib::seq_to_set_is_finite(self.items@);
        }
        self.items.len()
    }

    /// Whether the set holds no node.
    pub fn is_empty(&self) -> (b: bool)
        ensures
            b == (self@ == Set::<NodeId>::empty()),
            b == (self@.len() == 0),
            self@.finite(),
    {
        proof {
            use_type_invariant(self);
            self.items@.unique_seq_to_set();
            vstd::seq_lib::seq_to_set_is_finite(self.items@);
            if self.items@.len() == 0 {
                assert(self.items@.to_set() =~= Set::<NodeId>::empty());
            } else {
                assert(self.items@.to_set().contains(self.items@[0]));
            }
        }
        self.items.len() == 0
    }

    /// The node at position `i` of `elements`.
    pub fn get(&self, i: usize) -> (r: NodeId)
        requires
            i < self.elements().len(),
        ensures
            r == self.elements()[i as int],
            self@.contains(r),
    {
        assert(self.items@.contains(self.items@[i as int]));
        self.items[i]
    }

    /// Whether `node` is in the set.
    pub fn contains(&self, node: &NodeId) -> (b: bool)
        ensures
            b == self@.contains(*node),
    {
        let mut i: usize = 0;
        while i < self.items.len()
            invariant
                i <= self.items.len(),
                forall|j: int| 0 <= j < i ==> self.items@[j] != *node,
            decreases self.items.len() - i,
        {
            if self.items[i] == *node {
                assert(self.items@.contains(self.items@[i as int]));
                return true;
            }
            i += 1;
        }
        false
    }

    /// Adds `node` to the set; tells whether it was new.
    pub fn insert(&mut self, node: NodeId) -> (fresh: bool)
        ensures
            final(self)@ == old(self)@.insert(node),
            fresh == !old(self)@.contains(node),
            final(self).elements() == if fresh {
                old(self).elements().push(node)
            } else {
                old(self).elements()
            },
    {
        proof {
            use_type_invariant(&*self);
        }
        if self.contains(&node) {
            assert(self.items@.to_set().insert(node) =~= self.items@.to_set());
            false
        } else {
            proof {
                self.items@.lemma_push_to_set_commute(node);
                assert(self.items@.push(node).no_duplicates());
            }
            let mut items: Vec<NodeId> = Vec::new();
            std::mem::swap(&mut items, &mut self.items);
            items.push(node);
            self.items = items;
            true
        }
    }

    /// An independent copy of the set.
    pub fn duplicate(&self) -> (r: Self)
        ensures
            r@ == self@,
            r.elements() == self.elements(),
    {
        proof {
            use_type_invariant(self);
        }
        let mut items: Vec<NodeId> = Vec::new();
        let mut i: usize = 0;
        while i < self.items.len()
            invariant
                i <= self.items.len(),
                items@ == self.items@.take(i as int),
            decreases self.items.len() - i,
        {
            items.push(self.items[i]);
            assert(self.items@.take(i + 1) =~= self.items@.take(i as int).push(self.items@[i as int]));
            i += 1;
        }
        assert(self.items@.take(i as int) =~= self.items@);
        NodeSet { items }
    }
}

} // verus!
