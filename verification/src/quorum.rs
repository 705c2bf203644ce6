//! Quorum sets and the two searches over them.

use vstd::prelude::*;
use std::marker::PhantomData;
use crate::message::MessageView;
use crate::message_cache::MessageCache;
use crate::node::NodeId;
use crate::node_set::NodeSet;
use crate::predicate::Predicate;
use crate::value::Value;

verus! {

/// How deep quorum sets may be nested: a quorum set of nodes only counts 1.
/// The searches call themselves once for each level.
pub const MAX_NESTING: usize = 16;

/// A quorum set: members, each a node or a nested quorum set, of which
/// `threshold` must agree.
///
/// Every quorum set has `0 < threshold <= members.len()`, and is built
/// from quorum sets nested no deeper than `MAX_NESTING`.
#[derive(Debug)]
pub struct Quorum<T: Value> {
    threshold: usize,
    members: Vec<Member<T>>,
    _phantom_value: PhantomData<T>,
}

/// A member of a quorum set.
#[derive(Debug)]
pub enum Member<T: Value> {
    Node(NodeId),
    Quorum(Quorum<T>),
}

/// A quorum set as a mathematical tree.
pub struct QuorumView {
    pub threshold: nat,
    pub members: Seq<MemberView>,
}

/// A member of a quorum set as a mathematical value.
pub enum MemberView {
    Node(NodeId),
    Quorum(QuorumView),
}

impl<T: Value> View for Member<T> {
    type V = MemberView;

    open spec fn view(&self) -> MemberView
        decreases self,
    {
        match self {
            Member::Node(n) => MemberView::Node(*n),
            Member::Quorum(q) => MemberView::Quorum(q.view()),
        }
    }
}

impl<T: Value> View for Quorum<T> {
    type V = QuorumView;

    closed spec fn view(&self) -> QuorumView
        decreases self,
    {
        QuorumView { threshold: self.threshold as nat, members: view_of_members(self.members@) }
    }
}

/// The views of `members`, in the same order.
pub open spec fn view_of_members<T: Value>(members: Seq<Member<T>>) -> Seq<MemberView>
    decreases members,
{
    if members.len() == 0 {
        Seq::empty()
    } else {
        view_of_members(members.drop_last()).push(members.last().view())
    }
}

/// `view_of_members` keeps the length and maps each member to its view.
pub proof fn lemma_view_of_members<T: Value>(members: Seq<Member<T>>)
    ensures
        view_of_members(members).len() == members.len(),
        forall|i: int|
            0 <= i < members.len() ==> #[trigger] view_of_members(members)[i] == members[i]@,
    decreases members.len(),
{
    if members.len() > 0 {
        lemma_view_of_members(members.drop_last());
        assert(view_of_members(members) == view_of_members(members.drop_last()).push(
            members.last().view(),
        ));
    } else {
        assert(view_of_members(members) == Seq::<MemberView>::empty());
    }
}

impl QuorumView {
    /// The number of members that must accept for the set of those members
    /// to block the others: one more than the members beyond the threshold.
    pub open spec fn needed(self) -> nat {
        if self.threshold <= self.members.len() {
            (1 + (self.members.len() - self.threshold)) as nat
        } else {
            0
        }
    }

    /// How deep quorum sets are nested in this one, itself counted.
    pub open spec fn nesting(self) -> nat
        decreases self,
    {
        1 + nesting_of(self.members)
    }

    /// The nodes of the quorum set and of the quorum sets nested in it, in
    /// the order in which they are declared, each as often as it occurs.
    pub open spec fn nodes(self) -> Seq<NodeId>
        decreases self,
    {
        nodes_of(self.members)
    }

    /// A quorum set is well formed when `0 < threshold <= members.len()`
    /// holds of it and of every quorum set nested in it.
    pub open spec fn wf(self) -> bool
        decreases self,
    {
        &&& 0 < self.threshold <= self.members.len()
        &&& forall|i: int|
            0 <= i < self.members.len() ==> (#[trigger] self.members[i] matches MemberView::Quorum(
                q,
            ) ==> q.wf())
    }
}

/// How deep quorum sets are nested in the deepest of `members`; 0 where all
/// of them are nodes.
pub open spec fn nesting_of(members: Seq<MemberView>) -> nat
    decreases members,
{
    if members.len() == 0 {
        0
    } else {
        let before = nesting_of(members.drop_last());
        match members.last() {
            MemberView::Node(_) => before,
            MemberView::Quorum(q) => if before < q.nesting() {
                q.nesting()
            } else {
                before
            },
        }
    }
}

/// No member is nested deeper than `nesting_of` says.
pub proof fn lemma_nesting_of_bounds(members: Seq<MemberView>, i: int)
    requires
        0 <= i < members.len(),
    ensures
        members[i] matches MemberView::Quorum(q) ==> q.nesting() <= nesting_of(members),
        nesting_of(members.take(i)) <= nesting_of(members),
    decreases members.len(),
{
    let before = members.drop_last();
    if i < members.len() - 1 {
        lemma_nesting_of_bounds(before, i);
        assert(before.take(i) =~= members.take(i));
    } else {
        assert(members.take(i) =~= before);
    }
}

/// The nodes among `members` and in the quorum sets nested in them, in the
/// order in which they are declared, each as often as it occurs.
pub open spec fn nodes_of(members: Seq<MemberView>) -> Seq<NodeId>
    decreases members,
{
    if members.len() == 0 {
        Seq::empty()
    } else {
        let before = nodes_of(members.drop_last());
        match members.last() {
            MemberView::Node(n) => before.push(n),
            MemberView::Quorum(q) => before + nodes_of(q.members),
        }
    }
}

/// In a well-formed quorum set, the number of members that block and the
/// threshold make up the number of members and one more: whatever `needed()`
/// members accept, fewer than `threshold` members are left to accept otherwise.
pub proof fn lemma_needed_complements_threshold(quorum: QuorumView)
    requires
        quorum.wf(),
    ensures
        quorum.needed() + quorum.threshold == quorum.members.len() + 1,
        1 <= quorum.needed() <= quorum.members.len(),
        quorum.members.len() - quorum.needed() < quorum.threshold,
{
}

/// The search for a blocking set.
///
/// Walks `members` in their order and looks for `needed` of them that accept.
/// A node accepts when `messages` holds a message from it that the state
/// passes; the node joins `so_far` and the state narrows. A nested quorum set
/// accepts when the search for its own `needed()` members, from the same
/// state and `so_far`, finds a set that is not empty; that set and the state
/// it ended in are taken over. The result is the set found with the state it
/// ended in, or the empty set where fewer than `needed` members accept.
pub open spec fn blocking_search<T: Value, P: Predicate<T>>(
    needed: nat,
    members: Seq<MemberView>,
    messages: Map<NodeId, MessageView<T>>,
    state: P::V,
    so_far: Set<NodeId>,
) -> (Set<NodeId>, P::V)
    decreases members,
{
    if needed == 0 {
        (so_far, state)
    } else if needed > members.len() {
        (Set::empty(), state)
    } else {
        let rest = members.subrange(1, members.len() as int);
        match members[0] {
            MemberView::Node(n) => {
                if messages.contains_key(n) {
                    match P::narrowed(state, messages[n]) {
                        Some(next) => blocking_search::<T, P>(
                            (needed - 1) as nat,
                            rest,
                            messages,
                            next,
                            so_far.insert(n),
                        ),
                        None => blocking_search::<T, P>(needed, rest, messages, state, so_far),
                    }
                } else {
                    blocking_search::<T, P>(needed, rest, messages, state, so_far)
                }
            },
            MemberView::Quorum(q) => {
                let inner = blocking_search::<T, P>(q.needed(), q.members, messages, state, so_far);
                if inner.0 != Set::<NodeId>::empty() {
                    blocking_search::<T, P>((needed - 1) as nat, rest, messages, inner.1, inner.0)
                } else {
                    blocking_search::<T, P>(needed, rest, messages, state, so_far)
                }
            },
        }
    }
}

/// The search for a quorum.
///
/// Walks `members` in their order and looks for `threshold` of them that
/// accept. A node accepts when it is in `so_far` already, or when `messages`
/// holds a message from it that the state passes and the search for a
/// blocking set in the quorum set of that message, from the same state and
/// from `so_far` with the node, finds a set that is not empty; that set and
/// the state it ended in are taken over. A nested quorum set accepts when the
/// search for a quorum in it finds a set that is not empty. The result is the
/// set found with the state it ended in, or the empty set where fewer than
/// `threshold` members accept.
pub open spec fn quorum_search<T: Value, P: Predicate<T>>(
    threshold: nat,
    members: Seq<MemberView>,
    messages: Map<NodeId, MessageView<T>>,
    state: P::V,
    so_far: Set<NodeId>,
) -> (Set<NodeId>, P::V)
    decreases members,
{
    if threshold == 0 {
        (so_far, state)
    } else if threshold > members.len() {
        (Set::empty(), state)
    } else {
        let rest = members.subrange(1, members.len() as int);
        match members[0] {
            MemberView::Node(n) => {
                if so_far.contains(n) {
                    quorum_search::<T, P>((threshold - 1) as nat, rest, messages, state, so_far)
                } else if messages.contains_key(n) && P::narrowed(state, messages[n]) is Some {
                    let slice = messages[n].quorum;
                    let inner = blocking_search::<T, P>(
                        slice.needed(),
                        slice.members,
                        messages,
                        state,
                        so_far.insert(n),
                    );
                    if inner.0 != Set::<NodeId>::empty() {
                        quorum_search::<T, P>(
                            (threshold - 1) as nat,
                            rest,
                            messages,
                            inner.1,
                            inner.0,
                        )
                    } else {
                        quorum_search::<T, P>(threshold, rest, messages, state, so_far)
                    }
                } else {
                    quorum_search::<T, P>(threshold, rest, messages, state, so_far)
                }
            },
            MemberView::Quorum(q) => {
                let inner = quorum_search::<T, P>(q.threshold, q.members, messages, state, so_far);
                if inner.0 != Set::<NodeId>::empty() {
                    quorum_search::<T, P>((threshold - 1) as nat, rest, messages, inner.1, inner.0)
                } else {
                    quorum_search::<T, P>(threshold, rest, messages, state, so_far)
                }
            },
        }
    }
}

/// Whether `found` is a set that a search from `so_far` among `messages`
/// can hand back: it is empty, or it holds all of `so_far`, and besides
/// these only nodes of which a message is kept.
pub open spec fn grown_from<T: Value>(
    found: Set<NodeId>,
    so_far: Set<NodeId>,
    messages: Map<NodeId, MessageView<T>>,
) -> bool {
    found == Set::<NodeId>::empty() || (so_far.subset_of(found) && forall|n: NodeId|
        found.contains(n) ==> so_far.contains(n) || messages.contains_key(n))
}

/// Whether every successful test keeps the property `keeps` of a state.
pub open spec fn kept_by_tests<T: Value, P: Predicate<T>>(keeps: spec_fn(P::V) -> bool) -> bool {
    forall|state: P::V, message: MessageView<T>|
        keeps(state) && (#[trigger] P::narrowed(state, message)) is Some ==> keeps(
            P::narrowed(state, message)->0,
        )
}

/// The search for a blocking set finds nothing, or all of `so_far` and
/// besides these only nodes of which a message is kept.
pub proof fn lemma_blocking_search_grows<T: Value, P: Predicate<T>>(
    needed: nat,
    members: Seq<MemberView>,
    messages: Map<NodeId, MessageView<T>>,
    state: P::V,
    so_far: Set<NodeId>,
)
    ensures
        grown_from(blocking_search::<T, P>(needed, members, messages, state, so_far).0, so_far, messages),
    decreases members,
{
    if needed != 0 && needed <= members.len() {
        let rest = members.subrange(1, members.len() as int);
        match members[0] {
            MemberView::Node(n) => {
                if messages.contains_key(n) && P::narrowed(state, messages[n]) is Some {
                    let next = P::narrowed(state, messages[n])->0;
                    lemma_blocking_search_grows::<T, P>(
                        (needed - 1) as nat,
                        rest,
                        messages,
                        next,
                        so_far.insert(n),
                    );
                } else {
                    lemma_blocking_search_grows::<T, P>(needed, rest, messages, state, so_far);
                }
            },
            MemberView::Quorum(q) => {
                let inner = blocking_search::<T, P>(q.needed(), q.members, messages, state, so_far);
                lemma_blocking_search_grows::<T, P>(q.needed(), q.members, messages, state, so_far);
                if inner.0 != Set::<NodeId>::empty() {
                    lemma_blocking_search_grows::<T, P>(
                        (needed - 1) as nat,
                        rest,
                        messages,
                        inner.1,
                        inner.0,
                    );
                } else {
                    lemma_blocking_search_grows::<T, P>(needed, rest, messages, state, so_far);
                }
            },
        }
    }
}

/// The search for a quorum finds nothing, or all of `so_far` and besides
/// these only nodes of which a message is kept.
pub proof fn lemma_quorum_search_grows<T: Value, P: Predicate<T>>(
    threshold: nat,
    members: Seq<MemberView>,
    messages: Map<NodeId, MessageView<T>>,
    state: P::V,
    so_far: Set<NodeId>,
)
    ensures
        grown_from(quorum_search::<T, P>(threshold, members, messages, state, so_far).0, so_far, messages),
    decreases members,
{
    if threshold != 0 && threshold <= members.len() {
        let rest = members.subrange(1, members.len() as int);
        match members[0] {
            MemberView::Node(n) => {
                if so_far.contains(n) {
                    lemma_quorum_search_grows::<T, P>(
                        (threshold - 1) as nat,
                        rest,
                        messages,
                        state,
                        so_far,
                    );
                } else if messages.contains_key(n) && P::narrowed(state, messages[n]) is Some {
                    let slice = messages[n].quorum;
                    let inner = blocking_search::<T, P>(
                        slice.needed(),
                        slice.members,
                        messages,
                        state,
                        so_far.insert(n),
                    );
                    lemma_blocking_search_grows::<T, P>(
                        slice.needed(),
                        slice.members,
                        messages,
                        state,
                        so_far.insert(n),
                    );
                    if inner.0 != Set::<NodeId>::empty() {
                        lemma_quorum_search_grows::<T, P>(
                            (threshold - 1) as nat,
                            rest,
                            messages,
                            inner.1,
                            inner.0,
                        );
                    } else {
                        lemma_quorum_search_grows::<T, P>(threshold, rest, messages, state, so_far);
                    }
                } else {
                    lemma_quorum_search_grows::<T, P>(threshold, rest, messages, state, so_far);
                }
            },
            MemberView::Quorum(q) => {
                let inner = quorum_search::<T, P>(q.threshold, q.members, messages, state, so_far);
                lemma_quorum_search_grows::<T, P>(q.threshold, q.members, messages, state, so_far);
                if inner.0 != Set::<NodeId>::empty() {
                    lemma_quorum_search_grows::<T, P>(
                        (threshold - 1) as nat,
                        rest,
                        messages,
                        inner.1,
                        inner.0,
                    );
                } else {
                    lemma_quorum_search_grows::<T, P>(threshold, rest, messages, state, so_far);
                }
            },
        }
    }
}

/// The state in which the search for a blocking set ends has every
/// property of the state from which it began that every successful test keeps.
pub proof fn lemma_blocking_search_keeps<T: Value, P: Predicate<T>>(
    needed: nat,
    members: Seq<MemberView>,
    messages: Map<NodeId, MessageView<T>>,
    state: P::V,
    so_far: Set<NodeId>,
    keeps: spec_fn(P::V) -> bool,
)
    requires
        keeps(state),
        kept_by_tests::<T, P>(keeps),
    ensures
        keeps(blocking_search::<T, P>(needed, members, messages, state, so_far).1),
    decreases members,
{
    if needed != 0 && needed <= members.len() {
        let rest = members.subrange(1, members.len() as int);
        match members[0] {
            MemberView::Node(n) => {
                if messages.contains_key(n) && P::narrowed(state, messages[n]) is Some {
                    let next = P::narrowed(state, messages[n])->0;
                    lemma_blocking_search_keeps::<T, P>(
                        (needed - 1) as nat,
                        rest,
                        messages,
                        next,
                        so_far.insert(n),
                        keeps,
                    );
                } else {
                    lemma_blocking_search_keeps::<T, P>(needed, rest, messages, state, so_far, keeps);
                }
            },
            MemberView::Quorum(q) => {
                let inner = blocking_search::<T, P>(q.needed(), q.members, messages, state, so_far);
                lemma_blocking_search_keeps::<T, P>(
                    q.needed(),
                    q.members,
                    messages,
                    state,
                    so_far,
                    keeps,
                );
                if inner.0 != Set::<NodeId>::empty() {
                    lemma_blocking_search_keeps::<T, P>(
                        (needed - 1) as nat,
                        rest,
                        messages,
                        inner.1,
                        inner.0,
                        keeps,
                    );
                } else {
                    lemma_blocking_search_keeps::<T, P>(needed, rest, messages, state, so_far, keeps);
                }
            },
        }
    }
}

/// The state in which the search for a quorum ends has every property of
/// the state from which it began that every successful test keeps.
pub proof fn lemma_quorum_search_keeps<T: Value, P: Predicate<T>>(
    threshold: nat,
    members: Seq<MemberView>,
    messages: Map<NodeId, MessageView<T>>,
    state: P::V,
    so_far: Set<NodeId>,
    keeps: spec_fn(P::V) -> bool,
)
    requires
        keeps(state),
        kept_by_tests::<T, P>(keeps),
    ensures
        keeps(quorum_search::<T, P>(threshold, members, messages, state, so_far).1),
    decreases members,
{
    if threshold != 0 && threshold <= members.len() {
        let rest = members.subrange(1, members.len() as int);
        match members[0] {
            MemberView::Node(n) => {
                if so_far.contains(n) {
                    lemma_quorum_search_keeps::<T, P>(
                        (threshold - 1) as nat,
                        rest,
                        messages,
                        state,
                        so_far,
                        keeps,
                    );
                } else if messages.contains_key(n) && P::narrowed(state, messages[n]) is Some {
                    let slice = messages[n].quorum;
                    let inner = blocking_search::<T, P>(
                        slice.needed(),
                        slice.members,
                        messages,
                        state,
                        so_far.insert(n),
                    );
                    lemma_blocking_search_keeps::<T, P>(
                        slice.needed(),
                        slice.members,
                        messages,
                        state,
                        so_far.insert(n),
                        keeps,
                    );
                    if inner.0 != Set::<NodeId>::empty() {
                        lemma_quorum_search_keeps::<T, P>(
                            (threshold - 1) as nat,
                            rest,
                            messages,
                            inner.1,
                            inner.0,
                            keeps,
                        );
                    } else {
                        lemma_quorum_search_keeps::<T, P>(
                            threshold,
                            rest,
                            messages,
                            state,
                            so_far,
                            keeps,
                        );
                    }
                } else {
                    lemma_quorum_search_keeps::<T, P>(threshold, rest, messages, state, so_far, keeps);
                }
            },
            MemberView::Quorum(q) => {
                let inner = quorum_search::<T, P>(q.threshold, q.members, messages, state, so_far);
                lemma_quorum_search_keeps::<T, P>(
                    q.threshold,
                    q.members,
                    messages,
                    state,
                    so_far,
                    keeps,
                );
                if inner.0 != Set::<NodeId>::empty() {
                    lemma_quorum_search_keeps::<T, P>(
                        (threshold - 1) as nat,
                        rest,
                        messages,
                        inner.1,
                        inner.0,
                        keeps,
                    );
                } else {
                    lemma_quorum_search_keeps::<T, P>(threshold, rest, messages, state, so_far, keeps);
                }
            },
        }
    }
}

impl<T: Value> Quorum<T> {
    #[verifier::type_invariant]
    spec fn bounded(self) -> bool {
        0 < self.threshold <= self.members.len()
    }

    /// The quorum set of `members` of which `threshold` must agree, where
    /// `0 < threshold <= members.len()` and the quorum set is nested no
    /// deeper than `MAX_NESTING`; `None` otherwise.
    pub fn new(threshold: usize, members: Vec<Member<T>>) -> (r: Option<Quorum<T>>)
        ensures
            r is Some <==> 0 < threshold <= members.len() && 1 + nesting_of(
                view_of_members(members@),
            ) <= MAX_NESTING,
            r matches Some(q) ==> q@ == (QuorumView {
                threshold: threshold as nat,
                members: view_of_members(members@),
            }),
    {
        if 0 < threshold && threshold <= members.len() && !Quorum::any_nested_beyond(
            members.as_slice(),
            MAX_NESTING - 1,
        ) {
            Some(Quorum { threshold, members, _phantom_value: PhantomData })
        } else {
            None
        }
    }

    /// Whether quorum sets are nested deeper than `limit` in this one,
    /// itself counted. Looks no deeper than `limit`.
    pub fn nested_beyond(&self, limit: usize) -> (b: bool)
        ensures
            b == (self@.nesting() > limit),
        decreases self,
    {
        if limit == 0 {
            true
        } else {
            Quorum::any_nested_beyond(self.members.as_slice(), limit - 1)
        }
    }

    /// Whether quorum sets are nested deeper than `limit` in one of `members`.
    fn any_nested_beyond(members: &[Member<T>], limit: usize) -> (b: bool)
        ensures
            b == (nesting_of(view_of_members(members@)) > limit),
        decreases members@,
    {
        let ghost all = view_of_members(members@);
        proof {
            lemma_view_of_members(members@);
            assert(nesting_of(all.take(0)) == 0);
        }
        let mut i: usize = 0;
        while i < members.len()
            invariant
                i <= members.len(),
                all == view_of_members(members@),
                all.len() == members@.len(),
                forall|j: int| 0 <= j < members@.len() ==> #[trigger] all[j] == members@[j]@,
                nesting_of(all.take(i as int)) <= limit,
            decreases members.len() - i,
        {
            proof {
                assert(all.take(i + 1).drop_last() =~= all.take(i as int));
                assert(all.take(i + 1).last() == all[i as int]);
                lemma_nesting_of_bounds(all, i as int);
            }
            match &members[i] {
                Member::Node(_) => {},
                Member::Quorum(q) => {
                    if q.nested_beyond(limit) {
                        return true;
                    }
                },
            }
            i += 1;
        }
        assert(all.take(i as int) =~= all);
        false
    }

    /// The number of members that must agree.
    pub fn threshold(&self) -> (n: usize)
        ensures
            n == self@.threshold,
            0 < n <= self@.members.len(),
    {
        proof {
            use_type_invariant(self);
            lemma_view_of_members(self.members@);
        }
        self.threshold
    }

    /// The members, in their declared order.
    pub fn members(&self) -> (r: &[Member<T>])
        ensures
            view_of_members(r@) == self@.members,
            r@.len() == self@.members.len(),
    {
        proof {
            lemma_view_of_members(self.members@);
        }
        self.members.as_slice()
    }

    /// An independent copy of the quorum set.
    pub fn duplicate(&self) -> (r: Self)
        ensures
            r@ == self@,
        decreases self,
    {
        proof {
            use_type_invariant(self);
        }
        let mut members: Vec<Member<T>> = Vec::new();
        let mut i: usize = 0;
        while i < self.members.len()
            invariant
                i <= self.members.len(),
                members@.len() == i,
                forall|j: int| 0 <= j < i ==> members@[j]@ == self.members@[j]@,
            decreases self.members.len() - i,
        {
            let member = match &self.members[i] {
                Member::Node(n) => Member::Node(*n),
                Member::Quorum(q) => Member::Quorum(q.duplicate()),
            };
            members.push(member);
            i += 1;
        }
        proof {
            lemma_view_of_members(members@);
            lemma_view_of_members(self.members@);
            assert(view_of_members(members@) =~= view_of_members(self.members@));
        }
        Quorum { threshold: self.threshold, members, _phantom_value: PhantomData }
    }

    /// The nodes of the quorum set and of the quorum sets nested in it, in
    /// the order in which they are declared, each as often as it occurs.
    pub fn nodes(&self) -> (r: Vec<NodeId>)
        ensures
            r@ == self@.nodes(),
    {
        let mut nodes: Vec<NodeId> = Vec::new();
        proof {
            lemma_view_of_members(self.members@);
        }
        Quorum::collect_nodes(self.members.as_slice(), &mut nodes);
        nodes
    }

    /// Appends to `nodes` the nodes among `members` and in the quorum sets
    /// nested in them.
    fn collect_nodes(members: &[Member<T>], nodes: &mut Vec<NodeId>)
        ensures
            final(nodes)@ == old(nodes)@ + nodes_of(view_of_members(members@)),
        decreases members@,
    {
        let ghost all = view_of_members(members@);
        proof {
            lemma_view_of_members(members@);
            assert(nodes_of(all.take(0)) == Seq::<NodeId>::empty());
        }
        let mut i: usize = 0;
        while i < members.len()
            invariant
                i <= members.len(),
                all == view_of_members(members@),
                all.len() == members@.len(),
                forall|j: int| 0 <= j < members@.len() ==> #[trigger] all[j] == members@[j]@,
                nodes@ == old(nodes)@ + nodes_of(all.take(i as int)),
            decreases members.len() - i,
        {
            let ghost before = nodes@;
            proof {
                assert(all.take(i + 1).drop_last() =~= all.take(i as int));
                assert(all.take(i + 1).last() == all[i as int]);
            }
            match &members[i] {
                Member::Node(n) => {
                    nodes.push(*n);
                    assert(nodes@ =~= old(nodes)@ + nodes_of(all.take(i + 1)));
                },
                Member::Quorum(q) => {
                    proof {
                        lemma_view_of_members(q.members@);
                    }
                    Quorum::collect_nodes(q.members.as_slice(), nodes);
                    assert(nodes@ =~= old(nodes)@ + nodes_of(all.take(i + 1)));
                },
            }
            i += 1;
        }
        assert(all.take(i as int) =~= all);
    }

    /// The number of members that must accept for the set of those members
    /// to block the others.
    pub fn needed(&self) -> (n: usize)
        ensures
            n == self@.needed(),
            n == 1 + (self@.members.len() - self@.threshold),
    {
        proof {
            use_type_invariant(self);
            lemma_view_of_members(self.members@);
        }
        1 + (self.members.len() - self.threshold)
    }

    /// Searches the quorum set for a blocking set: `needed()` members that
    /// accept `predicate`. Returns the nodes found, or the empty set, and the
    /// predicate as the search narrowed it.
    pub fn find_blocking<P: Predicate<T>>(&self, messages: &MessageCache<T>, predicate: P) -> (r: (
        NodeSet,
        P,
    ))
        ensures
            (r.0@, r.1@) == blocking_search::<T, P>(
                self@.needed(),
                self@.members,
                messages@,
                predicate@,
                Set::empty(),
            ),
    {
        Quorum::find_blocking_inner(
            self.needed(),
            self.members.as_slice(),
            messages,
            predicate,
            NodeSet::new(),
        )
    }

    /// The search for a blocking set among `members`, from `so_far`.
    ///
    /// The members are walked in a loop; only a nested quorum set is
    /// searched by a call of its own.
    pub fn find_blocking_inner<P: Predicate<T>>(
        needed: usize,
        members: &[Member<T>],
        messages: &MessageCache<T>,
        predicate: P,
        so_far: NodeSet,
    ) -> (r: (NodeSet, P))
        ensures
            (r.0@, r.1@) == blocking_search::<T, P>(
                needed as nat,
                view_of_members(members@),
                messages@,
                predicate@,
                so_far@,
            ),
        decreases members@,
    {
        let ghost all = view_of_members(members@);
        let mut wanted = needed;
        let mut current = predicate;
        let mut found = so_far;
        let mut i: usize = 0;
        proof {
            lemma_view_of_members(members@);
            assert(all.subrange(0, all.len() as int) =~= all);
        }
        loop
            invariant
                i <= members.len(),
                all == view_of_members(members@),
                all.len() == members@.len(),
                forall|j: int| 0 <= j < members@.len() ==> #[trigger] all[j] == members@[j]@,
                blocking_search::<T, P>(needed as nat, all, messages@, predicate@, so_far@)
                    == blocking_search::<T, P>(
                    wanted as nat,
                    all.subrange(i as int, all.len() as int),
                    messages@,
                    current@,
                    found@,
                ),
            decreases members.len() - i,
        {
            let ghost left = all.subrange(i as int, all.len() as int);
            if wanted == 0 {
                return (found, current);
            }
            if wanted > members.len() - i {
                return (NodeSet::new(), current);
            }
            proof {
                assert(left[0] == all[i as int]);
                assert(left.subrange(1, left.len() as int) =~= all.subrange(
                    i + 1,
                    all.len() as int,
                ));
            }
            match &members[i] {
                Member::Node(n) => {
                    if let Some(message) = messages.get(n) {
                        if let Some(new_predicate) = current.dupe().test(message) {
                            wanted -= 1;
                            current = new_predicate;
                            found.insert(*n);
                        }
                    }
                },
                Member::Quorum(q) => {
                    proof {
                        lemma_view_of_members(q.members@);
                    }
                    let (new_so_far, new_predicate) = Quorum::find_blocking_inner(
                        q.needed(),
                        q.members.as_slice(),
                        messages,
                        current.dupe(),
                        found.duplicate(),
                    );
                    // the copies are dropped where the nested set does not accept
                    if !new_so_far.is_empty() {
                        wanted -= 1;
                        current = new_predicate;
                        found = new_so_far;
                    }
                },
            }
            i += 1;
        }
    }

    /// Searches the quorum set of the node `node_id` for a quorum: `threshold`
    /// members that accept `predicate`, the node itself counted as accepting.
    /// Returns the nodes found, or the empty set, and the predicate as the
    /// search narrowed it.
    pub fn find_quorum<P: Predicate<T>>(
        &self,
        node_id: NodeId,
        messages: &MessageCache<T>,
        predicate: P,
    ) -> (r: (NodeSet, P))
        ensures
            (r.0@, r.1@) == quorum_search::<T, P>(
                self@.threshold,
                self@.members,
                messages@,
                predicate@,
                Set::empty().insert(node_id),
            ),
    {
        let mut so_far = NodeSet::new();
        so_far.insert(node_id);
        proof {
            lemma_view_of_members(self.members@);
        }
        Quorum::find_quorum_inner(
            self.threshold,
            self.members.as_slice(),
            messages,
            predicate,
            so_far,
        )
    }

    /// The search for a quorum among `members`, from `so_far`.
    ///
    /// The members are walked in a loop; only a nested quorum set, and the
    /// quorum set of a sender, are searched by a call of their own.
    pub fn find_quorum_inner<P: Predicate<T>>(
        threshold: usize,
        members: &[Member<T>],
        messages: &MessageCache<T>,
        predicate: P,
        so_far: NodeSet,
    ) -> (r: (NodeSet, P))
        ensures
            (r.0@, r.1@) == quorum_search::<T, P>(
                threshold as nat,
                view_of_members(members@),
                messages@,
                predicate@,
                so_far@,
            ),
        decreases members@,
    {
        let ghost all = view_of_members(members@);
        let mut wanted = threshold;
        let mut current = predicate;
        let mut found = so_far;
        let mut i: usize = 0;
        proof {
            lemma_view_of_members(members@);
            assert(all.subrange(0, all.len() as int) =~= all);
        }
        loop
            invariant
                i <= members.len(),
                all == view_of_members(members@),
                all.len() == members@.len(),
                forall|j: int| 0 <= j < members@.len() ==> #[trigger] all[j] == members@[j]@,
                quorum_search::<T, P>(threshold as nat, all, messages@, predicate@, so_far@)
                    == quorum_search::<T, P>(
                    wanted as nat,
                    all.subrange(i as int, all.len() as int),
                    messages@,
                    current@,
                    found@,
                ),
            decreases members.len() - i,
        {
            let ghost left = all.subrange(i as int, all.len() as int);
            if wanted == 0 {
                return (found, current);
            }
            if wanted > members.len() - i {
                return (NodeSet::new(), current);
            }
            proof {
                assert(left[0] == all[i as int]);
                assert(left.subrange(1, left.len() as int) =~= all.subrange(
                    i + 1,
                    all.len() as int,
                ));
            }
            match &members[i] {
                Member::Node(n) => {
                    if found.contains(n) {
                        wanted -= 1;
                    } else if let Some(message) = messages.get(n) {
                        if let Some(_) = current.dupe().test(message) {
                            let mut new_so_far = found.duplicate();
                            new_so_far.insert(message.sender);
                            proof {
                                lemma_view_of_members(message.quorum.members@);
                            }
                            let (new_so_far, new_predicate) = Quorum::find_blocking_inner(
                                message.quorum.needed(),
                                message.quorum.members.as_slice(),
                                messages,
                                current.dupe(),
                                new_so_far,
                            );
                            if !new_so_far.is_empty() {
                                wanted -= 1;
                                current = new_predicate;
                                found = new_so_far;
                            }
                        }
                    }
                },
                Member::Quorum(q) => {
                    proof {
                        use_type_invariant(q);
                        lemma_view_of_members(q.members@);
                    }
                    let (new_so_far, new_predicate) = Quorum::find_quorum_inner(
                        q.threshold,
                        q.members.as_slice(),
                        messages,
                        current.dupe(),
                        found.duplicate(),
                    );
                    // the copies are dropped where the nested set does not accept
                    if !new_so_far.is_empty() {
                        wanted -= 1;
                        current = new_predicate;
                        found = new_so_far;
                    }
                },
            }
            i += 1;
        }
    }
}

} // verus!
