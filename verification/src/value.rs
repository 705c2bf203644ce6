//! Values: what the network agrees on, and how candidates merge.

use vstd::prelude::*;
use crate::slot::SlotId;
use crate::value_set::{lemma_skip_to_set, ValueSet};

verus! {

/// The outcome of comparing two items of a totally ordered type.
#[derive(Debug, Clone, Copy, PartialEq, Eq, Structural)]
pub enum Order {
    Less,
    Equal,
    Greater,
}

/// The outcome of comparing `a` with `b`, given whether `a` comes strictly
/// before `b` and whether the two are the same.
pub open spec fn order_of(before: bool, same: bool) -> Order {
    if same {
        Order::Equal
    } else if before {
        Order::Less
    } else {
        Order::Greater
    }
}

impl Order {
    /// This outcome, or `next` where this one is `Equal`: the outcome of a
    /// comparison by one key and then by another.
    pub open spec fn and_next(self, next: Order) -> Order {
        if self == Order::Equal {
            next
        } else {
            self
        }
    }

    /// The outcome of the same comparison with the two sides exchanged.
    pub open spec fn reversed(self) -> Order {
        match self {
            Order::Less => Order::Greater,
            Order::Equal => Order::Equal,
            Order::Greater => Order::Less,
        }
    }

    /// Whether the left side is at most the right side.
    pub open spec fn at_most(self) -> bool {
        self != Order::Greater
    }
}

/// The outcome of comparing two numbers.
pub open spec fn number_order(a: int, b: int) -> Order {
    order_of(a < b, a == b)
}

/// Compares two numbers.
pub fn compare_numbers(a: usize, b: usize) -> (o: Order)
    ensures
        o == number_order(a as int, b as int),
{
    if a < b {
        Order::Less
    } else if a == b {
        Order::Equal
    } else {
        Order::Greater
    }
}

/// The data on which the network agrees.
///
/// A value type is totally ordered by `precedes`, two values are the same
/// exactly when they are equal in specifications, and `merged` folds two
/// candidates into one, in a way that depends neither on their order nor on
/// how a longer merge is bracketed. The three laws are proved by every
/// verified implementation; they have nothing to do when the program runs.
pub trait Value: Sized {
    /// The strict total order on values.
    spec fn precedes(self, other: Self) -> bool;

    /// What `combine` returns.
    spec fn merged(self, that: Self, slot_id: SlotId) -> Self;

    /// `precedes` is irreflexive, transitive and total.
    proof fn precedes_is_strict_total(a: Self, b: Self, c: Self)
        ensures
            !a.precedes(a),
            a.precedes(b) && b.precedes(c) ==> a.precedes(c),
            a.precedes(b) || a == b || b.precedes(a),
    ;

    /// Merging does not depend on the order of the two values.
    proof fn merged_is_commutative(a: Self, b: Self, slot_id: SlotId)
        ensures
            a.merged(b, slot_id) == b.merged(a, slot_id),
    ;

    /// Merging three values does not depend on the bracketing.
    proof fn merged_is_associative(a: Self, b: Self, c: Self, slot_id: SlotId)
        ensures
            a.merged(b, slot_id).merged(c, slot_id) == a.merged(b.merged(c, slot_id), slot_id),
    ;

    /// Compares two values.
    fn compare(&self, other: &Self) -> (o: Order)
        ensures
            o == order_of(self.precedes(*other), *self == *other),
    ;

    /// An independent copy of the value.
    fn duplicate(&self) -> (r: Self)
        ensures
            r == *self,
    ;

    /// Merges two candidate values of one slot into one.
    fn combine(this: Self, that: Self, slot_id: SlotId) -> (r: Self)
        ensures
            r == this.merged(that, slot_id),
    ;
}

impl Value for u64 {
    open spec fn precedes(self, other: Self) -> bool {
        self < other
    }

    open spec fn merged(self, that: Self, slot_id: SlotId) -> Self {
        if self < that {
            that
        } else {
            self
        }
    }

    proof fn precedes_is_strict_total(a: Self, b: Self, c: Self) {
    }

    proof fn merged_is_commutative(a: Self, b: Self, slot_id: SlotId) {
    }

    proof fn merged_is_associative(a: Self, b: Self, c: Self, slot_id: SlotId) {
    }

    fn compare(&self, other: &Self) -> (o: Order) {
        if *self < *other {
            Order::Less
        } else if *self == *other {
            Order::Equal
        } else {
            Order::Greater
        }
    }

    fn duplicate(&self) -> (r: Self) {
        *self
    }

    fn combine(this: Self, that: Self, slot_id: SlotId) -> (r: Self) {
        if this < that {
            that
        } else {
            this
        }
    }
}

/// One step of merging the values of a set: the first value as it is, each
/// further value merged into what the values before it gave.
pub open spec fn merge_step<T: Value>(slot_id: SlotId) -> spec_fn(Option<T>, T) -> Option<T> {
    |so_far: Option<T>, value: T|
        match so_far {
            Some(merged) => Some(merged.merged(value, slot_id)),
            None => Some(value),
        }
}

/// The one value into which the values of a set merge, whatever the order
/// in which they are taken; `None` for the empty set.
pub open spec fn combined<T: Value>(values: Set<T>, slot_id: SlotId) -> Option<T> {
    values.fold(None, merge_step(slot_id))
}

/// The order in which two values are merged into a third does not matter.
pub proof fn lemma_merge_step_commutes<T: Value>(slot_id: SlotId)
    ensures
        vstd::set::fold::is_fun_commutative(merge_step::<T>(slot_id)),
{
    let f = merge_step::<T>(slot_id);
    assert forall|a1: T, a2: T, b: Option<T>| #[trigger] f(f(b, a2), a1) == f(f(b, a1), a2) by {
        match b {
            Some(x) => {
                T::merged_is_associative(x, a2, a1, slot_id);
                T::merged_is_associative(x, a1, a2, slot_id);
                T::merged_is_commutative(a1, a2, slot_id);
            },
            None => {
                T::merged_is_commutative(a1, a2, slot_id);
            },
        }
    }
}

/// Merging the values of a set with one more value gives what merging the
/// set gives, merged with that value.
pub proof fn lemma_combined_insert<T: Value>(values: Set<T>, value: T, slot_id: SlotId)
    requires
        values.finite(),
        !values.contains(value),
    ensures
        combined(values.insert(value), slot_id) == merge_step::<T>(slot_id)(
            combined(values, slot_id),
            value,
        ),
        combined(values.insert(value), slot_id) is Some,
        combined(Set::<T>::empty(), slot_id) is None,
{
    lemma_merge_step_commutes::<T>(slot_id);
    vstd::set::fold::lemma_fold_insert(values, None, merge_step::<T>(slot_id), value);
    vstd::set::fold::lemma_fold_empty(None::<T>, merge_step::<T>(slot_id));
}

/// A set of one value merges into that value, and a set of two values into
/// the two merged, in either order.
pub proof fn lemma_combined_of_few<T: Value>(a: T, b: T, slot_id: SlotId)
    ensures
        combined(Set::<T>::empty().insert(a), slot_id) == Some(a),
        a != b ==> combined(Set::<T>::empty().insert(a).insert(b), slot_id) == Some(
            a.merged(b, slot_id),
        ),
        a != b ==> combined(Set::<T>::empty().insert(a).insert(b), slot_id) == Some(
            b.merged(a, slot_id),
        ),
{
    lemma_combined_insert(Set::<T>::empty(), a, slot_id);
    if a != b {
        lemma_combined_insert(Set::<T>::empty().insert(a), b, slot_id);
        T::merged_is_commutative(a, b, slot_id);
    }
}

/// Merges the values of a set into one; `None` for the empty set.
pub fn combine<T: Value>(value_set: ValueSet<T>, slot_id: &SlotId) -> (r: Option<T>)
    ensures
        r == combined(value_set@, *slot_id),
        r is None <==> value_set@ == Set::<T>::empty(),
{
    let ghost all = value_set.elements();
    proof {
        value_set.view_is_finite();
    }
    let mut items = value_set.into_vec();
    let mut acc: Option<T> = None;
    proof {
        assert(all.skip(all.len() as int) =~= Seq::<T>::empty());
        assert(Seq::<T>::empty().to_set() =~= Set::<T>::empty());
        vstd::set::fold::lemma_fold_empty(None::<T>, merge_step::<T>(*slot_id));
    }
    while items.len() > 0
        invariant
            all.no_duplicates(),
            items@ == all.take(items@.len() as int),
            items@.len() <= all.len(),
            acc == combined(all.skip(items@.len() as int).to_set(), *slot_id),
            acc is None <==> items@.len() == all.len(),
        decreases items@.len(),
    {
        let ghost n = items@.len() as int;
        let value = items.pop().unwrap();
        proof {
            assert(value == all[n - 1]);
            lemma_skip_to_set(all, n);
            lemma_combined_insert(all.skip(n).to_set(), value, *slot_id);
            assert(items@ =~= all.take(n - 1));
        }
        acc = match acc {
            Some(so_far) => Some(T::combine(so_far, value, *slot_id)),
            None => Some(value),
        };
    }
    proof {
        assert(all.skip(0) =~= all);
        if all.len() == 0 {
            assert(all.to_set() =~= Set::<T>::empty());
        } else {
            assert(all.to_set().contains(all[0]));
        }
    }
    acc
}

} // verus!
