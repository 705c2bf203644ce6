//! Sets of values.

use vstd::prelude::*;
use crate::value::{Order, Value};

verus! {

/// A finite set of values.
///
/// The values are kept in the order in which they were first inserted, and
/// none occurs twice.
#[derive(Debug)]
pub struct ValueSet<T: Value> {
    items: Vec<T>,
}

impl<T: Value> View for ValueSet<T> {
    type V = Set<T>;

    closed spec fn view(&self) -> Set<T> {
        self.items@.to_set()
    }
}

impl<T: Value> ValueSet<T> {
    #[verifier::type_invariant]
    spec fn distinct(self) -> bool {
        self.items@.no_duplicates()
    }

    /// The values of the set in the order in which they were inserted.
    pub closed spec fn elements(self) -> Seq<T> {
        self.items@
    }

    /// The view of a set holds exactly the values of `elements`, and is finite.
    pub proof fn view_is_finite(self)
        ensures
            self@.finite(),
            self@ == self.elements().to_set(),
    {
        vstd::seq_lib::seq_to_set_is_finite(self.items@);
    }

    /// The empty set.
    pub fn new() -> (r: Self)
        ensures
            r@ == Set::<T>::empty(),
            r.elements() == Seq::<T>::empty(),
    {
        let r = ValueSet { items: Vec::new() };
        assert(r.items@.to_set() =~= Set::<T>::empty());
        r
    }

    /// The set of the values of `values`.
    pub fn from_vec(values: Vec<T>) -> (r: Self)
        ensures
            r@ == values@.to_set(),
    {
        let mut values = values;
        let ghost all = values@;
        let mut r = ValueSet::new();
        proof {
            assert(all.skip(all.len() as int).to_set() =~= Set::<T>::empty());
        }
        while values.len() > 0
            invariant
                values@ == all.take(values@.len() as int),
                values@.len() <= all.len(),
                r@ == all.skip(values@.len() as int).to_set(),
            decreases values@.len(),
        {
            let ghost n = values@.len() as int;
            let value = values.pop().unwrap();
            proof {
                lemma_skip_to_set(all, n);
                assert(values@ =~= all.take(n - 1));
            }
            r.insert(value);
        }
        proof {
            assert(all.skip(0) =~= all);
        }
        r
    }

    /// The number of values in the set.
    pub fn len(&self) -> (n: usize)
        ensures
            n == self@.len(),
            n == self.elements().len(),
            self@.finite(),
    {
        proof {
            use_type_invariant(self);
            self.items@.unique_seq_to_set();
            vstd::seq_lib::seq_to_set_is_finite(self.items@);
        }
        self.items.len()
    }

    /// Whether the set holds no value.
    pub fn is_empty(&self) -> (b: bool)
        ensures
            b == (self@ == Set::<T>::empty()),
            b == (self@.len() == 0),
            self@.finite(),
    {
        proof {
            use_type_invariant(self);
            self.items@.unique_seq_to_set();
            vstd::seq_lib::seq_to_set_is_finite(self.items@);
            if self.items@.len() == 0 {
                assert(self.items@.to_set() =~= Set::<T>::empty());
            } else {
                assert(self.items@.to_set().contains(self.items@[0]));
            }
        }
        self.items.len() == 0
    }

    /// The value at position `i` of `elements`.
    pub fn get(&self, i: usize) -> (r: &T)
        requires
            i < self.elements().len(),
        ensures
            *r == self.elements()[i as int],
            self@.contains(*r),
    {
        assert(self.items@.contains(self.items@[i as int]));
        &self.items[i]
    }

    /// Whether `value` is in the set.
    pub fn contains(&self, value: &T) -> (b: bool)
        ensures
            b == self@.contains(*value),
    {
        let mut i: usize = 0;
        while i < self.items.len()
            invariant
                i <= self.items.len(),
                forall|j: int| 0 <= j < i ==> self.items@[j] != *value,
            decreases self.items.len() - i,
        {
            match self.items[i].compare(value) {
                Order::Equal => {
                    assert(self.items@.contains(self.items@[i as int]));
                    return true;
                },
                _ => {},
            }
            i += 1;
        }
        false
    }

    /// Adds `value` to the set; tells whether it was new.
    pub fn insert(&mut self, value: T) -> (fresh: bool)
        ensures
            final(self)@ == old(self)@.insert(value),
            fresh == !old(self)@.contains(value),
            final(self).elements() == if fresh {
                old(self).elements().push(value)
            } else {
                old(self).elements()
            },
    {
        proof {
            use_type_invariant(&*self);
        }
        if self.contains(&value) {
            assert(self.items@.to_set().insert(value) =~= self.items@.to_set());
            false
        } else {
            proof {
                self.items@.lemma_push_to_set_commute(value);
                assert(self.items@.push(value).no_duplicates());
            }
            let mut items: Vec<T> = Vec::new();
            std::mem::swap(&mut items, &mut self.items);
            items.push(value);
            self.items = items;
            true
        }
    }

    /// The values of the set, in the order in which they were inserted.
    pub fn into_vec(self) -> (r: Vec<T>)
        ensures
            r@ == self.elements(),
            r@.no_duplicates(),
            r@.to_set() == self@,
    {
        proof {
            use_type_invariant(&self);
        }
        self.items
    }

    /// An independent copy of the set.
    pub fn duplicate(&self) -> (r: Self)
        ensures
            r@ == self@,
            r.elements() == self.elements(),
    {
        proof {
            use_type_invariant(self);
        }
        let mut items: Vec<T> = Vec::new();
        let mut i: usize = 0;
        while i < self.items.len()
            invariant
                i <= self.items.len(),
                items@ == self.items@.take(i as int),
            decreases self.items.len() - i,
        {
            items.push(self.items[i].duplicate());
            assert(self.items@.take(i + 1) =~= self.items@.take(i as int).push(self.items@[i as int]));
            i += 1;
        }
        assert(self.items@.take(i as int) =~= self.items@);
        ValueSet { items }
    }

    /// The values of the set that `other` holds too.
    pub fn intersection(&self, other: &Self) -> (r: Self)
        ensures
            r@ == self@.intersect(other@),
    {
        proof {
            use_type_invariant(self);
        }
        let mut items: Vec<T> = Vec::new();
        let mut i: usize = 0;
        while i < self.items.len()
            invariant
                i <= self.items.len(),
                self.items@.no_duplicates(),
                items@.no_duplicates(),
                forall|v: T|
                    items@.contains(v) <==> self.items@.take(i as int).contains(v) && other@.contains(v),
            decreases self.items.len() - i,
        {
            let ghost before = items@;
            let ghost seen = self.items@.take(i as int);
            let ghost item = self.items@[i as int];
            assert(self.items@.take(i + 1) =~= seen.push(item));
            assert(!seen.contains(item));
            if other.contains(&self.items[i]) {
                items.push(self.items[i].duplicate());
                assert(items@ == before.push(item));
                assert forall|v: T|
                    items@.contains(v) <==> seen.push(item).contains(v) && other@.contains(v) by {
                    lemma_contains_push(before, item, v);
                    lemma_contains_push(seen, item, v);
                }
            } else {
                assert forall|v: T|
                    items@.contains(v) <==> seen.push(item).contains(v) && other@.contains(v) by {
                    lemma_contains_push(seen, item, v);
                }
            }
            i += 1;
        }
        assert(self.items@.take(i as int) =~= self.items@);
        assert(items@.to_set() =~= self@.intersect(other@));
        ValueSet { items }
    }

    /// The values of the set that `other` does not hold.
    pub fn difference(&self, other: &Self) -> (r: Self)
        ensures
            r@ == self@.difference(other@),
    {
        proof {
            use_type_invariant(self);
        }
        let mut items: Vec<T> = Vec::new();
        let mut i: usize = 0;
        while i < self.items.len()
            invariant
                i <= self.items.len(),
                self.items@.no_duplicates(),
                items@.no_duplicates(),
                forall|v: T|
                    items@.contains(v) <==> self.items@.take(i as int).contains(v) && !other@.contains(v),
            decreases self.items.len() - i,
        {
            let ghost before = items@;
            let ghost seen = self.items@.take(i as int);
            let ghost item = self.items@[i as int];
            assert(self.items@.take(i + 1) =~= seen.push(item));
            assert(!seen.contains(item));
            if !other.contains(&self.items[i]) {
                items.push(self.items[i].duplicate());
                assert(items@ == before.push(item));
                assert forall|v: T|
                    items@.contains(v) <==> seen.push(item).contains(v) && !other@.contains(v) by {
                    lemma_contains_push(before, item, v);
                    lemma_contains_push(seen, item, v);
                }
            } else {
                assert forall|v: T|
                    items@.contains(v) <==> seen.push(item).contains(v) && !other@.contains(v) by {
                    lemma_contains_push(seen, item, v);
                }
            }
            i += 1;
        }
        assert(self.items@.take(i as int) =~= self.items@);
        assert(items@.to_set() =~= self@.difference(other@));
        ValueSet { items }
    }

    /// The values of the set together with those of `other`.
    pub fn union(&self, other: &Self) -> (r: Self)
        ensures
            r@ == self@.union(other@),
    {
        let mut r = self.duplicate();
        let mut i: usize = 0;
        while i < other.items.len()
            invariant
                i <= other.items.len(),
                r@ == self@.union(other.items@.take(i as int).to_set()),
            decreases other.items.len() - i,
        {
            let ghost seen = other.items@.take(i as int);
            let ghost item = other.items@[i as int];
            assert(other.items@.take(i + 1) =~= seen.push(item));
            proof {
                seen.lemma_push_to_set_commute(item);
            }
            r.insert(other.items[i].duplicate());
            assert(r@ =~= self@.union(seen.push(item).to_set()));
            i += 1;
        }
        assert(other.items@.take(i as int) =~= other.items@);
        r
    }

    /// Whether every value of the set is in `other`.
    pub fn is_subset_of(&self, other: &Self) -> (b: bool)
        ensures
            b == self@.subset_of(other@),
    {
        let mut i: usize = 0;
        while i < self.items.len()
            invariant
                i <= self.items.len(),
                forall|j: int| 0 <= j < i ==> other@.contains(self.items@[j]),
            decreases self.items.len() - i,
        {
            if !other.contains(&self.items[i]) {
                assert(self.items@.contains(self.items@[i as int]));
                return false;
            }
            i += 1;
        }
        true
    }

    /// Whether the two sets hold the same values.
    pub fn same(&self, other: &Self) -> (b: bool)
        ensures
            b == (self@ == other@),
    {
        let b = self.is_subset_of(other) && other.is_subset_of(self);
        assert(b == (self@ =~= other@));
        b
    }

    /// Whether some value is in both sets.
    pub fn intersects(&self, other: &Self) -> (b: bool)
        ensures
            b == !self@.disjoint(other@),
    {
        let mut i: usize = 0;
        while i < self.items.len()
            invariant
                i <= self.items.len(),
                forall|j: int| 0 <= j < i ==> !other@.contains(self.items@[j]),
            decreases self.items.len() - i,
        {
            if other.contains(&self.items[i]) {
                assert(self.items@.contains(self.items@[i as int]));
                return true;
            }
            i += 1;
        }
        false
    }
}

/// The items of `all` from the place `n - 1` on are the item at that place
/// and the items from the place `n` on.
pub proof fn lemma_skip_to_set<A>(all: Seq<A>, n: int)
    requires
        0 < n <= all.len(),
    ensures
        all.skip(n - 1).to_set() == all.skip(n).to_set().insert(all[n - 1]),
        all.skip(n).to_set().finite(),
        all.no_duplicates() ==> !all.skip(n).to_set().contains(all[n - 1]),
{
    let done = all.skip(n);
    let more = all.skip(n - 1);
    let item = all[n - 1];
    assert forall|x: A| more.contains(x) <==> (x == item || done.contains(x)) by {
        if more.contains(x) {
            let k = choose|k: int| 0 <= k < more.len() && more[k] == x;
            if k > 0 {
                assert(done[k - 1] == x);
            }
        }
        if done.contains(x) {
            let k = choose|k: int| 0 <= k < done.len() && done[k] == x;
            assert(more[k + 1] == x);
        }
        if x == item {
            assert(more[0] == x);
        }
    }
    assert(more.to_set() =~= done.to_set().insert(item));
    vstd::seq_lib::seq_to_set_is_finite(done);
    if all.no_duplicates() && done.contains(item) {
        let k = choose|k: int| 0 <= k < done.len() && done[k] == item;
        assert(all[n + k] == all[n - 1]);
    }
}

/// A value is in `s.push(item)` exactly when it is `item` or in `s`.
proof fn lemma_contains_push<A>(s: Seq<A>, item: A, v: A)
    ensures
        s.push(item).contains(v) <==> (s.contains(v) || v == item),
{
    if s.contains(v) {
        let j = choose|j: int| 0 <= j < s.len() && s[j] == v;
        assert(s.push(item)[j] == v);
    }
    if v == item {
        assert(s.push(item)[s.len() as int] == v);
    }
}

} // verus!
