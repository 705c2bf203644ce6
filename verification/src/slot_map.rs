//! Maps from slots to what a node keeps for them.

use vstd::prelude::*;
use crate::slot::SlotId;

verus! {

/// A map from slots to what is kept for each of them.
#[derive(Debug)]
pub struct SlotMap<V: View> {
    entries: Vec<(SlotId, V)>,
}

/// Whether some entry of `entries` is for the slot `id`.
pub open spec fn has_key<V>(entries: Seq<(SlotId, V)>, id: SlotId) -> bool {
    exists|i: int| 0 <= i < entries.len() && (#[trigger] entries[i]).0 == id
}

/// The place in `entries` of an entry for the slot `id`.
pub open spec fn place_of<V>(entries: Seq<(SlotId, V)>, id: SlotId) -> int {
    choose|i: int| 0 <= i < entries.len() && (#[trigger] entries[i]).0 == id
}

/// No two entries of `entries` are for the same slot.
pub open spec fn one_per_key<V>(entries: Seq<(SlotId, V)>) -> bool {
    forall|i: int, j: int|
        0 <= i < entries.len() && 0 <= j < entries.len() && i != j ==> (#[trigger] entries[i]).0
            != (#[trigger] entries[j]).0
}

/// The map that `entries` stand for, where no two are for the same slot.
pub open spec fn map_of<V: View>(entries: Seq<(SlotId, V)>) -> Map<SlotId, V::V> {
    Map::new(|id: SlotId| has_key(entries, id), |id: SlotId| entries[place_of(entries, id)].1@)
}

/// In entries of which no two are for the same slot, each entry is the one
/// that the map holds for its slot.
pub proof fn lemma_map_of_entry<V: View>(entries: Seq<(SlotId, V)>, i: int)
    requires
        one_per_key(entries),
        0 <= i < entries.len(),
    ensures
        map_of(entries).contains_key(entries[i].0),
        map_of(entries)[entries[i].0] == entries[i].1@,
        place_of(entries, entries[i].0) == i,
{
    assert(has_key(entries, entries[i].0));
}

/// One more entry, for a slot that has none, adds that slot to the map.
pub proof fn lemma_map_of_push<V: View>(entries: Seq<(SlotId, V)>, id: SlotId, value: V)
    requires
        one_per_key(entries),
        !has_key(entries, id),
    ensures
        one_per_key(entries.push((id, value))),
        map_of(entries.push((id, value))) == map_of(entries).insert(id, value@),
{
    let after = entries.push((id, value));
    assert(one_per_key(after));
    assert(after[entries.len() as int].0 == id);
    assert forall|key: SlotId| has_key(after, key) <==> (key == id || has_key(entries, key)) by {
        if has_key(after, key) {
            let k = place_of(after, key);
            if key != id {
                assert(entries[k].0 == key);
            }
        }
        if has_key(entries, key) {
            let k = place_of(entries, key);
            assert(after[k].0 == key);
        }
    }
    assert forall|key: SlotId| has_key(after, key) && key != id implies after[place_of(
        after,
        key,
    )].1@ == entries[place_of(entries, key)].1@ by {
        let k = place_of(after, key);
        assert(entries[k].0 == key);
        assert(place_of(entries, key) == k);
    }
    assert(place_of(after, id) == entries.len());
    assert(map_of(after) =~= map_of(entries).insert(id, value@));
}

/// Without the entry at the place `i`, the map lacks the slot of that entry.
pub proof fn lemma_map_of_remove<V: View>(entries: Seq<(SlotId, V)>, i: int)
    requires
        one_per_key(entries),
        0 <= i < entries.len(),
    ensures
        one_per_key(entries.remove(i)),
        !has_key(entries.remove(i), entries[i].0),
        map_of(entries.remove(i)) == map_of(entries).remove(entries[i].0),
{
    let after = entries.remove(i);
    let id = entries[i].0;
    assert forall|k: int| 0 <= k < after.len() implies #[trigger] after[k] == entries[if k < i {
        k
    } else {
        k + 1
    }] by {}
    assert(one_per_key(after)) by {
        assert forall|a: int, b: int|
            0 <= a < after.len() && 0 <= b < after.len() && a != b implies (#[trigger] after[a]).0
            != (#[trigger] after[b]).0 by {
            let a0 = if a < i { a } else { a + 1 };
            let b0 = if b < i { b } else { b + 1 };
            assert(after[a] == entries[a0]);
            assert(after[b] == entries[b0]);
        }
    }
    assert forall|key: SlotId| has_key(after, key) <==> (key != id && has_key(entries, key)) by {
        if has_key(after, key) {
            let k = place_of(after, key);
            let k0 = if k < i { k } else { k + 1 };
            assert(entries[k0].0 == key);
        }
        if key != id && has_key(entries, key) {
            let k = place_of(entries, key);
            let k1 = if k < i { k } else { k - 1 };
            assert(after[k1].0 == key);
        }
    }
    assert forall|key: SlotId| has_key(after, key) implies after[place_of(after, key)].1@
        == entries[place_of(entries, key)].1@ by {
        let k = place_of(after, key);
        let k0 = if k < i { k } else { k + 1 };
        assert(entries[k0].0 == key);
        assert(place_of(entries, key) == k0);
    }
    assert(map_of(after) =~= map_of(entries).remove(id));
}

/// The slots of `entries`, where no two entries are for the same slot, are
/// as many as the entries.
pub proof fn lemma_keys<V: View>(entries: Seq<(SlotId, V)>)
    requires
        one_per_key(entries),
    ensures
        map_of(entries).dom().finite(),
        map_of(entries).dom().len() == entries.len(),
    decreases entries.len(),
{
    if entries.len() == 0 {
        assert(map_of(entries).dom() =~= Set::<SlotId>::empty());
    } else {
        let before = entries.drop_last();
        let last = entries.last();
        lemma_keys(before);
        assert(!has_key(before, last.0)) by {
            if has_key(before, last.0) {
                let k = place_of(before, last.0);
                assert(entries[k].0 == entries[entries.len() - 1].0);
            }
        }
        lemma_map_of_push(before, last.0, last.1);
        assert(before.push((last.0, last.1)) =~= entries);
        assert(map_of(entries).dom() =~= map_of(before).dom().insert(last.0));
    }
}

impl<V: View> View for SlotMap<V> {
    type V = Map<SlotId, V::V>;

    closed spec fn view(&self) -> Map<SlotId, V::V> {
        map_of(self.entries@)
    }
}

impl<V: View> SlotMap<V> {
    #[verifier::type_invariant]
    spec fn distinct(self) -> bool {
        one_per_key(self.entries@)
    }

    /// The map that holds nothing.
    pub fn new() -> (r: Self)
        ensures
            r@ == Map::<SlotId, V::V>::empty(),
    {
        let r = SlotMap { entries: Vec::new() };
        assert(r@ =~= Map::<SlotId, V::V>::empty());
        r
    }

    /// The place of the entry for the slot `id`, if there is one.
    fn find(&self, id: SlotId) -> (r: Option<usize>)
        ensures
            match r {
                Some(i) => i < self.entries@.len() && self.entries@[i as int].0 == id && has_key(
                    self.entries@,
                    id,
                ) && place_of(self.entries@, id) == i,
                None => !has_key(self.entries@, id),
            },
    {
        proof {
            use_type_invariant(self);
        }
        let mut i: usize = 0;
        while i < self.entries.len()
            invariant
                i <= self.entries.len(),
                one_per_key(self.entries@),
                forall|j: int| 0 <= j < i ==> self.entries@[j].0 != id,
            decreases self.entries.len() - i,
        {
            if self.entries[i].0 == id {
                return Some(i);
            }
            i += 1;
        }
        None
    }

    /// Whether something is kept for the slot `id`.
    pub fn contains_key(&self, id: SlotId) -> (b: bool)
        ensures
            b == self@.contains_key(id),
    {
        self.find(id).is_some()
    }

    /// What is kept for the slot `id`, if anything.
    pub fn get(&self, id: SlotId) -> (r: Option<&V>)
        ensures
            match r {
                Some(v) => self@.contains_key(id) && v@ == self@[id],
                None => !self@.contains_key(id),
            },
    {
        match self.find(id) {
            Some(i) => Some(&self.entries[i].1),
            None => None,
        }
    }

    /// Keeps `value` for the slot `id`, in place of what was kept for it.
    pub fn insert(&mut self, id: SlotId, value: V)
        ensures
            final(self)@ == old(self)@.insert(id, value@),
    {
        proof {
            use_type_invariant(&*self);
        }
        let ghost before = self.entries@;
        let place = self.find(id);
        let mut entries: Vec<(SlotId, V)> = Vec::new();
        std::mem::swap(&mut entries, &mut self.entries);
        match place {
            Some(i) => {
                entries.remove(i);
                proof {
                    lemma_map_of_remove(before, i as int);
                    lemma_map_of_push(before.remove(i as int), id, value);
                }
                entries.push((id, value));
                assert(map_of(entries@) =~= map_of(before).insert(id, value@));
            },
            None => {
                proof {
                    lemma_map_of_push(before, id, value);
                }
                entries.push((id, value));
            },
        }
        self.entries = entries;
    }

    /// Takes out what is kept for the slot `id`, if anything.
    pub fn remove(&mut self, id: SlotId) -> (r: Option<V>)
        ensures
            final(self)@ == old(self)@.remove(id),
            match r {
                Some(v) => old(self)@.contains_key(id) && v@ == old(self)@[id],
                None => !old(self)@.contains_key(id),
            },
    {
        proof {
            use_type_invariant(&*self);
        }
        let ghost before = self.entries@;
        match self.find(id) {
            Some(i) => {
                let mut entries: Vec<(SlotId, V)> = Vec::new();
                std::mem::swap(&mut entries, &mut self.entries);
                let entry = entries.remove(i);
                proof {
                    lemma_map_of_remove(before, i as int);
                }
                self.entries = entries;
                Some(entry.1)
            },
            None => {
                assert(map_of(before).remove(id) =~= map_of(before));
                None
            },
        }
    }

    /// The number of slots for which something is kept.
    pub fn len(&self) -> (n: usize)
        ensures
            n == 0 <==> self@ == Map::<SlotId, V::V>::empty(),
            n == self@.dom().len(),
            self@.dom().finite(),
    {
        proof {
            use_type_invariant(self);
            lemma_keys(self.entries@);
            if self.entries@.len() == 0 {
                assert(self@ =~= Map::<SlotId, V::V>::empty());
            } else {
                assert(has_key(self.entries@, self.entries@[0].0));
                assert(self@.contains_key(self.entries@[0].0));
            }
        }
        self.entries.len()
    }

    /// Takes everything out of the map: the entries, no two of them for the
    /// same slot.
    pub fn into_entries(self) -> (r: Vec<(SlotId, V)>)
        ensures
            one_per_key(r@),
            map_of(r@) == self@,
    {
        proof {
            use_type_invariant(&self);
        }
        self.entries
    }
}

} // verus!
