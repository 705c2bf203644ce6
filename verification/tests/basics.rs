use scp::slot::{Slot, SlotId};
use scp::value::{Order, Value};

#[derive(Debug, PartialEq, Eq, PartialOrd, Ord, Clone, Hash)]
pub struct DummyValue(usize);

impl Value for DummyValue {
    fn precedes(self, other: Self) -> bool {
        self.0 < other.0
    }

    fn merged(self, that: Self, _slot_id: SlotId) -> Self {
        DummyValue(self.0 + that.0)
    }

    fn precedes_is_strict_total(_a: Self, _b: Self, _c: Self) {}

    fn merged_is_commutative(_a: Self, _b: Self, _slot_id: SlotId) {}

    fn merged_is_associative(_a: Self, _b: Self, _c: Self, _slot_id: SlotId) {}

    fn compare(&self, other: &Self) -> Order {
        if self.0 < other.0 {
            Order::Less
        } else if self.0 == other.0 {
            Order::Equal
        } else {
            Order::Greater
        }
    }

    fn duplicate(&self) -> Self {
        self.clone()
    }

    fn combine(this: Self, that: Self, _slot_id: SlotId) -> Self {
        DummyValue(this.0 + that.0)
    }
}

#[test]
fn it_works() {
    assert_eq!(2 + 2, 4);
}

#[test]
fn slot_size() {
    println!("size of slot: {}", std::mem::size_of::<Slot<DummyValue>>())
}

#[test]
fn dummy_values_merge_by_sum() {
    let merged = DummyValue::combine(DummyValue(3), DummyValue(9), SlotId(7));
    assert_eq!(merged, DummyValue(12));
}
