use mvlookup::order::{entries_in_order, values_in_order};
use std::collections::BTreeMap;

#[test]
fn values_come_in_ascending_order_of_their_keys() {
    let mut m = BTreeMap::new();
    for key in [7u32, 0, u32::MAX, 3, 1 << 31] {
        m.insert(key, key as u64 + 1);
    }
    assert_eq!(
        values_in_order(&m),
        vec![&1, &4, &8, &((1u64 << 31) + 1), &(u32::MAX as u64 + 1)]
    );
    let entries = entries_in_order(&m);
    assert_eq!(entries.len(), 5);
    assert_eq!(entries[0], (0, &1));
    assert_eq!(entries[4], (u32::MAX, &(u32::MAX as u64 + 1)));
    let none: BTreeMap<u32, u64> = BTreeMap::new();
    assert!(values_in_order(&none).is_empty());
    assert!(entries_in_order(&none).is_empty());
}
