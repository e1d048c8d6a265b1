use metric_sum::attributes::{
    is_under_cardinality_limit, AttributeSet, STREAM_CARDINALITY_LIMIT, STREAM_OVERFLOW_ID,
};
use metric_sum::sum::ValueMap;

fn full_table() -> ValueMap<u64> {
    let mut map: ValueMap<u64> = ValueMap::new();
    for id in 0..(STREAM_CARDINALITY_LIMIT as u64 - 1) {
        map.measure(id + 1, AttributeSet::new(id));
    }
    map
}

#[test]
fn a_new_table_is_empty() {
    let map: ValueMap<i64> = ValueMap::new();
    assert_eq!(map.len(), 0);
    assert_eq!(map.get(AttributeSet::new(0)), None);
    assert_eq!(map.get(AttributeSet::overflow()), None);

    let map: ValueMap<u64> = ValueMap::default();
    assert_eq!(map.len(), 0);
}

#[test]
fn the_overflow_set_has_the_reserved_identity() {
    assert_eq!(AttributeSet::overflow(), AttributeSet::new(STREAM_OVERFLOW_ID));
    assert_eq!(AttributeSet::overflow().id, u64::MAX);
    assert_ne!(AttributeSet::overflow(), AttributeSet::new(0));
    assert_eq!(AttributeSet::new(12).id, 12);
}

#[test]
fn the_limit_leaves_one_place_for_the_overflow_set() {
    assert_eq!(STREAM_CARDINALITY_LIMIT, 2000);
    assert!(is_under_cardinality_limit(0));
    assert!(is_under_cardinality_limit(1998));
    assert!(!is_under_cardinality_limit(1999));
    assert!(!is_under_cardinality_limit(2000));
    assert!(!is_under_cardinality_limit(usize::MAX));
}

#[test]
fn a_new_attribute_set_starts_at_the_measurement() {
    let mut map: ValueMap<i64> = ValueMap::new();
    map.measure(-4, AttributeSet::new(3));
    assert_eq!(map.len(), 1);
    assert_eq!(map.get(AttributeSet::new(3)), Some(-4));
    assert_eq!(map.get(AttributeSet::new(4)), None);
}

#[test]
fn a_measurement_adds_to_the_sum_in_place() {
    let a = AttributeSet::new(3);
    let b = AttributeSet::new(4);
    let mut map: ValueMap<i64> = ValueMap::new();
    map.measure(10, a);
    map.measure(1, b);
    map.measure(-3, a);
    map.measure(0, a);
    assert_eq!(map.len(), 2);
    assert_eq!(map.get(a), Some(7));
    assert_eq!(map.get(b), Some(1));
}

#[test]
fn attribute_sets_under_the_limit_get_their_own_entries() {
    let map = full_table();
    assert_eq!(map.len(), STREAM_CARDINALITY_LIMIT - 1);
    assert_eq!(map.get(AttributeSet::new(0)), Some(1));
    assert_eq!(map.get(AttributeSet::new(1998)), Some(1999));
    assert_eq!(map.get(AttributeSet::overflow()), None);
}

#[test]
fn one_attribute_set_too_many_is_added_to_overflow() {
    let mut map = full_table();
    let extra = AttributeSet::new(50_000);
    map.measure(5, extra);
    assert_eq!(map.len(), STREAM_CARDINALITY_LIMIT);
    assert_eq!(map.get(extra), None);
    assert_eq!(map.get(AttributeSet::overflow()), Some(5));
}

#[test]
fn overflow_takes_every_further_attribute_set_and_does_not_grow() {
    let mut map = full_table();
    map.measure(5, AttributeSet::new(50_000));
    map.measure(7, AttributeSet::new(50_001));
    map.measure(11, AttributeSet::new(50_000));
    assert_eq!(map.len(), STREAM_CARDINALITY_LIMIT);
    assert_eq!(map.get(AttributeSet::overflow()), Some(23));
    assert_eq!(map.get(AttributeSet::new(50_000)), None);
    assert_eq!(map.get(AttributeSet::new(50_001)), None);
}

#[test]
fn a_full_table_still_adds_to_the_sets_it_holds() {
    let mut map = full_table();
    map.measure(5, AttributeSet::new(50_000));
    map.measure(100, AttributeSet::new(17));
    map.measure(1, AttributeSet::overflow());
    assert_eq!(map.len(), STREAM_CARDINALITY_LIMIT);
    assert_eq!(map.get(AttributeSet::new(17)), Some(118));
    assert_eq!(map.get(AttributeSet::overflow()), Some(6));
}

#[test]
fn the_overflow_set_measured_early_is_an_entry_like_any_other() {
    let mut map: ValueMap<u64> = ValueMap::new();
    map.measure(2, AttributeSet::overflow());
    for id in 0..(STREAM_CARDINALITY_LIMIT as u64 - 2) {
        map.measure(1, AttributeSet::new(id));
    }
    assert_eq!(map.len(), STREAM_CARDINALITY_LIMIT - 1);
    map.measure(40, AttributeSet::new(50_000));
    assert_eq!(map.len(), STREAM_CARDINALITY_LIMIT - 1);
    assert_eq!(map.get(AttributeSet::overflow()), Some(42));
    assert_eq!(map.get(AttributeSet::new(50_000)), None);
}

#[test]
fn can_measure_follows_the_measurement_to_its_slot() {
    let mut map = full_table();
    assert!(map.can_measure(u64::MAX, AttributeSet::new(50_000)));
    map.measure(u64::MAX - 3, AttributeSet::new(50_000));
    assert!(map.can_measure(3, AttributeSet::new(50_001)));
    assert!(!map.can_measure(4, AttributeSet::new(50_001)));
    assert!(!map.can_measure(4, AttributeSet::overflow()));
    assert!(map.can_measure(4, AttributeSet::new(0)));
    assert!(!map.can_measure(u64::MAX, AttributeSet::new(0)));
}

#[test]
fn record_tells_when_a_measurement_is_turned_away() {
    let mut map: ValueMap<u64> = ValueMap::new();
    for id in 0..(STREAM_CARDINALITY_LIMIT as u64 - 1) {
        assert!(!map.record(id + 1, AttributeSet::new(id)));
    }
    assert!(!map.record(1, AttributeSet::new(0)));
    assert!(map.record(5, AttributeSet::new(50_000)));
    assert!(!map.record(1, AttributeSet::overflow()));
    assert!(map.record(7, AttributeSet::new(50_000)));
    assert!(!map.record(1, AttributeSet::new(1998)));
    assert_eq!(map.len(), STREAM_CARDINALITY_LIMIT);
    assert_eq!(map.get(AttributeSet::overflow()), Some(13));
    assert_eq!(map.get(AttributeSet::new(0)), Some(2));
    assert_eq!(map.get(AttributeSet::new(1998)), Some(2000));
}
