use std::time::{Duration, SystemTime};

use metric_sum::attributes::AttributeSet;
use metric_sum::data;
use metric_sum::data::{DataPoint, Temporality};
use metric_sum::sum::PrecomputedSum;

fn at(secs: u64) -> SystemTime {
    SystemTime::UNIX_EPOCH + Duration::from_secs(secs)
}

fn value_for<T: Copy>(snapshot: &data::Sum<T>, count: usize, attrs: AttributeSet) -> Option<T> {
    let mut found = None;
    for point in &snapshot.data_points[..count] {
        if point.attributes == attrs {
            assert!(found.is_none());
            found = Some(point.value);
        }
    }
    found
}

#[test]
fn delta_reports_the_change_since_the_last_report() {
    let a = AttributeSet::new(1);
    let mut sum: PrecomputedSum<i64> = PrecomputedSum::with_start(true, at(0));

    sum.measure(10, a);
    assert!(sum.is_collectable());
    let (count, snapshot) = sum.delta_at(at(1), None);
    assert_eq!(count, 1);
    assert_eq!(
        snapshot.unwrap().data_points,
        vec![DataPoint {
            attributes: a,
            start_time: Some(at(0)),
            time: Some(at(1)),
            value: 10,
            exemplars: vec![],
        }]
    );
    assert_eq!(sum.last_reported(a), Some(10));

    sum.measure(15, a);
    let (count, snapshot) = sum.delta_at(at(2), None);
    assert_eq!(count, 1);
    assert_eq!(
        snapshot.unwrap().data_points,
        vec![DataPoint {
            attributes: a,
            start_time: Some(at(1)),
            time: Some(at(2)),
            value: 5,
            exemplars: vec![],
        }]
    );
    assert_eq!(sum.last_reported(a), Some(15));
}

#[test]
fn an_attribute_set_that_is_not_measured_again_is_forgotten() {
    let a = AttributeSet::new(1);
    let mut sum: PrecomputedSum<i64> = PrecomputedSum::with_start(true, at(0));
    sum.measure(10, a);
    let _ = sum.delta_at(at(1), None);
    sum.measure(15, a);
    let _ = sum.delta_at(at(2), None);

    let (count, snapshot) = sum.delta_at(at(3), None);
    assert_eq!(count, 0);
    assert!(snapshot.unwrap().data_points.is_empty());
    assert_eq!(sum.last_reported(a), None);

    sum.measure(3, a);
    let (count, snapshot) = sum.delta_at(at(4), None);
    assert_eq!(count, 1);
    let snapshot = snapshot.unwrap();
    assert_eq!(value_for(&snapshot, count, a), Some(3));
    assert_eq!(snapshot.data_points[0].start_time, Some(at(3)));
    assert_eq!(sum.last_reported(a), Some(3));
}

#[test]
fn a_sum_that_did_not_move_reports_zero_and_is_not_carried() {
    let a = AttributeSet::new(1);
    let b = AttributeSet::new(2);
    let mut sum: PrecomputedSum<u64> = PrecomputedSum::with_start(false, at(0));
    sum.measure(10, a);
    sum.measure(4, b);
    let _ = sum.delta_at(at(1), None);
    assert_eq!(sum.last_reported(a), Some(10));
    assert_eq!(sum.last_reported(b), Some(4));

    sum.measure(10, a);
    sum.measure(6, b);
    let (count, snapshot) = sum.delta_at(at(2), None);
    assert_eq!(count, 2);
    let snapshot = snapshot.unwrap();
    assert_eq!(value_for(&snapshot, count, a), Some(0));
    assert_eq!(value_for(&snapshot, count, b), Some(2));
    assert_eq!(sum.last_reported(a), None);
    assert_eq!(sum.last_reported(b), Some(6));

    sum.measure(10, a);
    let (count, snapshot) = sum.delta_at(at(3), None);
    assert_eq!(count, 1);
    assert_eq!(value_for(&snapshot.unwrap(), count, a), Some(10));
    assert_eq!(sum.last_reported(b), None);
}

#[test]
fn a_first_measurement_of_zero_is_reported_and_not_carried() {
    let a = AttributeSet::new(1);
    let mut sum: PrecomputedSum<i64> = PrecomputedSum::with_start(false, at(0));
    sum.measure(0, a);
    let (count, snapshot) = sum.delta_at(at(1), None);
    assert_eq!(count, 1);
    assert_eq!(value_for(&snapshot.unwrap(), count, a), Some(0));
    assert_eq!(sum.last_reported(a), None);
}

#[test]
fn two_measurements_in_one_cycle_add_up() {
    let a = AttributeSet::new(1);
    let mut sum: PrecomputedSum<i64> = PrecomputedSum::with_start(true, at(0));
    sum.measure(10, a);
    sum.measure(15, a);
    let (count, snapshot) = sum.delta_at(at(1), None);
    assert_eq!(count, 1);
    assert_eq!(value_for(&snapshot.unwrap(), count, a), Some(25));
    assert_eq!(sum.last_reported(a), Some(25));
}

#[test]
fn a_falling_sum_reports_a_negative_change() {
    let a = AttributeSet::new(1);
    let mut sum: PrecomputedSum<i64> = PrecomputedSum::with_start(false, at(0));
    sum.measure(10, a);
    let _ = sum.delta_at(at(1), None);
    sum.measure(4, a);
    assert!(sum.is_collectable());
    let (count, snapshot) = sum.delta_at(at(2), None);
    assert_eq!(value_for(&snapshot.unwrap(), count, a), Some(-6));
    assert_eq!(sum.last_reported(a), Some(4));
}

#[test]
fn is_collectable_tells_when_a_change_does_not_fit() {
    let a = AttributeSet::new(1);
    let mut sum: PrecomputedSum<u64> = PrecomputedSum::with_start(true, at(0));
    assert!(sum.is_collectable());
    sum.measure(10, a);
    let _ = sum.delta_at(at(1), None);
    sum.measure(4, a);
    assert!(!sum.is_collectable());
    sum.measure(6, a);
    assert!(sum.is_collectable());

    let mut signed: PrecomputedSum<i64> = PrecomputedSum::with_start(true, at(0));
    signed.measure(i64::MIN, a);
    let _ = signed.delta_at(at(1), None);
    signed.measure(1, a);
    assert!(!signed.is_collectable());
}

#[test]
fn cumulative_reports_changes_and_keeps_sums_and_start() {
    let a = AttributeSet::new(1);
    let mut sum: PrecomputedSum<i64> = PrecomputedSum::with_start(true, at(5));
    sum.measure(10, a);

    let (count, snapshot) = sum.cumulative_at(at(6), None);
    assert_eq!(count, 1);
    let snapshot = snapshot.unwrap();
    assert_eq!(snapshot.temporality, Temporality::Cumulative);
    assert!(snapshot.is_monotonic);
    assert_eq!(
        snapshot.data_points,
        vec![DataPoint {
            attributes: a,
            start_time: Some(at(5)),
            time: Some(at(6)),
            value: 10,
            exemplars: vec![],
        }]
    );
    assert_eq!(sum.last_reported(a), Some(10));

    sum.measure(5, a);
    let (count, snapshot) = sum.cumulative_at(at(7), None);
    assert_eq!(count, 1);
    assert_eq!(
        snapshot.unwrap().data_points,
        vec![DataPoint {
            attributes: a,
            start_time: Some(at(5)),
            time: Some(at(7)),
            value: 5,
            exemplars: vec![],
        }]
    );
    assert_eq!(sum.last_reported(a), Some(15));
}

#[test]
fn cumulative_twice_reports_no_change_the_second_time() {
    let a = AttributeSet::new(1);
    let mut sum: PrecomputedSum<i64> = PrecomputedSum::with_start(true, at(0));
    sum.measure(10, a);
    let (count, snapshot) = sum.cumulative_at(at(1), None);
    assert_eq!(value_for(&snapshot.unwrap(), count, a), Some(10));
    let (count, snapshot) = sum.cumulative_at(at(2), None);
    assert_eq!(count, 1);
    assert_eq!(value_for(&snapshot.unwrap(), count, a), Some(0));
    assert_eq!(sum.last_reported(a), None);
    let (count, snapshot) = sum.cumulative_at(at(3), None);
    assert_eq!(value_for(&snapshot.unwrap(), count, a), Some(10));
}

#[test]
fn a_snapshot_handed_in_is_written_over_and_none_is_returned() {
    let a = AttributeSet::new(1);
    let kept = DataPoint {
        attributes: AttributeSet::new(9),
        start_time: None,
        time: None,
        value: 99i64,
        exemplars: vec![],
    };
    let mut dest = data::Sum {
        data_points: vec![
            DataPoint {
                attributes: AttributeSet::new(8),
                start_time: None,
                time: None,
                value: 88i64,
                exemplars: vec![],
            },
            DataPoint {
                attributes: AttributeSet::new(9),
                start_time: None,
                time: None,
                value: 99i64,
                exemplars: vec![],
            },
        ],
        temporality: Temporality::Cumulative,
        is_monotonic: false,
    };
    let mut sum: PrecomputedSum<i64> = PrecomputedSum::with_start(true, at(0));
    sum.measure(10, a);
    let (count, fresh) = sum.delta_at(at(1), Some(&mut dest));
    assert_eq!(count, 1);
    assert!(fresh.is_none());
    assert_eq!(dest.temporality, Temporality::Delta);
    assert!(dest.is_monotonic);
    assert_eq!(dest.data_points.len(), 2);
    assert_eq!(
        dest.data_points[0],
        DataPoint {
            attributes: a,
            start_time: Some(at(0)),
            time: Some(at(1)),
            value: 10,
            exemplars: vec![],
        }
    );
    assert_eq!(dest.data_points[1], kept);

    sum.measure(12, a);
    let (count, fresh) = sum.delta_at(at(2), Some(&mut dest));
    assert_eq!(count, 1);
    assert!(fresh.is_none());
    assert_eq!(dest.data_points.len(), 2);
    assert_eq!(dest.data_points[0].value, 2);
    assert_eq!(dest.data_points[0].start_time, Some(at(1)));
    assert_eq!(dest.data_points[1], kept);
}

#[test]
fn a_cumulative_collection_sets_temporality_and_monotonicity_on_reuse() {
    let a = AttributeSet::new(1);
    let mut dest: data::Sum<u64> = data::Sum {
        data_points: vec![],
        temporality: Temporality::Delta,
        is_monotonic: true,
    };
    let mut sum: PrecomputedSum<u64> = PrecomputedSum::with_start(false, at(0));
    sum.measure(12, a);
    let (count, fresh) = sum.cumulative_at(at(2), Some(&mut dest));
    assert_eq!(count, 1);
    assert!(fresh.is_none());
    assert_eq!(dest.temporality, Temporality::Cumulative);
    assert!(!dest.is_monotonic);
    assert_eq!(
        dest.data_points,
        vec![DataPoint {
            attributes: a,
            start_time: Some(at(0)),
            time: Some(at(2)),
            value: 12,
            exemplars: vec![],
        }]
    );
}

#[test]
fn precomputed_collections_read_the_clock() {
    let a = AttributeSet::new(1);
    let before = SystemTime::now();
    let mut sum: PrecomputedSum<u64> = PrecomputedSum::new(true);
    sum.measure(7, a);
    let (count, snapshot) = sum.delta(None);
    assert_eq!(count, 1);
    let snapshot = snapshot.unwrap();
    assert_eq!(snapshot.temporality, Temporality::Delta);
    assert_eq!(snapshot.data_points[0].value, 7);
    let start = snapshot.data_points[0].start_time.unwrap();
    let drained = snapshot.data_points[0].time.unwrap();
    assert!(before <= start && start <= drained);

    sum.measure(9, a);
    let (_, snapshot) = sum.delta(None);
    let snapshot = snapshot.unwrap();
    assert_eq!(snapshot.data_points[0].value, 2);
    assert_eq!(snapshot.data_points[0].start_time, Some(drained));
}

#[test]
fn precomputed_cumulative_collections_read_the_clock() {
    let a = AttributeSet::new(1);
    let before = SystemTime::now();
    let mut sum: PrecomputedSum<i64> = PrecomputedSum::new(false);
    sum.measure(7, a);
    let (count, snapshot) = sum.cumulative(None);
    assert_eq!(count, 1);
    let snapshot = snapshot.unwrap();
    assert_eq!(snapshot.temporality, Temporality::Cumulative);
    assert!(!snapshot.is_monotonic);
    assert_eq!(snapshot.data_points[0].value, 7);
    let start = snapshot.data_points[0].start_time.unwrap();
    let end = snapshot.data_points[0].time.unwrap();
    assert!(before <= start && start <= end);

    let (_, snapshot) = sum.cumulative(None);
    assert_eq!(snapshot.unwrap().data_points[0].start_time, Some(start));
}
