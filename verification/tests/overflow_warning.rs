use std::sync::{Arc, Mutex};

use metric_sum::attributes::{AttributeSet, STREAM_CARDINALITY_LIMIT};
use metric_sum::sum::Sum;

#[test]
fn overflow_sends_a_warning_to_the_error_handler() {
    let seen: Arc<Mutex<Vec<String>>> = Arc::new(Mutex::new(Vec::new()));
    let sink = seen.clone();
    opentelemetry::global::set_error_handler(move |err| {
        sink.lock().unwrap().push(err.to_string());
    })
    .unwrap();

    let mut sum: Sum<u64> = Sum::new(true);
    for id in 0..(STREAM_CARDINALITY_LIMIT as u64 - 1) {
        sum.measure(1, AttributeSet::new(id));
    }
    sum.measure(1, AttributeSet::new(0));
    assert!(seen.lock().unwrap().is_empty());

    sum.measure(5, AttributeSet::new(50_000));
    sum.measure(6, AttributeSet::new(50_001));
    sum.measure(1, AttributeSet::new(1));
    let warning = "Metrics error: Warning: Maximum data points for metric stream exceeded. \
                   Entry added to overflow.";
    assert_eq!(*seen.lock().unwrap(), vec![warning.to_string(), warning.to_string()]);

    let (count, _) = sum.delta(None);
    assert_eq!(count, STREAM_CARDINALITY_LIMIT);
    sum.measure(5, AttributeSet::new(50_000));
    assert_eq!(seen.lock().unwrap().len(), 2);
}
