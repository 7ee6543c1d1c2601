use std::sync::atomic::{AtomicU64, Ordering};
use std::sync::Arc;

use metrics_exporter_prometheus::handles::{Counter, CounterFn};

#[derive(Default)]
struct Recorded {
    total: AtomicU64,
    max: AtomicU64,
}

impl CounterFn for Recorded {
    fn increment(&self, value: u64) {
        self.total.fetch_add(value, Ordering::Relaxed);
    }

    fn absolute(&self, value: u64) {
        self.max.fetch_max(value, Ordering::Relaxed);
    }
}

#[test]
fn counter_forwards_to_its_handler() {
    let handler = Arc::new(Recorded::default());
    let counter = Counter::from_arc(handler.clone());
    counter.increment(3);
    counter.increment(4);
    counter.absolute(10);
    counter.absolute(2);
    assert_eq!(handler.total.load(Ordering::Relaxed), 7);
    assert_eq!(handler.max.load(Ordering::Relaxed), 10);
}

#[test]
fn noop_counter_accepts_updates() {
    let counter = Counter::noop();
    counter.increment(1);
    counter.absolute(5);
    let copy = counter.clone();
    copy.increment(2);
}

#[test]
fn shared_handler_forwards_through_arc() {
    let handler = Arc::new(Recorded::default());
    let shared: Arc<Arc<Recorded>> = Arc::new(handler.clone());
    let counter = Counter::from_arc(shared);
    counter.increment(5);
    counter.absolute(9);
    assert_eq!(handler.total.load(Ordering::Relaxed), 5);
    assert_eq!(handler.max.load(Ordering::Relaxed), 9);
}
