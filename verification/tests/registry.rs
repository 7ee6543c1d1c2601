use std::collections::BTreeMap;

use metrics_exporter_prometheus::registry::{
    copy_snapshot, AtomicStorage, Drained, ExponentialHistogramSnapshot, HistogramBuckets,
    HistogramHandle, HistogramSnapshot, MAX_SCHEMA, MIN_SCHEMA,
};

fn classic(count: u64, sum: f64) -> HistogramSnapshot {
    HistogramSnapshot {
        count,
        sum: sum.to_bits(),
        buckets: HistogramBuckets::Classic(vec![(2.0f64.to_bits(), count)]),
    }
}

fn exponential(scale: i32) -> HistogramSnapshot {
    HistogramSnapshot {
        count: 3,
        sum: 4.0f64.to_bits(),
        buckets: HistogramBuckets::Exponential(ExponentialHistogramSnapshot {
            scale,
            zero_threshold: 0.0f64.to_bits(),
            zero_count: 1,
            positive: BTreeMap::from([(1, 2)]),
            negative: BTreeMap::new(),
        }),
    }
}

fn sample_values(d: Drained) -> Vec<u64> {
    match d {
        Drained::Samples(v) => {
            let mut values: Vec<u64> = v.iter().map(|(x, _)| *x).collect();
            values.sort();
            values
        }
        _ => panic!("expected samples"),
    }
}

#[test]
fn observations_are_drained_once() {
    let mut h = HistogramHandle::new();
    h.record(1.5f64.to_bits());
    h.record(0.5f64.to_bits());
    let mut expected = vec![1.5f64.to_bits(), 0.5f64.to_bits()];
    expected.sort();
    assert_eq!(sample_values(h.drain_into()), expected);
    assert_eq!(sample_values(h.drain_into()), Vec::<u64>::new());
}

#[test]
fn snapshot_replaces_and_silences_observations() {
    let mut h = AtomicStorage.histogram();
    h.record(7.0f64.to_bits());
    h.set_snapshot(&classic(1, 1.0));
    h.record(99.0f64.to_bits());
    match h.drain_into() {
        Drained::Replace(s) => assert_eq!(s, classic(1, 1.0)),
        _ => panic!("expected the snapshot"),
    }
    h.record(99.0f64.to_bits());
    assert!(matches!(h.drain_into(), Drained::Unchanged));
}

#[test]
fn later_snapshot_wins_even_with_smaller_count() {
    let mut h = HistogramHandle::new();
    h.set_snapshot(&classic(10, 5.0));
    h.set_snapshot(&classic(2, 1.0));
    match h.drain_into() {
        Drained::Replace(s) => assert_eq!(s.count, 2),
        _ => panic!("expected the snapshot"),
    }
}

#[test]
fn unsupported_exponential_scale_is_ignored() {
    let mut h = HistogramHandle::new();
    h.set_snapshot(&exponential(MAX_SCHEMA + 1));
    h.set_snapshot(&exponential(MIN_SCHEMA - 1));
    h.record(3.0f64.to_bits());
    assert_eq!(sample_values(h.drain_into()), vec![3.0f64.to_bits()]);

    h.set_snapshot(&exponential(MAX_SCHEMA));
    match h.drain_into() {
        Drained::Replace(s) => assert_eq!(s, exponential(MAX_SCHEMA)),
        _ => panic!("expected the snapshot"),
    }
}

fn both(scale: i32) -> HistogramSnapshot {
    HistogramSnapshot {
        count: 1,
        sum: 1.0f64.to_bits(),
        buckets: HistogramBuckets::Both {
            classic: vec![(1.0f64.to_bits(), 1)],
            exponential: ExponentialHistogramSnapshot { scale, ..Default::default() },
        },
    }
}

#[test]
fn both_representations_with_unsupported_scale_are_ignored() {
    let mut h = HistogramHandle::new();
    h.set_snapshot(&both(100));
    h.set_snapshot(&both(MIN_SCHEMA - 1));
    h.record(3.0f64.to_bits());
    assert_eq!(sample_values(h.drain_into()), vec![3.0f64.to_bits()]);

    h.set_snapshot(&both(MIN_SCHEMA));
    match h.drain_into() {
        Drained::Replace(s) => assert_eq!(s, both(MIN_SCHEMA)),
        _ => panic!("expected the snapshot"),
    }
}

#[test]
fn copied_snapshot_is_equal() {
    let s = exponential(2);
    assert_eq!(copy_snapshot(&s), s);
    let c = classic(4, 2.5);
    assert_eq!(copy_snapshot(&c), c);
}

#[test]
fn test_in_flight_observation_cannot_modify_imported_snapshot() {
    let mut handler = HistogramHandle::new();
    // An observation already in the bucket when the snapshot arrives.
    handler.record(99.0f64.to_bits());
    handler.set_snapshot(&HistogramSnapshot {
        count: 1,
        sum: 1.0f64.to_bits(),
        buckets: HistogramBuckets::Classic(vec![(2.0f64.to_bits(), 1)]),
    });
    let mut distribution: Option<HistogramSnapshot> = None;
    let apply = |d: Drained, dist: &mut Option<HistogramSnapshot>| match d {
        Drained::Replace(s) => *dist = Some(s),
        Drained::Samples(_) => panic!("observations reached an imported snapshot"),
        Drained::Unchanged => {}
    };
    apply(handler.drain_into(), &mut distribution);
    let Some(histogram) = distribution.clone() else {
        panic!("expected classic histogram");
    };
    assert_eq!(histogram.count, 1);
    assert_eq!(histogram.sum, 1.0_f64.to_bits());

    handler.record(99.0f64.to_bits());
    apply(handler.drain_into(), &mut distribution);
    let Some(histogram) = distribution else {
        panic!("expected classic histogram");
    };
    assert_eq!(histogram.count, 1);
    assert_eq!(histogram.sum, 1.0_f64.to_bits());
}

#[test]
fn drained_samples_come_newest_block_first() {
    let block = usize::BITS as u64;
    let mut h = HistogramHandle::new();
    for v in 1..=block + 6 {
        h.record(v);
    }
    let Drained::Samples(samples) = h.drain_into() else {
        panic!("expected samples");
    };
    let values: Vec<u64> = samples.iter().map(|(x, _)| *x).collect();
    let mut expected: Vec<u64> = (block + 1..=block + 6).collect();
    expected.extend(1..=block);
    assert_eq!(values, expected);
}

#[test]
fn snapshots_compare_floats_as_doubles() {
    assert_eq!(classic(1, 0.0), classic(1, -0.0));
    assert_ne!(classic(1, f64::NAN), classic(1, f64::NAN));
    assert_ne!(classic(1, 1.0), classic(2, 1.0));
    let bound = |b: f64| HistogramSnapshot {
        count: 1,
        sum: 1.0f64.to_bits(),
        buckets: HistogramBuckets::Classic(vec![(b.to_bits(), 1)]),
    };
    assert_eq!(bound(0.0), bound(-0.0));
    assert_ne!(bound(f64::NAN), bound(f64::NAN));
    let mut e = exponential(1);
    assert_eq!(e, exponential(1));
    if let HistogramBuckets::Exponential(x) = &mut e.buckets {
        x.zero_threshold = (-0.0f64).to_bits();
    }
    assert_eq!(e, exponential(1));
    if let HistogramBuckets::Exponential(x) = &mut e.buckets {
        x.positive.insert(7, 1);
    }
    assert_ne!(e, exponential(1));
    assert_ne!(exponential(1), exponential(2));
    assert_ne!(both(1), exponential(1));
}
