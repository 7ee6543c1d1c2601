use std::collections::BTreeMap;

use metrics_exporter_prometheus::buckets::{entries_fit_exec, make_buckets};
use metrics_exporter_prometheus::float_bits::count_to_f64_bits;
use metrics_exporter_prometheus::formatting::sanitize_metric_name;
use metrics_exporter_prometheus::pb::{
    encode_family_delimited, BucketSpan, Counter, Gauge, LabelPair, Metric, MetricFamily,
    METRIC_TYPE_COUNTER, METRIC_TYPE_GAUGE, METRIC_TYPE_HISTOGRAM, METRIC_TYPE_SUMMARY,
};
use metrics_exporter_prometheus::registry::{
    AtomicStorage, Drained, ExponentialHistogramSnapshot, HistogramBuckets, HistogramSnapshot,
};
use metrics_exporter_prometheus::protobuf::{
    add_suffix_to_name, histogram_from_classic, histogram_from_native, label_set_to_protobuf,
    render_protobuf, snapshot_fits_exec, ClassicHistogram, Distribution, LabelSet, NativeHistogram, Snapshot,
    SummaryData, POSITIVE_INFINITY_BITS,
};

// ---- a small protobuf reader, used to inspect what the library wrote ----

#[derive(Debug, Clone, PartialEq)]
enum Field {
    Varint(u64),
    Fixed64(u64),
    Bytes(Vec<u8>),
}

fn read_varint(buf: &[u8], pos: &mut usize) -> u64 {
    let mut v: u64 = 0;
    let mut shift = 0;
    loop {
        let b = buf[*pos];
        *pos += 1;
        v |= ((b & 0x7f) as u64) << shift;
        if b < 0x80 {
            return v;
        }
        shift += 7;
    }
}

fn read_fields(buf: &[u8]) -> Vec<(u64, Field)> {
    let mut pos = 0;
    let mut out = Vec::new();
    while pos < buf.len() {
        let key = read_varint(buf, &mut pos);
        let tag = key >> 3;
        let field = match key & 7 {
            0 => Field::Varint(read_varint(buf, &mut pos)),
            1 => {
                let mut w = [0u8; 8];
                w.copy_from_slice(&buf[pos..pos + 8]);
                pos += 8;
                Field::Fixed64(u64::from_le_bytes(w))
            }
            2 => {
                let len = read_varint(buf, &mut pos) as usize;
                let b = buf[pos..pos + len].to_vec();
                pos += len;
                Field::Bytes(b)
            }
            t => panic!("unexpected wire type {t}"),
        };
        out.push((tag, field));
    }
    out
}

fn read_delimited(buf: &[u8]) -> Vec<Vec<u8>> {
    let mut pos = 0;
    let mut out = Vec::new();
    while pos < buf.len() {
        let len = read_varint(buf, &mut pos) as usize;
        out.push(buf[pos..pos + len].to_vec());
        pos += len;
    }
    out
}

fn get(fields: &[(u64, Field)], tag: u64) -> Vec<Field> {
    fields.iter().filter(|(t, _)| *t == tag).map(|(_, f)| f.clone()).collect()
}

fn string_of(f: &Field) -> String {
    match f {
        Field::Bytes(b) => String::from_utf8(b.clone()).unwrap(),
        other => panic!("not a string: {other:?}"),
    }
}

fn bytes_of(f: &Field) -> Vec<u8> {
    match f {
        Field::Bytes(b) => b.clone(),
        other => panic!("not bytes: {other:?}"),
    }
}

fn zigzag_decode(v: u64) -> i64 {
    ((v >> 1) as i64) ^ -((v & 1) as i64)
}

fn labels(pairs: &[(&str, &str)]) -> LabelSet {
    LabelSet { labels: pairs.iter().map(|(k, v)| (k.to_string(), v.to_string())).collect() }
}

fn snapshot() -> Snapshot {
    Snapshot { counters: Vec::new(), gauges: Vec::new(), distributions: Vec::new() }
}

// ---- tests ----

#[test]
fn test_add_suffix_to_name() {
    assert_eq!(add_suffix_to_name("requests", Some("total")), "requests_total");
    assert_eq!(add_suffix_to_name("requests_total", Some("total")), "requests_total");
    assert_eq!(add_suffix_to_name("requests", None), "requests");
}

#[test]
fn suffix_is_added_when_only_a_part_matches() {
    assert_eq!(add_suffix_to_name("subtotal", Some("total")), "subtotal");
    assert_eq!(add_suffix_to_name("tota", Some("total")), "tota_total");
    assert_eq!(add_suffix_to_name("", Some("total")), "_total");
}

#[test]
fn sanitize_replaces_invalid_characters() {
    assert_eq!(sanitize_metric_name("http_requests"), "http_requests");
    assert_eq!(sanitize_metric_name("1st-metric.name"), "_st_metric_name");
    assert_eq!(sanitize_metric_name("a:b_c9"), "a:b_c9");
    assert_eq!(sanitize_metric_name("9"), "_");
    assert_eq!(sanitize_metric_name("é"), "_");
    assert_eq!(sanitize_metric_name(""), "");
}

#[test]
fn adding_a_suffix_twice_changes_nothing() {
    for name in ["requests", "requests_total", "", "x_tot"] {
        let once = add_suffix_to_name(name, Some("total"));
        assert!(once.ends_with("total"));
        assert_eq!(add_suffix_to_name(&once, Some("total")), once);
    }
}

#[test]
fn sanitizing_twice_changes_nothing() {
    for name in ["1st-metric.name", "ok_name", "a b", "9"] {
        let once = sanitize_metric_name(name);
        assert_eq!(once.chars().count(), name.chars().count());
        assert_eq!(sanitize_metric_name(&once), once);
    }
}

#[test]
fn label_set_keeps_pairs_in_order() {
    let pairs = label_set_to_protobuf(labels(&[("method", "GET"), ("code", "200")]));
    assert_eq!(
        pairs,
        vec![
            LabelPair { name: Some("method".to_string()), value: Some("GET".to_string()) },
            LabelPair { name: Some("code".to_string()), value: Some("200".to_string()) },
        ]
    );
}

fn spans(v: &[(i32, u32)]) -> Vec<BucketSpan> {
    v.iter().map(|&(o, l)| BucketSpan { offset: Some(o), length: Some(l) }).collect()
}

#[test]
fn make_buckets_empty_map() {
    let (s, d) = make_buckets(&BTreeMap::new());
    assert!(s.is_empty());
    assert!(d.is_empty());
}

#[test]
fn make_buckets_fills_small_gaps_and_splits_large_ones() {
    let m: BTreeMap<i32, u64> = [(1, 3)].into();
    assert_eq!(make_buckets(&m), (spans(&[(1, 1)]), vec![3]));

    let m: BTreeMap<i32, u64> = [(0, 1), (1, 4)].into();
    assert_eq!(make_buckets(&m), (spans(&[(0, 2)]), vec![1, 3]));

    let m: BTreeMap<i32, u64> = [(0, 1), (2, 3)].into();
    assert_eq!(make_buckets(&m), (spans(&[(0, 3)]), vec![1, -1, 3]));

    let m: BTreeMap<i32, u64> = [(0, 1), (3, 2)].into();
    assert_eq!(make_buckets(&m), (spans(&[(0, 4)]), vec![1, -1, 0, 2]));

    let m: BTreeMap<i32, u64> = [(0, 1), (4, 2)].into();
    assert_eq!(make_buckets(&m), (spans(&[(0, 1), (3, 1)]), vec![1, 1]));

    let m: BTreeMap<i32, u64> = [(-2, 5), (-1, 5), (10, 2)].into();
    assert_eq!(make_buckets(&m), (spans(&[(-2, 2), (10, 1)]), vec![5, 0, -3]));
}

#[test]
fn make_buckets_reads_counts_as_i64() {
    let m: BTreeMap<i32, u64> = [(0, u64::MAX)].into();
    assert_eq!(make_buckets(&m), (spans(&[(0, 1)]), vec![-1]));

    let m: BTreeMap<i32, u64> = [(0, 1 << 63), (1, 1 << 63)].into();
    assert_eq!(make_buckets(&m), (spans(&[(0, 2)]), vec![i64::MIN, 0]));
}

#[test]
fn bucket_maps_that_overflow_are_detected() {
    let fits = |v: &[(i32, u64)]| entries_fit_exec(&v.iter().copied().collect());
    assert!(fits(&[]));
    assert!(fits(&[(-3, 5), (0, 2), (10, 7)]));
    assert!(!fits(&[(i32::MAX, 1)]));
    assert!(!fits(&[(i32::MIN, 1), (i32::MAX - 1, 1)]));
    assert!(!fits(&[(0, 1 << 63), (2, 1)]));
    assert!(fits(&[(0, 0), (1, 1 << 63)]));
    assert!(!fits(&[(0, 1), (1, 1 << 63)]));
}

#[test]
fn snapshot_fit_checks_every_native_histogram() {
    let mut s = snapshot();
    s.distributions.push((
        "n".to_string(),
        vec![(labels(&[]), Distribution::NativeHistogram(native(0.0, 0, &[(1, 1)], &[])))],
    ));
    assert!(snapshot_fits_exec(&s));
    s.distributions.push((
        "m".to_string(),
        vec![(labels(&[]), Distribution::NativeHistogram(native(0.0, 0, &[], &[(i32::MAX, 1)])))],
    ));
    assert!(!snapshot_fits_exec(&s));
}

/// Decoding spans and deltas gives back the map, with zero-count buckets only in gaps.
#[test]
fn make_buckets_decodes_back_to_the_map() {
    let m: BTreeMap<i32, u64> =
        [(-7, 2), (-3, 9), (-2, 1), (0, 4), (2, 4), (5, 0), (40, 7), (41, 1)].into();
    let (s, d) = make_buckets(&m);
    let mut decoded = BTreeMap::new();
    let mut index: i64 = 0;
    let mut count: i64 = 0;
    let mut k = 0;
    for span in &s {
        index += span.offset.unwrap() as i64;
        for _ in 0..span.length.unwrap() {
            count += d[k];
            k += 1;
            decoded.insert(index as i32, count as u64);
            index += 1;
        }
    }
    assert_eq!(k, d.len());
    for (i, c) in &decoded {
        match m.get(i) {
            Some(expected) => assert_eq!(c, expected),
            None => assert_eq!(*c, 0),
        }
    }
    for i in m.keys() {
        assert!(decoded.contains_key(i));
    }
}

#[test]
fn counts_convert_like_a_cast() {
    let values = [
        0u64,
        1,
        2,
        3,
        42,
        1 << 52,
        (1 << 53) - 1,
        1 << 53,
        (1 << 53) + 1,
        (1 << 53) + 2,
        (1 << 53) + 3,
        (1 << 54) + 2,
        (1 << 54) + 6,
        u64::MAX,
        u64::MAX - 1024,
        u64::MAX - 2048,
        0x1234_5678_9abc_def1,
        1_000_000_007,
    ];
    for v in values {
        assert_eq!(count_to_f64_bits(v), (v as f64).to_bits(), "value {v}");
    }
    assert_eq!(count_to_f64_bits(42), 42.0f64.to_bits());
}

#[test]
fn classic_histogram_gets_an_infinite_bucket() {
    let h = ClassicHistogram {
        buckets: vec![(1.0f64.to_bits(), 1), (5.0f64.to_bits(), 3)],
        count: 4,
        sum: 12.5f64.to_bits(),
    };
    let pb = histogram_from_classic(&h);
    assert_eq!(pb.sample_count, Some(4));
    assert_eq!(pb.sample_sum, Some(12.5f64.to_bits()));
    let bounds: Vec<_> = pb.bucket.iter().map(|b| (b.upper_bound, b.cumulative_count)).collect();
    assert_eq!(
        bounds,
        vec![
            (Some(1.0f64.to_bits()), Some(1)),
            (Some(5.0f64.to_bits()), Some(3)),
            (Some(f64::INFINITY.to_bits()), Some(4)),
        ]
    );
    assert_eq!(POSITIVE_INFINITY_BITS, f64::INFINITY.to_bits());
    assert!(pb.schema.is_none());
}

fn native(zero_threshold: f64, zero_count: u64, pos: &[(i32, u64)], neg: &[(i32, u64)]) -> NativeHistogram {
    NativeHistogram {
        count: 6,
        sum: 2.0f64.to_bits(),
        zero_threshold: zero_threshold.to_bits(),
        schema: 1,
        zero_count,
        positive: pos.iter().copied().collect(),
        negative: neg.iter().copied().collect(),
    }
}

#[test]
fn native_histogram_spans_and_empty_marker() {
    let pb = histogram_from_native(&native(0.125, 1, &[(1, 3)], &[(0, 2)]));
    assert_eq!(pb.schema, Some(1));
    assert_eq!(pb.zero_count, Some(1));
    assert_eq!(pb.zero_threshold, Some(0.125f64.to_bits()));
    assert_eq!(pb.positive_span, spans(&[(1, 1)]));
    assert_eq!(pb.positive_delta, vec![3]);
    assert_eq!(pb.negative_span, spans(&[(0, 1)]));
    assert_eq!(pb.negative_delta, vec![2]);
    assert!(pb.bucket.is_empty());

    let empty = histogram_from_native(&native(0.0, 0, &[], &[]));
    assert_eq!(empty.positive_span, spans(&[(0, 0)]));
    let negative_zero = histogram_from_native(&native(-0.0, 0, &[], &[]));
    assert_eq!(negative_zero.positive_span, spans(&[(0, 0)]));
    let with_zero_bucket = histogram_from_native(&native(0.0, 1, &[], &[]));
    assert!(with_zero_bucket.positive_span.is_empty());
    let with_threshold = histogram_from_native(&native(0.5, 0, &[], &[]));
    assert!(with_threshold.positive_span.is_empty());
}

#[test]
fn family_encoding_matches_the_wire_format() {
    let family = MetricFamily {
        name: Some("up".to_string()),
        help: None,
        metric_type: Some(METRIC_TYPE_GAUGE),
        metric: vec![Metric {
            label: vec![],
            gauge: Some(Gauge { value: Some(1.0f64.to_bits()) }),
            counter: None,
            summary: None,
            histogram: None,
        }],
    };
    let mut out = vec![0xAA];
    encode_family_delimited(&family, &mut out);
    let metric = [0x12, 0x09, 0x09, 0, 0, 0, 0, 0, 0, 0xF0, 0x3F];
    let mut expected = vec![0xAA, 0x13, 0x0A, 0x02, b'u', b'p', 0x18, 0x01, 0x22, 0x0B];
    expected.extend_from_slice(&metric);
    assert_eq!(out, expected);
}

#[test]
fn long_families_get_multi_byte_length_prefixes() {
    let name = "x".repeat(200);
    let family = MetricFamily {
        name: Some(name.clone()),
        help: None,
        metric_type: Some(METRIC_TYPE_COUNTER),
        metric: vec![],
    };
    let mut out = Vec::new();
    encode_family_delimited(&family, &mut out);
    // body: key 0x0A, length 200 as varint (0xC8 0x01), 200 bytes, then type.
    assert_eq!(&out[..5], &[0xCD, 0x01, 0x0A, 0xC8, 0x01]);
    assert_eq!(out.len(), 2 + 3 + 200 + 2);
    let families = read_delimited(&out);
    assert_eq!(families.len(), 1);
    let fields = read_fields(&families[0]);
    assert_eq!(string_of(&get(&fields, 1)[0]), name);
    assert_eq!(get(&fields, 3), vec![Field::Varint(0)]);
}

#[test]
fn negative_enum_values_are_sign_extended() {
    let family = MetricFamily { name: None, help: None, metric_type: Some(-1), metric: vec![] };
    let mut out = Vec::new();
    encode_family_delimited(&family, &mut out);
    let fields = read_fields(&read_delimited(&out)[0]);
    assert_eq!(get(&fields, 3), vec![Field::Varint(u64::MAX)]);
}

#[test]
fn test_render_protobuf_counters() {
    let mut s = snapshot();
    s.counters.push(("http_requests".to_string(), vec![(labels(&[("method", "GET")]), 42)]));
    let out = render_protobuf(s, &Vec::new(), Some("total"));
    assert!(!out.is_empty());
    let families = read_delimited(&out);
    assert_eq!(families.len(), 1);
    let f = read_fields(&families[0]);
    assert_eq!(string_of(&get(&f, 1)[0]), "http_requests_total");
    assert!(get(&f, 2).is_empty());
    assert_eq!(get(&f, 3), vec![Field::Varint(METRIC_TYPE_COUNTER as u64)]);
    let metrics = get(&f, 4);
    assert_eq!(metrics.len(), 1);
    let m = read_fields(&bytes_of(&metrics[0]));
    let label = read_fields(&bytes_of(&get(&m, 1)[0]));
    assert_eq!(string_of(&get(&label, 1)[0]), "method");
    assert_eq!(string_of(&get(&label, 2)[0]), "GET");
    let counter = read_fields(&bytes_of(&get(&m, 3)[0]));
    assert_eq!(get(&counter, 1), vec![Field::Fixed64(42.0f64.to_bits())]);
    assert!(get(&m, 2).is_empty());
}

#[test]
fn gauge_names_are_sanitized_and_take_no_suffix() {
    let mut s = snapshot();
    s.gauges.push((
        "cpu usage".to_string(),
        vec![(labels(&[("instance", "localhost")]), 0.75f64.to_bits())],
    ));
    let descriptions = vec![
        ("other".to_string(), "not this one".to_string()),
        ("cpu usage".to_string(), "CPU usage percentage".to_string()),
    ];
    let out = render_protobuf(s, &descriptions, Some("total"));
    let families = read_delimited(&out);
    let f = read_fields(&families[0]);
    assert_eq!(string_of(&get(&f, 1)[0]), "cpu_usage");
    assert_eq!(string_of(&get(&f, 2)[0]), "CPU usage percentage");
    assert_eq!(get(&f, 3), vec![Field::Varint(METRIC_TYPE_GAUGE as u64)]);
    let m = read_fields(&bytes_of(&get(&f, 4)[0]));
    let gauge = read_fields(&bytes_of(&get(&m, 2)[0]));
    assert_eq!(get(&gauge, 1), vec![Field::Fixed64(0.75f64.to_bits())]);
}

#[test]
fn test_render_protobuf_gauges() {
    let mut s = snapshot();
    s.gauges.push((
        "cpu_usage".to_string(),
        vec![(labels(&[("instance", "localhost")]), 0.75f64.to_bits())],
    ));
    let descriptions = vec![("cpu_usage".to_string(), "CPU usage percentage".to_string())];
    let out = render_protobuf(s, &descriptions, None);
    assert!(!out.is_empty(), "Protobuf data should not be empty");
    let f = read_fields(&read_delimited(&out)[0]);
    assert_eq!(string_of(&get(&f, 1)[0]), "cpu_usage");
    assert_eq!(get(&f, 3), vec![Field::Varint(METRIC_TYPE_GAUGE as u64)]);
    assert_eq!(string_of(&get(&f, 2)[0]), "CPU usage percentage");
    let m = read_fields(&bytes_of(&get(&f, 4)[0]));
    let gauge = read_fields(&bytes_of(&get(&m, 2)[0]));
    assert_eq!(get(&gauge, 1), vec![Field::Fixed64(0.75f64.to_bits())]);
}

#[test]
fn empty_description_is_left_out() {
    let mut s = snapshot();
    s.gauges.push(("g".to_string(), vec![(labels(&[]), 0)]));
    let descriptions = vec![("g".to_string(), String::new())];
    let out = render_protobuf(s, &descriptions, None);
    let f = read_fields(&read_delimited(&out)[0]);
    assert!(get(&f, 2).is_empty());
}

#[test]
fn render_orders_counters_gauges_then_distributions_and_skips_empty_ones() {
    let mut s = snapshot();
    s.distributions.push(("empty".to_string(), vec![]));
    s.distributions.push((
        "latency".to_string(),
        vec![(
            labels(&[]),
            Distribution::Summary(SummaryData {
                count: 3,
                sum: 1.5f64.to_bits(),
                quantiles: vec![(0.5f64.to_bits(), 0.25f64.to_bits())],
            }),
        )],
    ));
    s.gauges.push(("g".to_string(), vec![(labels(&[]), 1.0f64.to_bits())]));
    s.counters.push(("c".to_string(), vec![(labels(&[]), 1)]));
    let out = render_protobuf(s, &Vec::new(), None);
    let families = read_delimited(&out);
    assert_eq!(families.len(), 3);
    let names: Vec<String> =
        families.iter().map(|f| string_of(&get(&read_fields(f), 1)[0])).collect();
    assert_eq!(names, vec!["c", "g", "latency"]);
    let summary_family = read_fields(&families[2]);
    assert_eq!(get(&summary_family, 3), vec![Field::Varint(METRIC_TYPE_SUMMARY as u64)]);
    let m = read_fields(&bytes_of(&get(&summary_family, 4)[0]));
    let summary = read_fields(&bytes_of(&get(&m, 4)[0]));
    assert_eq!(get(&summary, 1), vec![Field::Varint(3)]);
    assert_eq!(get(&summary, 2), vec![Field::Fixed64(1.5f64.to_bits())]);
    let q = read_fields(&bytes_of(&get(&summary, 3)[0]));
    assert_eq!(get(&q, 1), vec![Field::Fixed64(0.5f64.to_bits())]);
    assert_eq!(get(&q, 2), vec![Field::Fixed64(0.25f64.to_bits())]);
}

#[test]
fn test_imported_histogram_preserves_both_representations() {
    let mut handle = AtomicStorage.histogram();
    let exported = HistogramSnapshot {
        count: 6,
        sum: 2.0f64.to_bits(),
        buckets: HistogramBuckets::Both {
            classic: vec![((-1.0f64).to_bits(), 2), (0.0f64.to_bits(), 3), (2.0f64.to_bits(), 6)],
            exponential: ExponentialHistogramSnapshot {
                scale: 1,
                zero_threshold: 0.125f64.to_bits(),
                zero_count: 1,
                positive: [(1, 3)].into(),
                negative: [(0, 2)].into(),
            },
        },
    };
    handle.set_snapshot(&exported);
    let Drained::Replace(imported) = handle.drain_into() else {
        panic!("expected the imported snapshot");
    };
    let HistogramBuckets::Both { classic, exponential } = imported.buckets else {
        panic!("expected both representations");
    };
    let distribution = Distribution::Both(
        ClassicHistogram { buckets: classic, count: imported.count, sum: imported.sum },
        NativeHistogram {
            count: imported.count,
            sum: imported.sum,
            zero_threshold: exponential.zero_threshold,
            schema: exponential.scale,
            zero_count: exponential.zero_count,
            positive: exponential.positive,
            negative: exponential.negative,
        },
    );
    let mut s = snapshot();
    s.distributions.push(("remote".to_string(), vec![(labels(&[]), distribution)]));
    let out = render_protobuf(s, &Vec::new(), None);
    let f = read_fields(&read_delimited(&out)[0]);
    assert_eq!(get(&f, 3), vec![Field::Varint(METRIC_TYPE_HISTOGRAM as u64)]);
    let m = read_fields(&bytes_of(&get(&f, 4)[0]));
    let h = read_fields(&bytes_of(&get(&m, 7)[0]));
    assert_eq!(get(&h, 1), vec![Field::Varint(6)]);
    assert_eq!(get(&h, 2), vec![Field::Fixed64(2.0f64.to_bits())]);
    let buckets: Vec<(Vec<Field>, Vec<Field>)> = get(&h, 3)
        .iter()
        .map(|b| {
            let b = read_fields(&bytes_of(b));
            (get(&b, 2), get(&b, 1))
        })
        .collect();
    assert_eq!(
        buckets,
        vec![
            (vec![Field::Fixed64((-1.0f64).to_bits())], vec![Field::Varint(2)]),
            (vec![Field::Fixed64(0.0f64.to_bits())], vec![Field::Varint(3)]),
            (vec![Field::Fixed64(2.0f64.to_bits())], vec![Field::Varint(6)]),
            (vec![Field::Fixed64(f64::INFINITY.to_bits())], vec![Field::Varint(6)]),
        ]
    );
    assert_eq!(get(&h, 5), vec![Field::Varint(2)]); // schema 1, zig-zag encoded
    assert_eq!(get(&h, 6), vec![Field::Fixed64(0.125f64.to_bits())]);
    assert_eq!(get(&h, 7), vec![Field::Varint(1)]);
    let pos_span = read_fields(&bytes_of(&get(&h, 12)[0]));
    assert_eq!(zigzag_decode(match get(&pos_span, 1)[0] {
        Field::Varint(v) => v,
        _ => panic!(),
    }), 1);
    assert_eq!(get(&pos_span, 2), vec![Field::Varint(1)]);
    assert_eq!(get(&h, 13), vec![Field::Varint(6)]); // delta 3, zig-zag encoded
    let neg_span = read_fields(&bytes_of(&get(&h, 9)[0]));
    assert_eq!(get(&neg_span, 1), vec![Field::Varint(0)]);
    assert_eq!(get(&neg_span, 2), vec![Field::Varint(1)]);
    assert_eq!(get(&h, 10), vec![Field::Varint(4)]); // delta 2, zig-zag encoded
}

#[test]
fn negative_offsets_and_deltas_are_zigzag_encoded() {
    let mut s = snapshot();
    s.distributions.push((
        "n".to_string(),
        vec![(labels(&[]), Distribution::NativeHistogram(native(0.0, 0, &[(-3, 5), (-2, 1)], &[])))],
    ));
    let out = render_protobuf(s, &Vec::new(), None);
    let f = read_fields(&read_delimited(&out)[0]);
    let m = read_fields(&bytes_of(&get(&f, 4)[0]));
    let h = read_fields(&bytes_of(&get(&m, 7)[0]));
    let span = read_fields(&bytes_of(&get(&h, 12)[0]));
    assert_eq!(get(&span, 1), vec![Field::Varint(5)]); // offset -3
    assert_eq!(get(&span, 2), vec![Field::Varint(2)]);
    let deltas: Vec<i64> = get(&h, 13)
        .iter()
        .map(|d| match d {
            Field::Varint(v) => zigzag_decode(*v),
            _ => panic!(),
        })
        .collect();
    assert_eq!(deltas, vec![5, -4]);
}

#[test]
fn counter_struct_encodes_value_field() {
    let family = MetricFamily {
        name: None,
        help: None,
        metric_type: None,
        metric: vec![Metric {
            label: vec![],
            gauge: None,
            counter: Some(Counter { value: None }),
            summary: None,
            histogram: None,
        }],
    };
    let mut out = Vec::new();
    encode_family_delimited(&family, &mut out);
    assert_eq!(out, vec![0x04, 0x22, 0x02, 0x1A, 0x00]);
}

#[test]
fn messages_compare_doubles_as_doubles() {
    let g = |v: f64| Gauge { value: Some(v.to_bits()) };
    assert_eq!(g(0.0), g(-0.0));
    assert_ne!(g(f64::NAN), g(f64::NAN));
    assert_ne!(g(1.0), g(2.0));
    assert_ne!(Gauge { value: None }, g(0.0));
    let family = |v: f64| MetricFamily {
        name: Some("m".to_string()),
        help: None,
        metric_type: Some(METRIC_TYPE_GAUGE),
        metric: vec![Metric {
            label: vec![LabelPair { name: Some("k".to_string()), value: Some("v".to_string()) }],
            gauge: Some(g(v)),
            counter: None,
            summary: None,
            histogram: None,
        }],
    };
    assert_eq!(family(0.0), family(-0.0));
    assert_ne!(family(f64::NAN), family(f64::NAN));
    let mut other = family(1.0);
    other.metric[0].label[0].value = Some("w".to_string());
    assert_ne!(other, family(1.0));
}
