//! The Prometheus exposition messages (`io.prometheus.client`) and their
//! Protocol Buffers encoding. Floating-point fields hold IEEE-754 bit patterns.
use vstd::prelude::*;
use vstd::std_specs::cmp::{PartialEqSpec, PartialEqSpecImpl};
use vstd::utf8::encode_utf8;

use crate::float_bits::{f64_bits_eq, f64_bits_equal};
use crate::wire::{
    decode_varint, lemma_varint_roundtrip, delimited_field, fixed64_field, int32_wire, put_delimited, put_fixed64, put_int32, put_sint32,
    put_sint64, put_string, put_uint32, put_uint64, put_varint, varint, varint_field, zigzag,
    MAX_TAG,
};

verus! {

/// Metric type of a family: counter.
pub const METRIC_TYPE_COUNTER: i32 = 0;

/// Metric type of a family: gauge.
pub const METRIC_TYPE_GAUGE: i32 = 1;

/// Metric type of a family: summary.
pub const METRIC_TYPE_SUMMARY: i32 = 2;

/// Metric type of a family: histogram.
pub const METRIC_TYPE_HISTOGRAM: i32 = 4;

/// A label name and value.
#[derive(Clone, Debug)]
pub struct LabelPair {
    pub name: Option<String>,
    pub value: Option<String>,
}

/// A gauge sample; `value` is the bit pattern of a `double`.
#[derive(Clone, Copy, Debug)]
pub struct Gauge {
    pub value: Option<u64>,
}

/// A counter sample; `value` is the bit pattern of a `double`.
#[derive(Clone, Copy, Debug)]
pub struct Counter {
    pub value: Option<u64>,
}

/// A summary quantile and its value, both bit patterns of `double`s.
#[derive(Clone, Copy, Debug)]
pub struct Quantile {
    pub quantile: Option<u64>,
    pub value: Option<u64>,
}

/// A summary: observation count, sum (bits of a `double`) and quantiles.
#[derive(Clone, Debug)]
pub struct Summary {
    pub sample_count: Option<u64>,
    pub sample_sum: Option<u64>,
    pub quantile: Vec<Quantile>,
}

/// A classic histogram bucket: cumulative count up to an upper bound (bits of a `double`).
#[derive(Clone, Copy, Debug)]
pub struct Bucket {
    pub cumulative_count: Option<u64>,
    pub upper_bound: Option<u64>,
}

/// A run of consecutive native-histogram buckets.
#[derive(Clone, Copy, Debug)]
pub struct BucketSpan {
    /// Gap to the previous span, or the starting index for the first span.
    pub offset: Option<i32>,
    /// Number of consecutive buckets in the span.
    pub length: Option<u32>,
}

/// A histogram with classic buckets, native (exponential) buckets, or both.
#[derive(Clone, Debug)]
pub struct Histogram {
    pub sample_count: Option<u64>,
    pub sample_sum: Option<u64>,
    pub bucket: Vec<Bucket>,
    pub schema: Option<i32>,
    pub zero_threshold: Option<u64>,
    pub zero_count: Option<u64>,
    pub negative_span: Vec<BucketSpan>,
    pub negative_delta: Vec<i64>,
    pub positive_span: Vec<BucketSpan>,
    pub positive_delta: Vec<i64>,
}

/// One labelled series of a family.
#[derive(Clone, Debug)]
pub struct Metric {
    pub label: Vec<LabelPair>,
    pub gauge: Option<Gauge>,
    pub counter: Option<Counter>,
    pub summary: Option<Summary>,
    pub histogram: Option<Histogram>,
}

/// All series of one metric name.
#[derive(Clone, Debug)]
pub struct MetricFamily {
    pub name: Option<String>,
    pub help: Option<String>,
    pub metric_type: Option<i32>,
    pub metric: Vec<Metric>,
}

/// Abstract label pair: the characters of the name and value.
pub struct LabelPairV {
    pub name: Option<Seq<char>>,
    pub value: Option<Seq<char>>,
}

/// Abstract summary.
pub struct SummaryV {
    pub sample_count: Option<u64>,
    pub sample_sum: Option<u64>,
    pub quantile: Seq<Quantile>,
}

/// Abstract histogram.
pub struct HistogramV {
    pub sample_count: Option<u64>,
    pub sample_sum: Option<u64>,
    pub bucket: Seq<Bucket>,
    pub schema: Option<i32>,
    pub zero_threshold: Option<u64>,
    pub zero_count: Option<u64>,
    pub negative_span: Seq<BucketSpan>,
    pub negative_delta: Seq<i64>,
    pub positive_span: Seq<BucketSpan>,
    pub positive_delta: Seq<i64>,
}

/// Abstract metric.
pub struct MetricV {
    pub label: Seq<LabelPairV>,
    pub gauge: Option<Gauge>,
    pub counter: Option<Counter>,
    pub summary: Option<SummaryV>,
    pub histogram: Option<HistogramV>,
}

/// Abstract metric family.
pub struct MetricFamilyV {
    pub name: Option<Seq<char>>,
    pub help: Option<Seq<char>>,
    pub metric_type: Option<i32>,
    pub metric: Seq<MetricV>,
}

pub open spec fn opt_chars(s: Option<String>) -> Option<Seq<char>> {
    match s {
        Some(x) => Some(x@),
        None => None,
    }
}

impl View for LabelPair {
    type V = LabelPairV;

    open spec fn view(&self) -> LabelPairV {
        LabelPairV { name: opt_chars(self.name), value: opt_chars(self.value) }
    }
}

impl View for Summary {
    type V = SummaryV;

    open spec fn view(&self) -> SummaryV {
        SummaryV {
            sample_count: self.sample_count,
            sample_sum: self.sample_sum,
            quantile: self.quantile@,
        }
    }
}

impl View for Histogram {
    type V = HistogramV;

    open spec fn view(&self) -> HistogramV {
        HistogramV {
            sample_count: self.sample_count,
            sample_sum: self.sample_sum,
            bucket: self.bucket@,
            schema: self.schema,
            zero_threshold: self.zero_threshold,
            zero_count: self.zero_count,
            negative_span: self.negative_span@,
            negative_delta: self.negative_delta@,
            positive_span: self.positive_span@,
            positive_delta: self.positive_delta@,
        }
    }
}

pub open spec fn opt_summary_view(s: Option<Summary>) -> Option<SummaryV> {
    match s {
        Some(x) => Some(x@),
        None => None,
    }
}

pub open spec fn opt_histogram_view(h: Option<Histogram>) -> Option<HistogramV> {
    match h {
        Some(x) => Some(x@),
        None => None,
    }
}

impl View for Metric {
    type V = MetricV;

    open spec fn view(&self) -> MetricV {
        MetricV {
            label: label_views(self.label@),
            gauge: self.gauge,
            counter: self.counter,
            summary: opt_summary_view(self.summary),
            histogram: opt_histogram_view(self.histogram),
        }
    }
}

/// Optional doubles (given by bit patterns) compare equal: both absent, or
/// both present and equal as doubles.
pub open spec fn opt_f64_eq(a: Option<u64>, b: Option<u64>) -> bool {
    match (a, b) {
        (None, None) => true,
        (Some(x), Some(y)) => f64_bits_eq(x, y),
        _ => false,
    }
}

fn opt_f64_equal(a: Option<u64>, b: Option<u64>) -> (r: bool)
    ensures
        r == opt_f64_eq(a, b),
{
    match (a, b) {
        (None, None) => true,
        (Some(x), Some(y)) => f64_bits_equal(x, y),
        _ => false,
    }
}

fn opt_string_equal(a: &Option<String>, b: &Option<String>) -> (r: bool)
    ensures
        r == (opt_chars(*a) == opt_chars(*b)),
{
    match (a, b) {
        (None, None) => true,
        (Some(x), Some(y)) => x.eq(y),
        _ => false,
    }
}

impl PartialEq for LabelPair {
    fn eq(&self, other: &Self) -> (r: bool) {
        opt_string_equal(&self.name, &other.name) && opt_string_equal(&self.value, &other.value)
    }
}

impl PartialEqSpecImpl for LabelPair {
    open spec fn obeys_eq_spec() -> bool {
        true
    }

    open spec fn eq_spec(&self, other: &Self) -> bool {
        opt_chars(self.name) == opt_chars(other.name) && opt_chars(self.value) == opt_chars(
            other.value,
        )
    }
}

impl PartialEq for Gauge {
    fn eq(&self, other: &Self) -> (r: bool) {
        opt_f64_equal(self.value, other.value)
    }
}

impl PartialEqSpecImpl for Gauge {
    open spec fn obeys_eq_spec() -> bool {
        true
    }

    open spec fn eq_spec(&self, other: &Self) -> bool {
        opt_f64_eq(self.value, other.value)
    }
}

impl PartialEq for Counter {
    fn eq(&self, other: &Self) -> (r: bool) {
        opt_f64_equal(self.value, other.value)
    }
}

impl PartialEqSpecImpl for Counter {
    open spec fn obeys_eq_spec() -> bool {
        true
    }

    open spec fn eq_spec(&self, other: &Self) -> bool {
        opt_f64_eq(self.value, other.value)
    }
}

impl PartialEq for Quantile {
    fn eq(&self, other: &Self) -> (r: bool) {
        opt_f64_equal(self.quantile, other.quantile) && opt_f64_equal(self.value, other.value)
    }
}

impl PartialEqSpecImpl for Quantile {
    open spec fn obeys_eq_spec() -> bool {
        true
    }

    open spec fn eq_spec(&self, other: &Self) -> bool {
        opt_f64_eq(self.quantile, other.quantile) && opt_f64_eq(self.value, other.value)
    }
}

impl PartialEq for Bucket {
    fn eq(&self, other: &Self) -> (r: bool) {
        self.cumulative_count == other.cumulative_count && opt_f64_equal(
            self.upper_bound,
            other.upper_bound,
        )
    }
}

impl PartialEqSpecImpl for Bucket {
    open spec fn obeys_eq_spec() -> bool {
        true
    }

    open spec fn eq_spec(&self, other: &Self) -> bool {
        self.cumulative_count == other.cumulative_count && opt_f64_eq(
            self.upper_bound,
            other.upper_bound,
        )
    }
}

impl PartialEq for BucketSpan {
    fn eq(&self, other: &Self) -> (r: bool) {
        self.offset == other.offset && self.length == other.length
    }
}

impl PartialEqSpecImpl for BucketSpan {
    open spec fn obeys_eq_spec() -> bool {
        true
    }

    open spec fn eq_spec(&self, other: &Self) -> bool {
        self.offset == other.offset && self.length == other.length
    }
}

impl PartialEq for Summary {
    fn eq(&self, other: &Self) -> (r: bool) {
        self.sample_count == other.sample_count && opt_f64_equal(
            self.sample_sum,
            other.sample_sum,
        ) && self.quantile == other.quantile
    }
}

impl PartialEqSpecImpl for Summary {
    open spec fn obeys_eq_spec() -> bool {
        true
    }

    open spec fn eq_spec(&self, other: &Self) -> bool {
        self.sample_count == other.sample_count && opt_f64_eq(self.sample_sum, other.sample_sum)
            && PartialEqSpec::eq_spec(&self.quantile, &other.quantile)
    }
}

impl PartialEq for Histogram {
    fn eq(&self, other: &Self) -> (r: bool) {
        self.sample_count == other.sample_count && opt_f64_equal(
            self.sample_sum,
            other.sample_sum,
        ) && self.bucket == other.bucket && self.schema == other.schema && opt_f64_equal(
            self.zero_threshold,
            other.zero_threshold,
        ) && self.zero_count == other.zero_count && self.negative_span == other.negative_span
            && self.negative_delta == other.negative_delta && self.positive_span
            == other.positive_span && self.positive_delta == other.positive_delta
    }
}

impl PartialEqSpecImpl for Histogram {
    open spec fn obeys_eq_spec() -> bool {
        true
    }

    open spec fn eq_spec(&self, other: &Self) -> bool {
        &&& self.sample_count == other.sample_count
        &&& opt_f64_eq(self.sample_sum, other.sample_sum)
        &&& PartialEqSpec::eq_spec(&self.bucket, &other.bucket)
        &&& self.schema == other.schema
        &&& opt_f64_eq(self.zero_threshold, other.zero_threshold)
        &&& self.zero_count == other.zero_count
        &&& PartialEqSpec::eq_spec(&self.negative_span, &other.negative_span)
        &&& PartialEqSpec::eq_spec(&self.negative_delta, &other.negative_delta)
        &&& PartialEqSpec::eq_spec(&self.positive_span, &other.positive_span)
        &&& PartialEqSpec::eq_spec(&self.positive_delta, &other.positive_delta)
    }
}

impl PartialEq for Metric {
    fn eq(&self, other: &Self) -> (r: bool) {
        self.label == other.label && self.gauge == other.gauge && self.counter == other.counter
            && self.summary == other.summary && self.histogram == other.histogram
    }
}

impl PartialEqSpecImpl for Metric {
    open spec fn obeys_eq_spec() -> bool {
        true
    }

    open spec fn eq_spec(&self, other: &Self) -> bool {
        &&& PartialEqSpec::eq_spec(&self.label, &other.label)
        &&& PartialEqSpec::eq_spec(&self.gauge, &other.gauge)
        &&& PartialEqSpec::eq_spec(&self.counter, &other.counter)
        &&& PartialEqSpec::eq_spec(&self.summary, &other.summary)
        &&& PartialEqSpec::eq_spec(&self.histogram, &other.histogram)
    }
}

impl PartialEq for MetricFamily {
    fn eq(&self, other: &Self) -> (r: bool) {
        opt_string_equal(&self.name, &other.name) && opt_string_equal(&self.help, &other.help)
            && self.metric_type == other.metric_type && self.metric == other.metric
    }
}

impl PartialEqSpecImpl for MetricFamily {
    open spec fn obeys_eq_spec() -> bool {
        true
    }

    open spec fn eq_spec(&self, other: &Self) -> bool {
        &&& opt_chars(self.name) == opt_chars(other.name)
        &&& opt_chars(self.help) == opt_chars(other.help)
        &&& self.metric_type == other.metric_type
        &&& PartialEqSpec::eq_spec(&self.metric, &other.metric)
    }
}

/// The abstract values of label pairs.
pub open spec fn label_views(s: Seq<LabelPair>) -> Seq<LabelPairV> {
    s.map_values(|l: LabelPair| l@)
}

/// The abstract values of metrics.
pub open spec fn metric_views(s: Seq<Metric>) -> Seq<MetricV> {
    s.map_values(|m: Metric| m@)
}

impl View for MetricFamily {
    type V = MetricFamilyV;

    open spec fn view(&self) -> MetricFamilyV {
        MetricFamilyV {
            name: opt_chars(self.name),
            help: opt_chars(self.help),
            metric_type: self.metric_type,
            metric: metric_views(self.metric@),
        }
    }
}

/// The encodings of `items`, one after another.
pub open spec fn concat_map<T>(items: Seq<T>, f: spec_fn(T) -> Seq<u8>) -> Seq<u8>
    decreases items.len(),
{
    if items.len() == 0 {
        seq![]
    } else {
        concat_map(items.drop_last(), f) + f(items.last())
    }
}

pub open spec fn opt_double(tag: nat, v: Option<u64>) -> Seq<u8> {
    match v {
        Some(w) => fixed64_field(tag, w),
        None => seq![],
    }
}

pub open spec fn opt_uint64(tag: nat, v: Option<u64>) -> Seq<u8> {
    match v {
        Some(x) => varint_field(tag, x as nat),
        None => seq![],
    }
}

pub open spec fn opt_uint32(tag: nat, v: Option<u32>) -> Seq<u8> {
    match v {
        Some(x) => varint_field(tag, x as nat),
        None => seq![],
    }
}

pub open spec fn opt_sint32(tag: nat, v: Option<i32>) -> Seq<u8> {
    match v {
        Some(x) => varint_field(tag, zigzag(x as int)),
        None => seq![],
    }
}

pub open spec fn opt_int32(tag: nat, v: Option<i32>) -> Seq<u8> {
    match v {
        Some(x) => varint_field(tag, int32_wire(x)),
        None => seq![],
    }
}

pub open spec fn opt_string(tag: nat, v: Option<Seq<char>>) -> Seq<u8> {
    match v {
        Some(s) => delimited_field(tag, encode_utf8(s)),
        None => seq![],
    }
}

/// `LabelPair`: name = 1, value = 2.
pub open spec fn label_pair_bytes(l: LabelPairV) -> Seq<u8> {
    opt_string(1, l.name) + opt_string(2, l.value)
}

/// `Gauge`: value = 1 (double).
pub open spec fn gauge_bytes(g: Gauge) -> Seq<u8> {
    opt_double(1, g.value)
}

/// `Counter`: value = 1 (double).
pub open spec fn counter_bytes(c: Counter) -> Seq<u8> {
    opt_double(1, c.value)
}

/// `Quantile`: quantile = 1, value = 2 (doubles).
pub open spec fn quantile_bytes(q: Quantile) -> Seq<u8> {
    opt_double(1, q.quantile) + opt_double(2, q.value)
}

/// `Bucket`: cumulative_count = 1, upper_bound = 2 (double).
pub open spec fn bucket_bytes(b: Bucket) -> Seq<u8> {
    opt_uint64(1, b.cumulative_count) + opt_double(2, b.upper_bound)
}

/// `BucketSpan`: offset = 1 (sint32), length = 2 (uint32).
pub open spec fn span_bytes(s: BucketSpan) -> Seq<u8> {
    opt_sint32(1, s.offset) + opt_uint32(2, s.length)
}


/// Each span as an embedded message in field `tag`.
pub open spec fn span_field(tag: nat) -> spec_fn(BucketSpan) -> Seq<u8> {
    |s: BucketSpan| delimited_field(tag, span_bytes(s))
}

/// Each delta as an unpacked `sint64` in field `tag`.
pub open spec fn delta_field(tag: nat) -> spec_fn(i64) -> Seq<u8> {
    |d: i64| varint_field(tag, zigzag(d as int))
}

/// Each bucket as an embedded message in field 3.
pub open spec fn bucket_field() -> spec_fn(Bucket) -> Seq<u8> {
    |b: Bucket| delimited_field(3, bucket_bytes(b))
}

/// Each quantile as an embedded message in field 3.
pub open spec fn quantile_field() -> spec_fn(Quantile) -> Seq<u8> {
    |q: Quantile| delimited_field(3, quantile_bytes(q))
}

/// Each label pair as an embedded message in field 1.
pub open spec fn label_field() -> spec_fn(LabelPairV) -> Seq<u8> {
    |l: LabelPairV| delimited_field(1, label_pair_bytes(l))
}

/// Each metric as an embedded message in field 4.
pub open spec fn metric_field() -> spec_fn(MetricV) -> Seq<u8> {
    |m: MetricV| delimited_field(4, metric_bytes(m))
}

/// `Summary`: sample_count = 1, sample_sum = 2 (double), quantile = 3.
pub open spec fn summary_bytes(s: SummaryV) -> Seq<u8> {
    opt_uint64(1, s.sample_count) + opt_double(2, s.sample_sum) + concat_map(
        s.quantile,
        quantile_field(),
    )
}

/// `Histogram`: sample_count = 1, sample_sum = 2, bucket = 3, schema = 5
/// (sint32), zero_threshold = 6, zero_count = 7, negative_span = 9,
/// negative_delta = 10 (sint64, unpacked), positive_span = 12, positive_delta = 13.
pub open spec fn histogram_bytes(h: HistogramV) -> Seq<u8> {
    opt_uint64(1, h.sample_count) + opt_double(2, h.sample_sum) + concat_map(
        h.bucket,
        bucket_field(),
    ) + opt_sint32(5, h.schema) + opt_double(6, h.zero_threshold) + opt_uint64(7, h.zero_count)
        + concat_map(h.negative_span, span_field(9)) + concat_map(
        h.negative_delta,
        delta_field(10),
    ) + concat_map(h.positive_span, span_field(12)) + concat_map(
        h.positive_delta,
        delta_field(13),
    )
}

/// `Metric`: label = 1, gauge = 2, counter = 3, summary = 4, histogram = 7.
pub open spec fn metric_bytes(m: MetricV) -> Seq<u8> {
    concat_map(m.label, label_field()) + match m.gauge {
        Some(g) => delimited_field(2, gauge_bytes(g)),
        None => seq![],
    } + match m.counter {
        Some(c) => delimited_field(3, counter_bytes(c)),
        None => seq![],
    } + match m.summary {
        Some(s) => delimited_field(4, summary_bytes(s)),
        None => seq![],
    } + match m.histogram {
        Some(h) => delimited_field(7, histogram_bytes(h)),
        None => seq![],
    }
}

/// `MetricFamily`: name = 1, help = 2, type = 3 (enum), metric = 4.
pub open spec fn family_bytes(f: MetricFamilyV) -> Seq<u8> {
    opt_string(1, f.name) + opt_string(2, f.help) + opt_int32(3, f.metric_type) + concat_map(
        f.metric,
        metric_field(),
    )
}

/// A family preceded by its length as a varint, as in a delimited stream.
pub open spec fn family_delimited(f: MetricFamilyV) -> Seq<u8> {
    varint(family_bytes(f).len()) + family_bytes(f)
}

pub(crate) proof fn lemma_concat_map_take<T>(items: Seq<T>, f: spec_fn(T) -> Seq<u8>, i: int)
    requires
        0 <= i < items.len(),
    ensures
        concat_map(items.take(i + 1), f) == concat_map(items.take(i), f) + f(items[i]),
        concat_map(items.take(i + 1), f).len() <= concat_map(items, f).len(),
{
    assert(items.take(i + 1).drop_last() =~= items.take(i));
    lemma_concat_map_len_mono(items, f, i + 1);
}

proof fn lemma_concat_map_len_mono<T>(items: Seq<T>, f: spec_fn(T) -> Seq<u8>, i: int)
    requires
        0 <= i <= items.len(),
    ensures
        concat_map(items.take(i), f).len() <= concat_map(items, f).len(),
    decreases items.len(),
{
    if i == items.len() {
        assert(items.take(i) =~= items);
    } else {
        assert(items.drop_last().take(i) =~= items.take(i));
        lemma_concat_map_len_mono(items.drop_last(), f, i);
    }
}

pub(crate) proof fn lemma_concat_map_all<T>(items: Seq<T>, f: spec_fn(T) -> Seq<u8>)
    ensures
        concat_map(items.take(items.len() as int), f) == concat_map(items, f),
{
    assert(items.take(items.len() as int) =~= items);
}

fn put_opt_double(tag: u32, v: Option<u64>, buf: &mut Vec<u8>)
    requires
        1 <= tag <= MAX_TAG,
        old(buf)@.len() + opt_double(tag as nat, v).len() <= isize::MAX,
    ensures
        final(buf)@ == old(buf)@ + opt_double(tag as nat, v),
{
    match v {
        Some(w) => put_fixed64(tag, w, buf),
        None => {
            assert(buf@ =~= buf@ + Seq::<u8>::empty());
        },
    }
}

fn put_opt_uint64(tag: u32, v: Option<u64>, buf: &mut Vec<u8>)
    requires
        1 <= tag <= MAX_TAG,
        old(buf)@.len() + opt_uint64(tag as nat, v).len() <= isize::MAX,
    ensures
        final(buf)@ == old(buf)@ + opt_uint64(tag as nat, v),
{
    match v {
        Some(x) => put_uint64(tag, x, buf),
        None => {
            assert(buf@ =~= buf@ + Seq::<u8>::empty());
        },
    }
}

fn put_opt_uint32(tag: u32, v: Option<u32>, buf: &mut Vec<u8>)
    requires
        1 <= tag <= MAX_TAG,
        old(buf)@.len() + opt_uint32(tag as nat, v).len() <= isize::MAX,
    ensures
        final(buf)@ == old(buf)@ + opt_uint32(tag as nat, v),
{
    match v {
        Some(x) => put_uint32(tag, x, buf),
        None => {
            assert(buf@ =~= buf@ + Seq::<u8>::empty());
        },
    }
}

fn put_opt_sint32(tag: u32, v: Option<i32>, buf: &mut Vec<u8>)
    requires
        1 <= tag <= MAX_TAG,
        old(buf)@.len() + opt_sint32(tag as nat, v).len() <= isize::MAX,
    ensures
        final(buf)@ == old(buf)@ + opt_sint32(tag as nat, v),
{
    match v {
        Some(x) => put_sint32(tag, x, buf),
        None => {
            assert(buf@ =~= buf@ + Seq::<u8>::empty());
        },
    }
}

fn put_opt_int32(tag: u32, v: Option<i32>, buf: &mut Vec<u8>)
    requires
        1 <= tag <= MAX_TAG,
        old(buf)@.len() + opt_int32(tag as nat, v).len() <= isize::MAX,
    ensures
        final(buf)@ == old(buf)@ + opt_int32(tag as nat, v),
{
    match v {
        Some(x) => put_int32(tag, x, buf),
        None => {
            assert(buf@ =~= buf@ + Seq::<u8>::empty());
        },
    }
}

fn put_opt_string(tag: u32, v: &Option<String>, buf: &mut Vec<u8>)
    requires
        1 <= tag <= MAX_TAG,
        old(buf)@.len() + opt_string(tag as nat, opt_chars(*v)).len() <= isize::MAX,
    ensures
        final(buf)@ == old(buf)@ + opt_string(tag as nat, opt_chars(*v)),
{
    match v {
        Some(x) => put_string(tag, x, buf),
        None => {
            assert(buf@ =~= buf@ + Seq::<u8>::empty());
        },
    }
}

/// Encodes a label pair.
pub fn encode_label_pair(l: &LabelPair) -> (out: Vec<u8>)
    requires
        label_pair_bytes(l@).len() <= isize::MAX,
    ensures
        out@ == label_pair_bytes(l@),
{
    let mut out = Vec::new();
    put_opt_string(1, &l.name, &mut out);
    put_opt_string(2, &l.value, &mut out);
    assert(out@ =~= label_pair_bytes(l@));
    out
}

/// Encodes a quantile.
pub fn encode_quantile(q: &Quantile) -> (out: Vec<u8>)
    requires
        quantile_bytes(*q).len() <= isize::MAX,
    ensures
        out@ == quantile_bytes(*q),
{
    let mut out = Vec::new();
    put_opt_double(1, q.quantile, &mut out);
    put_opt_double(2, q.value, &mut out);
    assert(out@ =~= quantile_bytes(*q));
    out
}

/// Encodes a classic bucket.
pub fn encode_bucket(b: &Bucket) -> (out: Vec<u8>)
    requires
        bucket_bytes(*b).len() <= isize::MAX,
    ensures
        out@ == bucket_bytes(*b),
{
    let mut out = Vec::new();
    put_opt_uint64(1, b.cumulative_count, &mut out);
    put_opt_double(2, b.upper_bound, &mut out);
    assert(out@ =~= bucket_bytes(*b));
    out
}

/// Encodes a bucket span.
pub fn encode_span(s: &BucketSpan) -> (out: Vec<u8>)
    requires
        span_bytes(*s).len() <= isize::MAX,
    ensures
        out@ == span_bytes(*s),
{
    let mut out = Vec::new();
    put_opt_sint32(1, s.offset, &mut out);
    put_opt_uint32(2, s.length, &mut out);
    assert(out@ =~= span_bytes(*s));
    out
}


fn put_spans(tag: u32, items: &Vec<BucketSpan>, buf: &mut Vec<u8>)
    requires
        1 <= tag <= MAX_TAG,
        old(buf)@.len() + concat_map(items@, span_field(tag as nat)).len() <= isize::MAX,
    ensures
        final(buf)@ == old(buf)@ + concat_map(items@, span_field(tag as nat)),
{
    let ghost start = buf@;
    let mut i: usize = 0;
    while i < items.len()
        invariant
            0 <= i <= items.len(),
            1 <= tag <= MAX_TAG,
            buf@ == start + concat_map(items@.take(i as int), span_field(tag as nat)),
            start.len() + concat_map(items@, span_field(tag as nat)).len() <= isize::MAX,
        decreases items.len() - i,
    {
        proof {
            lemma_concat_map_take(items@, span_field(tag as nat), i as int);
        }
        let enc = encode_span(&items[i]);
        put_delimited(tag, &enc, buf);
        proof {
            assert(buf@ =~= start + concat_map(items@.take(i + 1), span_field(tag as nat)));
        }
        i += 1;
    }
    proof {
        lemma_concat_map_all(items@, span_field(tag as nat));
    }
}

fn put_deltas(tag: u32, items: &Vec<i64>, buf: &mut Vec<u8>)
    requires
        1 <= tag <= MAX_TAG,
        old(buf)@.len() + concat_map(items@, delta_field(tag as nat)).len() <= isize::MAX,
    ensures
        final(buf)@ == old(buf)@ + concat_map(items@, delta_field(tag as nat)),
{
    let ghost start = buf@;
    let mut i: usize = 0;
    while i < items.len()
        invariant
            0 <= i <= items.len(),
            1 <= tag <= MAX_TAG,
            buf@ == start + concat_map(items@.take(i as int), delta_field(tag as nat)),
            start.len() + concat_map(items@, delta_field(tag as nat)).len() <= isize::MAX,
        decreases items.len() - i,
    {
        proof {
            lemma_concat_map_take(items@, delta_field(tag as nat), i as int);
        }
        put_sint64(tag, items[i], buf);
        proof {
            assert(buf@ =~= start + concat_map(items@.take(i + 1), delta_field(tag as nat)));
        }
        i += 1;
    }
    proof {
        lemma_concat_map_all(items@, delta_field(tag as nat));
    }
}

fn put_buckets(items: &Vec<Bucket>, buf: &mut Vec<u8>)
    requires
        old(buf)@.len() + concat_map(items@, bucket_field()).len() <= isize::MAX,
    ensures
        final(buf)@ == old(buf)@ + concat_map(items@, bucket_field()),
{
    let ghost start = buf@;
    let mut i: usize = 0;
    while i < items.len()
        invariant
            0 <= i <= items.len(),
            buf@ == start + concat_map(items@.take(i as int), bucket_field()),
            start.len() + concat_map(items@, bucket_field()).len() <= isize::MAX,
        decreases items.len() - i,
    {
        proof {
            lemma_concat_map_take(items@, bucket_field(), i as int);
        }
        let enc = encode_bucket(&items[i]);
        put_delimited(3, &enc, buf);
        proof {
            assert(buf@ =~= start + concat_map(items@.take(i + 1), bucket_field()));
        }
        i += 1;
    }
    proof {
        lemma_concat_map_all(items@, bucket_field());
    }
}

fn put_quantiles(items: &Vec<Quantile>, buf: &mut Vec<u8>)
    requires
        old(buf)@.len() + concat_map(items@, quantile_field()).len() <= isize::MAX,
    ensures
        final(buf)@ == old(buf)@ + concat_map(items@, quantile_field()),
{
    let ghost start = buf@;
    let mut i: usize = 0;
    while i < items.len()
        invariant
            0 <= i <= items.len(),
            buf@ == start + concat_map(items@.take(i as int), quantile_field()),
            start.len() + concat_map(items@, quantile_field()).len() <= isize::MAX,
        decreases items.len() - i,
    {
        proof {
            lemma_concat_map_take(items@, quantile_field(), i as int);
        }
        let enc = encode_quantile(&items[i]);
        put_delimited(3, &enc, buf);
        proof {
            assert(buf@ =~= start + concat_map(items@.take(i + 1), quantile_field()));
        }
        i += 1;
    }
    proof {
        lemma_concat_map_all(items@, quantile_field());
    }
}

fn put_labels(items: &Vec<LabelPair>, buf: &mut Vec<u8>)
    requires
        old(buf)@.len() + concat_map(label_views(items@), label_field()).len() <= isize::MAX,
    ensures
        final(buf)@ == old(buf)@ + concat_map(label_views(items@), label_field()),
{
    let ghost start = buf@;
    let mut i: usize = 0;
    while i < items.len()
        invariant
            0 <= i <= items.len(),
            buf@ == start + concat_map(label_views(items@).take(i as int), label_field()),
            start.len() + concat_map(label_views(items@), label_field()).len() <= isize::MAX,
        decreases items.len() - i,
    {
        proof {
            lemma_concat_map_take(label_views(items@), label_field(), i as int);
        }
        let enc = encode_label_pair(&items[i]);
        put_delimited(1, &enc, buf);
        proof {
            assert(buf@ =~= start + concat_map(label_views(items@).take(i + 1), label_field()));
        }
        i += 1;
    }
    proof {
        lemma_concat_map_all(label_views(items@), label_field());
    }
}

fn put_metrics(items: &Vec<Metric>, buf: &mut Vec<u8>)
    requires
        old(buf)@.len() + concat_map(metric_views(items@), metric_field()).len() <= isize::MAX,
    ensures
        final(buf)@ == old(buf)@ + concat_map(metric_views(items@), metric_field()),
{
    let ghost start = buf@;
    let mut i: usize = 0;
    while i < items.len()
        invariant
            0 <= i <= items.len(),
            buf@ == start + concat_map(metric_views(items@).take(i as int), metric_field()),
            start.len() + concat_map(metric_views(items@), metric_field()).len() <= isize::MAX,
        decreases items.len() - i,
    {
        proof {
            lemma_concat_map_take(metric_views(items@), metric_field(), i as int);
        }
        let enc = encode_metric(&items[i]);
        put_delimited(4, &enc, buf);
        proof {
            assert(buf@ =~= start + concat_map(metric_views(items@).take(i + 1), metric_field()));
        }
        i += 1;
    }
    proof {
        lemma_concat_map_all(metric_views(items@), metric_field());
    }
}

/// Encodes a summary.
pub fn encode_summary(sm: &Summary) -> (out: Vec<u8>)
    requires
        summary_bytes(sm@).len() <= isize::MAX,
    ensures
        out@ == summary_bytes(sm@),
{
    let mut out = Vec::new();
    put_opt_uint64(1, sm.sample_count, &mut out);
    put_opt_double(2, sm.sample_sum, &mut out);
    put_quantiles(&sm.quantile, &mut out);
    assert(out@ =~= summary_bytes(sm@));
    out
}

/// Encodes a histogram.
pub fn encode_histogram(h: &Histogram) -> (out: Vec<u8>)
    requires
        histogram_bytes(h@).len() <= isize::MAX,
    ensures
        out@ == histogram_bytes(h@),
{
    let mut out = Vec::new();
    put_opt_uint64(1, h.sample_count, &mut out);
    put_opt_double(2, h.sample_sum, &mut out);
    put_buckets(&h.bucket, &mut out);
    put_opt_sint32(5, h.schema, &mut out);
    put_opt_double(6, h.zero_threshold, &mut out);
    put_opt_uint64(7, h.zero_count, &mut out);
    put_spans(9, &h.negative_span, &mut out);
    put_deltas(10, &h.negative_delta, &mut out);
    put_spans(12, &h.positive_span, &mut out);
    put_deltas(13, &h.positive_delta, &mut out);
    assert(out@ =~= histogram_bytes(h@));
    out
}

/// Encodes a metric.
pub fn encode_metric(m: &Metric) -> (out: Vec<u8>)
    requires
        metric_bytes(m@).len() <= isize::MAX,
    ensures
        out@ == metric_bytes(m@),
{
    let mut out = Vec::new();
    put_labels(&m.label, &mut out);
    match &m.gauge {
        Some(g) => {
            let mut enc = Vec::new();
            put_opt_double(1, g.value, &mut enc);
            assert(enc@ =~= gauge_bytes(*g));
            put_delimited(2, &enc, &mut out);
        },
        None => {
            assert(out@ =~= out@ + Seq::<u8>::empty());
        },
    }
    match &m.counter {
        Some(c) => {
            let mut enc = Vec::new();
            put_opt_double(1, c.value, &mut enc);
            assert(enc@ =~= counter_bytes(*c));
            put_delimited(3, &enc, &mut out);
        },
        None => {
            assert(out@ =~= out@ + Seq::<u8>::empty());
        },
    }
    match &m.summary {
        Some(sm) => {
            let enc = encode_summary(sm);
            put_delimited(4, &enc, &mut out);
        },
        None => {
            assert(out@ =~= out@ + Seq::<u8>::empty());
        },
    }
    match &m.histogram {
        Some(h) => {
            let enc = encode_histogram(h);
            put_delimited(7, &enc, &mut out);
        },
        None => {
            assert(out@ =~= out@ + Seq::<u8>::empty());
        },
    }
    assert(out@ =~= metric_bytes(m@));
    out
}

/// Encodes a metric family.
pub fn encode_family(f: &MetricFamily) -> (out: Vec<u8>)
    requires
        family_bytes(f@).len() <= isize::MAX,
    ensures
        out@ == family_bytes(f@),
{
    let mut out = Vec::new();
    put_opt_string(1, &f.name, &mut out);
    put_opt_string(2, &f.help, &mut out);
    put_opt_int32(3, f.metric_type, &mut out);
    put_metrics(&f.metric, &mut out);
    assert(out@ =~= family_bytes(f@));
    out
}

/// Appends a metric family preceded by its length, as `encode_length_delimited` does.
pub fn encode_family_delimited(f: &MetricFamily, buf: &mut Vec<u8>)
    requires
        old(buf)@.len() + family_delimited(f@).len() <= isize::MAX,
    ensures
        final(buf)@ == old(buf)@ + family_delimited(f@),
{
    let enc = encode_family(f);
    let len = enc.len();
    put_varint(len as u64, buf);
    let ghost mid = buf@;
    let mut i: usize = 0;
    while i < len
        invariant
            0 <= i <= len,
            len == enc@.len(),
            buf@ == mid + enc@.take(i as int),
            mid.len() + enc@.len() <= isize::MAX,
        decreases len - i,
    {
        buf.push(enc[i]);
        assert(enc@.take(i + 1) =~= enc@.take(i as int).push(enc@[i as int]));
        i += 1;
    }
    assert(enc@.take(len as int) =~= enc@);
    assert(final(buf)@ =~= old(buf)@ + family_delimited(f@));
}


/// Splits a stream of length-delimited messages into the messages' bytes;
/// `None` where a length prefix is cut off or overruns the stream.
pub open spec fn split_delimited(b: Seq<u8>) -> Option<Seq<Seq<u8>>>
    decreases b.len(),
{
    if b.len() == 0 {
        Some(seq![])
    } else {
        match decode_varint(b) {
            Some((len, n)) => if n >= 1 && n + len <= b.len() {
                match split_delimited(b.subrange((n + len) as int, b.len() as int)) {
                    Some(rest) => Some(seq![b.subrange(n as int, (n + len) as int)] + rest),
                    None => None,
                }
            } else {
                None
            },
            None => None,
        }
    }
}

/// The lists of `items`, one after another.
pub open spec fn concat_lists<T, U>(items: Seq<T>, g: spec_fn(T) -> Seq<U>) -> Seq<U>
    decreases items.len(),
{
    if items.len() == 0 {
        seq![]
    } else {
        concat_lists(items.drop_last(), g) + g(items.last())
    }
}

/// Where every item gives exactly one element, the list holds, in order, the
/// element of each item.
pub proof fn lemma_concat_singletons<T, U>(items: Seq<T>, g: spec_fn(T) -> Seq<U>)
    requires
        forall|x: T| #[trigger] g(x).len() == 1,
    ensures
        concat_lists(items, g).len() == items.len(),
        forall|i: int| 0 <= i < items.len() ==> #[trigger] concat_lists(items, g)[i] == g(items[i])[0],
    decreases items.len(),
{
    if items.len() > 0 {
        let init = items.drop_last();
        lemma_concat_singletons(init, g);
        assert(g(items.last()).len() == 1);
        assert forall|i: int| 0 <= i < items.len() implies #[trigger] concat_lists(items, g)[i]
            == g(items[i])[0] by {
            if i < items.len() - 1 {
                assert(init[i] == items[i]);
            }
        }
    }
}

/// The encoding of each family, in order.
pub open spec fn families_bytes(fams: Seq<MetricFamilyV>) -> Seq<Seq<u8>> {
    fams.map_values(|m: MetricFamilyV| family_bytes(m))
}

proof fn lemma_decode_varint_prefix(a: Seq<u8>, b: Seq<u8>)
    requires
        decode_varint(a) is Some,
    ensures
        decode_varint(a + b) == decode_varint(a),
    decreases a.len(),
{
    let ab = a + b;
    assert(ab[0] == a[0]);
    if a[0] >= 128 {
        assert(ab.drop_first() =~= a.drop_first() + b);
        lemma_decode_varint_prefix(a.drop_first(), b);
    }
}

proof fn lemma_decode_varint_len(a: Seq<u8>)
    requires
        decode_varint(a) is Some,
    ensures
        1 <= decode_varint(a).unwrap().1 <= a.len(),
    decreases a.len(),
{
    if a[0] >= 128 {
        lemma_decode_varint_len(a.drop_first());
    }
}

/// Splitting a concatenation splits each part.
pub(crate) proof fn lemma_split_append(a: Seq<u8>, b: Seq<u8>)
    requires
        split_delimited(a) is Some,
        split_delimited(b) is Some,
    ensures
        split_delimited(a + b) == Some(split_delimited(a)->0 + split_delimited(b)->0),
    decreases a.len(),
{
    let ab = a + b;
    if a.len() == 0 {
        assert(ab =~= b);
        assert(split_delimited(a)->0 + split_delimited(b)->0 =~= split_delimited(b)->0);
    } else {
        let (len, n) = decode_varint(a)->0;
        lemma_decode_varint_prefix(a, b);
        let tail = a.subrange((n + len) as int, a.len() as int);
        assert(ab.subrange((n + len) as int, ab.len() as int) =~= tail + b);
        assert(ab.subrange(n as int, (n + len) as int) =~= a.subrange(n as int, (n + len) as int));
        lemma_split_append(tail, b);
        assert(seq![a.subrange(n as int, (n + len) as int)] + (split_delimited(tail)->0
            + split_delimited(b)->0) =~= (seq![a.subrange(n as int, (n + len) as int)]
            + split_delimited(tail)->0) + split_delimited(b)->0);
    }
}

/// A single length-delimited family splits into its encoding.
proof fn lemma_split_one(f: MetricFamilyV)
    ensures
        split_delimited(family_delimited(f)) == Some(seq![family_bytes(f)]),
{
    let fb = family_bytes(f);
    let all = family_delimited(f);
    lemma_varint_roundtrip(fb.len(), fb);
    let n = varint(fb.len()).len();
    lemma_decode_varint_len(all);
    assert(all.subrange(n as int, (n + fb.len()) as int) =~= fb);
    let rest = all.subrange((n + fb.len()) as int, all.len() as int);
    assert(rest =~= Seq::<u8>::empty());
    assert(split_delimited(rest) == Some(Seq::<Seq<u8>>::empty()));
    assert(decode_varint(all) == Some((fb.len(), n)));
    assert(all.len() > 0);
    assert(seq![fb] + Seq::<Seq<u8>>::empty() =~= seq![fb]);
}

/// Splitting encodings laid one after another gives their pieces in order.
pub(crate) proof fn lemma_split_concat_map<T>(
    items: Seq<T>,
    f: spec_fn(T) -> Seq<u8>,
    g: spec_fn(T) -> Seq<MetricFamilyV>,
)
    requires
        forall|x: T| #[trigger] split_delimited(f(x)) == Some(families_bytes(g(x))),
    ensures
        split_delimited(concat_map(items, f)) == Some(families_bytes(concat_lists(items, g))),
    decreases items.len(),
{
    if items.len() == 0 {
        assert(families_bytes(concat_lists(items, g)) =~= Seq::<Seq<u8>>::empty());
    } else {
        let init = items.drop_last();
        let last = items.last();
        lemma_split_concat_map(init, f, g);
        assert(split_delimited(f(last)) == Some(families_bytes(g(last))));
        lemma_split_append(concat_map(init, f), f(last));
        lemma_families_bytes_append(concat_lists(init, g), g(last));
    }
}

pub(crate) proof fn lemma_families_bytes_append(a: Seq<MetricFamilyV>, b: Seq<MetricFamilyV>)
    ensures
        families_bytes(a + b) == families_bytes(a) + families_bytes(b),
{
    assert(families_bytes(a + b) =~= families_bytes(a) + families_bytes(b));
}

/// A single family, length-delimited, splits into its own encoding.
pub(crate) proof fn lemma_split_single(f: MetricFamilyV)
    ensures
        split_delimited(family_delimited(f)) == Some(families_bytes(seq![f])),
{
    lemma_split_one(f);
    assert(families_bytes(seq![f]) =~= seq![family_bytes(f)]);
}

/// Nothing splits into no messages.
pub(crate) proof fn lemma_split_empty()
    ensures
        split_delimited(Seq::<u8>::empty()) == Some(families_bytes(Seq::<MetricFamilyV>::empty())),
{
    assert(families_bytes(Seq::<MetricFamilyV>::empty()) =~= Seq::<Seq<u8>>::empty());
}

} // verus!
