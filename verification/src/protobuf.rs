//! Rendering a snapshot of metrics into the Prometheus protobuf exposition
//! format: a stream of `MetricFamily` messages, each preceded by its length.
use std::collections::BTreeMap;
use vstd::prelude::*;
use vstd::string::{StrSliceExecFns, StringExecFns};

use crate::buckets::{delta_seq, entries_fit, entries_fit_exec, layout_of, make_buckets, sorted_entries, span_seq};
use crate::float_bits::{count_to_f64_bits, f64_bits_of_count};
use crate::formatting::{name_with_suffix, opt_str_view, sanitize_metric_name, sanitized_name, str_ends_with};
use crate::pb::{
    concat_lists, lemma_concat_singletons, concat_map, encode_family_delimited, families_bytes, family_delimited,
    lemma_concat_map_all, lemma_families_bytes_append, lemma_split_append, lemma_split_concat_map,
    lemma_split_empty, lemma_split_single, split_delimited,
    lemma_concat_map_take, Bucket, BucketSpan, Counter, Gauge, Histogram, HistogramV, LabelPair,
    LabelPairV, label_views, metric_views, Metric, MetricFamily, MetricFamilyV, MetricV, Quantile, Summary, SummaryV,
    METRIC_TYPE_COUNTER, METRIC_TYPE_GAUGE, METRIC_TYPE_HISTOGRAM, METRIC_TYPE_SUMMARY,
};

verus! {

/// Bit pattern of positive infinity, the upper bound of the implicit last classic bucket.
pub const POSITIVE_INFINITY_BITS: u64 = 0x7FF0_0000_0000_0000;

/// The labels of one series, as name/value pairs in order.
#[derive(Clone, Debug, PartialEq, Eq, Hash)]
pub struct LabelSet {
    pub labels: Vec<(String, String)>,
}

/// A summary: observation count, sum, and `(quantile, value)` pairs; floating
/// values are IEEE-754 bit patterns.
#[derive(Clone, Debug)]
pub struct SummaryData {
    pub count: u64,
    pub sum: u64,
    pub quantiles: Vec<(u64, u64)>,
}

/// A classic histogram: `(upper bound, cumulative count)` buckets, total count
/// and sum; bounds and sum are IEEE-754 bit patterns.
#[derive(Clone, Debug)]
pub struct ClassicHistogram {
    pub buckets: Vec<(u64, u64)>,
    pub count: u64,
    pub sum: u64,
}

/// A native (exponential) histogram: counts per bucket index on each side of
/// the zero bucket; sum and zero threshold are IEEE-754 bit patterns.
#[derive(Clone, Debug)]
pub struct NativeHistogram {
    pub count: u64,
    pub sum: u64,
    pub zero_threshold: u64,
    pub schema: i32,
    pub zero_count: u64,
    pub positive: BTreeMap<i32, u64>,
    pub negative: BTreeMap<i32, u64>,
}

/// The aggregate kept for one distribution series.
#[derive(Clone, Debug)]
pub enum Distribution {
    Summary(SummaryData),
    Histogram(ClassicHistogram),
    Both(ClassicHistogram, NativeHistogram),
    NativeHistogram(NativeHistogram),
}

/// All metrics to render, grouped by metric name, then by label set.
/// Gauge values are IEEE-754 bit patterns; counter values are counts.
#[derive(Clone, Debug)]
pub struct Snapshot {
    pub counters: Vec<(String, Vec<(LabelSet, u64)>)>,
    pub gauges: Vec<(String, Vec<(LabelSet, u64)>)>,
    pub distributions: Vec<(String, Vec<(LabelSet, Distribution)>)>,
}

/// Label pairs for a list of label names and values.
pub open spec fn labels_view(labels: Seq<(String, String)>) -> Seq<LabelPairV> {
    labels.map_values(|p: (String, String)| LabelPairV { name: Some(p.0@), value: Some(p.1@) })
}

fn label_pairs(labels: &Vec<(String, String)>) -> (res: Vec<LabelPair>)
    ensures
        label_views(res@) == labels_view(labels@),
{
    let mut res: Vec<LabelPair> = Vec::new();
    let mut i: usize = 0;
    while i < labels.len()
        invariant
            i <= labels.len(),
            res@.len() == i,
            label_views(res@) == labels_view(labels@).take(i as int),
        decreases labels.len() - i,
    {
        let name = labels[i].0.clone();
        let value = labels[i].1.clone();
        let ghost before = res@;
        res.push(LabelPair { name: Some(name), value: Some(value) });
        proof {
            assert(res@ == before.push(res@[i as int]));
            assert(label_views(res@) =~= labels_view(labels@).take(i + 1)) by {
                assert forall|j: int| 0 <= j <= i implies #[trigger] label_views(res@)[j]
                    == labels_view(labels@).take(i + 1)[j] by {
                    if j < i {
                        assert(res@[j] == before[j]);
                        assert(label_views(before)[j] == labels_view(labels@).take(i as int)[j]);
                    }
                }
            }
        }
        i = i + 1;
    }
    assert(labels_view(labels@).take(i as int) =~= labels_view(labels@));
    res
}

/// Converts a label set into protobuf label pairs, keeping their order.
pub fn label_set_to_protobuf(labels: LabelSet) -> (res: Vec<LabelPair>)
    ensures
        label_views(res@) == labels_view(labels.labels@),
{
    label_pairs(&labels.labels)
}

/// Appends `_` and the suffix to the name unless the name already ends with it.
pub fn add_suffix_to_name(name: &str, suffix: Option<&str>) -> (out: String)
    ensures
        out@ == name_with_suffix(name@, opt_str_view(suffix)),
{
    match suffix {
        Some(s) => if !str_ends_with(name, s) {
            proof {
                reveal_strlit("_");
            }
            let out = String::from_str(name);
            let out = out.concat("_");
            out.concat(s)
        } else {
            String::from_str(name)
        },
        None => String::from_str(name),
    }
}


/// Classic buckets of a histogram, followed by the implicit `+Inf` bucket
/// holding the total count.
pub open spec fn classic_buckets(h: ClassicHistogram) -> Seq<Bucket> {
    h.buckets@.map_values(
        |b: (u64, u64)| Bucket { cumulative_count: Some(b.1), upper_bound: Some(b.0) },
    ).push(Bucket { cumulative_count: Some(h.count), upper_bound: Some(POSITIVE_INFINITY_BITS) })
}

/// The protobuf histogram of a classic histogram.
pub open spec fn classic_view(h: ClassicHistogram) -> HistogramV {
    HistogramV {
        sample_count: Some(h.count),
        sample_sum: Some(h.sum),
        bucket: classic_buckets(h),
        schema: None,
        zero_threshold: None,
        zero_count: None,
        negative_span: seq![],
        negative_delta: seq![],
        positive_span: seq![],
        positive_delta: seq![],
    }
}

fn classic_bucket_list(h: &ClassicHistogram) -> (res: Vec<Bucket>)
    ensures
        res@ == classic_buckets(*h),
{
    let mut res: Vec<Bucket> = Vec::new();
    let mut i: usize = 0;
    while i < h.buckets.len()
        invariant
            i <= h.buckets.len(),
            res@ == classic_buckets(*h).take(i as int),
        decreases h.buckets.len() - i,
    {
        let (le, count) = h.buckets[i];
        res.push(Bucket { cumulative_count: Some(count), upper_bound: Some(le) });
        assert(res@ =~= classic_buckets(*h).take(i + 1));
        i = i + 1;
    }
    res.push(Bucket { cumulative_count: Some(h.count), upper_bound: Some(POSITIVE_INFINITY_BITS) });
    assert(res@ =~= classic_buckets(*h));
    res
}

/// A converted classic histogram keeps every bucket of the input, in order,
/// with its upper bound and cumulative count, and ends with the `+Inf` bucket
/// holding the total count; count and sum are carried over, and no native
/// fields are set.
pub proof fn lemma_classic_buckets(h: ClassicHistogram)
    ensures
        ({
            let v = classic_view(h);
            &&& v.bucket.len() == h.buckets@.len() + 1
            &&& forall|i: int|
                0 <= i < h.buckets@.len() ==> (#[trigger] v.bucket[i]).upper_bound == Some(
                    h.buckets@[i].0,
                ) && v.bucket[i].cumulative_count == Some(h.buckets@[i].1)
            &&& v.bucket[h.buckets@.len() as int].upper_bound == Some(0x7FF0_0000_0000_0000u64)
            &&& v.bucket[h.buckets@.len() as int].cumulative_count == Some(h.count)
            &&& v.sample_count == Some(h.count)
            &&& v.sample_sum == Some(h.sum)
            &&& v.schema is None
            &&& v.zero_threshold is None
            &&& v.zero_count is None
            &&& v.positive_span.len() == 0
            &&& v.negative_span.len() == 0
        }),
{
}

/// Converts a classic histogram: its buckets, the `+Inf` bucket with the total
/// count, the count and the sum.
pub fn histogram_from_classic(h: &ClassicHistogram) -> (res: Histogram)
    ensures
        res@ == classic_view(*h),
        res.bucket@.len() == h.buckets@.len() + 1,
        forall|i: int|
            0 <= i < h.buckets@.len() ==> (#[trigger] res.bucket@[i]).upper_bound == Some(
                h.buckets@[i].0,
            ) && res.bucket@[i].cumulative_count == Some(h.buckets@[i].1),
        res.bucket@[h.buckets@.len() as int].upper_bound == Some(0x7FF0_0000_0000_0000u64),
        res.bucket@[h.buckets@.len() as int].cumulative_count == Some(h.count),
        res.sample_count == Some(h.count),
        res.sample_sum == Some(h.sum),
{
    proof {
        lemma_classic_buckets(*h);
    }
    let res = Histogram {
        sample_count: Some(h.count),
        sample_sum: Some(h.sum),
        bucket: classic_bucket_list(h),
        schema: None,
        zero_threshold: None,
        zero_count: None,
        negative_span: Vec::new(),
        negative_delta: Vec::new(),
        positive_span: Vec::new(),
        positive_delta: Vec::new(),
    };
    assert(res@ =~= classic_view(*h));
    res
}

/// The bit pattern stands for `+0.0` or `-0.0`.
pub open spec fn is_zero_bits(w: u64) -> bool {
    w == 0 || w == 0x8000_0000_0000_0000
}

/// Both bucket maps of a native histogram can be laid out without overflow.
pub open spec fn native_fits(n: NativeHistogram) -> bool {
    entries_fit(sorted_entries(n.positive@)) && entries_fit(sorted_entries(n.negative@))
}

/// The protobuf histogram of a native histogram. An otherwise empty native
/// histogram (zero threshold 0, no zero-bucket observations, no spans) gets a
/// single empty positive span, which tells it apart from a classic histogram.
pub open spec fn native_view(n: NativeHistogram) -> HistogramV {
    let pos = span_seq(layout_of(sorted_entries(n.positive@)).spans);
    let neg = span_seq(layout_of(sorted_entries(n.negative@)).spans);
    HistogramV {
        sample_count: Some(n.count),
        sample_sum: Some(n.sum),
        bucket: seq![],
        schema: Some(n.schema),
        zero_threshold: Some(n.zero_threshold),
        zero_count: Some(n.zero_count),
        negative_span: neg,
        negative_delta: delta_seq(layout_of(sorted_entries(n.negative@)).deltas),
        positive_span: if is_zero_bits(n.zero_threshold) && n.zero_count == 0 && pos.len() == 0
            && neg.len() == 0 {
            seq![BucketSpan { offset: Some(0), length: Some(0) }]
        } else {
            pos
        },
        positive_delta: delta_seq(layout_of(sorted_entries(n.positive@)).deltas),
    }
}

/// A converted native histogram can always be told apart from a classic one:
/// it has a span on some side, a nonzero zero threshold, or zero-bucket
/// observations. The same holds when classic buckets are carried beside it.
pub proof fn lemma_native_view_is_marked(c: ClassicHistogram, n: NativeHistogram)
    ensures
        ({
            let h = native_view(n);
            h.positive_span.len() > 0 || h.negative_span.len() > 0 || !is_zero_bits(
                h.zero_threshold->0,
            ) || h.zero_count->0 != 0
        }),
        both_view(c, n).positive_span == native_view(n).positive_span,
        both_view(c, n).negative_span == native_view(n).negative_span,
{
}

/// Converts a native histogram into spans and deltas on each side of zero.
pub fn histogram_from_native(n: &NativeHistogram) -> (res: Histogram)
    requires
        native_fits(*n),
    ensures
        res@ == native_view(*n),
{
    let (positive_spans, positive_deltas) = make_buckets(&n.positive);
    let (negative_spans, negative_deltas) = make_buckets(&n.negative);
    let mut histogram = Histogram {
        sample_count: Some(n.count),
        sample_sum: Some(n.sum),
        bucket: Vec::new(),
        schema: Some(n.schema),
        zero_threshold: Some(n.zero_threshold),
        zero_count: Some(n.zero_count),
        negative_span: negative_spans,
        negative_delta: negative_deltas,
        positive_span: positive_spans,
        positive_delta: positive_deltas,
    };
    let zero_threshold_is_zero = n.zero_threshold == 0 || n.zero_threshold == 0x8000_0000_0000_0000;
    if zero_threshold_is_zero && n.zero_count == 0 && histogram.positive_span.len() == 0
        && histogram.negative_span.len() == 0 {
        let mut empty_span = Vec::new();
        empty_span.push(BucketSpan { offset: Some(0), length: Some(0) });
        histogram.positive_span = empty_span;
    }
    assert(histogram@.positive_span =~= native_view(*n).positive_span);
    assert(histogram@ =~= native_view(*n));
    histogram
}

/// A histogram carrying both representations: native fields, classic buckets.
pub open spec fn both_view(c: ClassicHistogram, n: NativeHistogram) -> HistogramV {
    HistogramV { bucket: classic_buckets(c), ..native_view(n) }
}

/// The protobuf summary: count, sum and the quantile values.
pub open spec fn summary_view(s: SummaryData) -> SummaryV {
    SummaryV {
        sample_count: Some(s.count),
        sample_sum: Some(s.sum),
        quantile: s.quantiles@.map_values(
            |q: (u64, u64)| Quantile { quantile: Some(q.0), value: Some(q.1) },
        ),
    }
}

fn summary_from(s: &SummaryData) -> (res: Summary)
    ensures
        res@ == summary_view(*s),
{
    let mut quantile: Vec<Quantile> = Vec::new();
    let mut i: usize = 0;
    while i < s.quantiles.len()
        invariant
            i <= s.quantiles.len(),
            quantile@ == summary_view(*s).quantile.take(i as int),
        decreases s.quantiles.len() - i,
    {
        let (q, v) = s.quantiles[i];
        quantile.push(Quantile { quantile: Some(q), value: Some(v) });
        assert(quantile@ =~= summary_view(*s).quantile.take(i + 1));
        i = i + 1;
    }
    assert(summary_view(*s).quantile.take(i as int) =~= summary_view(*s).quantile);
    let res = Summary { sample_count: Some(s.count), sample_sum: Some(s.sum), quantile };
    assert(res@ =~= summary_view(*s));
    res
}


fn histogram_from_both(c: &ClassicHistogram, n: &NativeHistogram) -> (res: Histogram)
    requires
        native_fits(*n),
    ensures
        res@ == both_view(*c, *n),
{
    let mut histogram = histogram_from_native(n);
    histogram.bucket = classic_bucket_list(c);
    assert(histogram@ =~= both_view(*c, *n));
    histogram
}

/// The description registered for `name`: the first matching entry, or empty.
pub open spec fn help_for(descs: Seq<(String, String)>, name: Seq<char>) -> Seq<char>
    decreases descs.len(),
{
    if descs.len() == 0 {
        seq![]
    } else if descs[0].0@ == name {
        descs[0].1@
    } else {
        help_for(descs.drop_first(), name)
    }
}

/// An empty description is left out of the family.
pub open spec fn help_field(help: Seq<char>) -> Option<Seq<char>> {
    if help.len() == 0 {
        None
    } else {
        Some(help)
    }
}

fn find_help(descs: &Vec<(String, String)>, name: &String) -> (help: Option<String>)
    ensures
        opt_chars_of(help) == help_field(help_for(descs@, name@)),
{
    let mut i: usize = 0;
    assert(descs@.skip(0) =~= descs@);
    while i < descs.len()
        invariant
            i <= descs.len(),
            help_for(descs@, name@) == help_for(descs@.skip(i as int), name@),
        decreases descs.len() - i,
    {
        assert(descs@.skip(i as int)[0] == descs@[i as int]);
        if descs[i].0 == *name {
            let help = descs[i].1.clone();
            if help.as_str().is_empty() {
                return None;
            }
            return Some(help);
        }
        assert(descs@.skip(i as int).drop_first() =~= descs@.skip(i + 1));
        i = i + 1;
    }
    None
}

pub open spec fn opt_chars_of(s: Option<String>) -> Option<Seq<char>> {
    match s {
        Some(x) => Some(x@),
        None => None,
    }
}

/// A counter series: its labels and the count as a double.
pub open spec fn counter_metric(e: (LabelSet, u64)) -> MetricV {
    MetricV {
        label: labels_view(e.0.labels@),
        gauge: None,
        counter: Some(Counter { value: Some(f64_bits_of_count(e.1)) }),
        summary: None,
        histogram: None,
    }
}

pub open spec fn counter_metrics(entries: Seq<(LabelSet, u64)>) -> Seq<MetricV> {
    entries.map_values(|e: (LabelSet, u64)| counter_metric(e))
}

/// A counter family: sanitized name with the counter suffix, description, and one series per label set.
pub open spec fn counter_family(
    name: Seq<char>,
    entries: Seq<(LabelSet, u64)>,
    help: Seq<char>,
    suffix: Option<Seq<char>>,
) -> MetricFamilyV {
    MetricFamilyV {
        name: Some(name_with_suffix(sanitized_name(name), suffix)),
        help: help_field(help),
        metric_type: Some(METRIC_TYPE_COUNTER),
        metric: counter_metrics(entries),
    }
}

/// A gauge series: its labels and the value.
pub open spec fn gauge_metric(e: (LabelSet, u64)) -> MetricV {
    MetricV {
        label: labels_view(e.0.labels@),
        gauge: Some(Gauge { value: Some(e.1) }),
        counter: None,
        summary: None,
        histogram: None,
    }
}

pub open spec fn gauge_metrics(entries: Seq<(LabelSet, u64)>) -> Seq<MetricV> {
    entries.map_values(|e: (LabelSet, u64)| gauge_metric(e))
}

/// A gauge family: sanitized name, description, and one series per label set.
pub open spec fn gauge_family(
    name: Seq<char>,
    entries: Seq<(LabelSet, u64)>,
    help: Seq<char>,
) -> MetricFamilyV {
    MetricFamilyV {
        name: Some(sanitized_name(name)),
        help: help_field(help),
        metric_type: Some(METRIC_TYPE_GAUGE),
        metric: gauge_metrics(entries),
    }
}

/// A distribution series: a summary, or a histogram in one or both representations.
pub open spec fn distribution_metric(e: (LabelSet, Distribution)) -> MetricV {
    let label = labels_view(e.0.labels@);
    match e.1 {
        Distribution::Summary(s) => MetricV {
            label,
            gauge: None,
            counter: None,
            summary: Some(summary_view(s)),
            histogram: None,
        },
        Distribution::Histogram(h) => MetricV {
            label,
            gauge: None,
            counter: None,
            summary: None,
            histogram: Some(classic_view(h)),
        },
        Distribution::Both(c, n) => MetricV {
            label,
            gauge: None,
            counter: None,
            summary: None,
            histogram: Some(both_view(c, n)),
        },
        Distribution::NativeHistogram(n) => MetricV {
            label,
            gauge: None,
            counter: None,
            summary: None,
            histogram: Some(native_view(n)),
        },
    }
}

pub open spec fn distribution_metrics(entries: Seq<(LabelSet, Distribution)>) -> Seq<MetricV> {
    entries.map_values(|e: (LabelSet, Distribution)| distribution_metric(e))
}

/// The family type a distribution gives: summary or histogram.
pub open spec fn distribution_type(d: Distribution) -> i32 {
    match d {
        Distribution::Summary(_) => METRIC_TYPE_SUMMARY,
        _ => METRIC_TYPE_HISTOGRAM,
    }
}

/// A distribution family; its type is the one of its last series.
pub open spec fn distribution_family(
    name: Seq<char>,
    entries: Seq<(LabelSet, Distribution)>,
    help: Seq<char>,
) -> MetricFamilyV {
    MetricFamilyV {
        name: Some(sanitized_name(name)),
        help: help_field(help),
        metric_type: Some(distribution_type(entries.last().1)),
        metric: distribution_metrics(entries),
    }
}

/// Native histograms inside a distribution can be laid out without overflow.
pub open spec fn distribution_fits(d: Distribution) -> bool {
    match d {
        Distribution::Both(_, n) => native_fits(n),
        Distribution::NativeHistogram(n) => native_fits(n),
        _ => true,
    }
}

pub open spec fn entries_fit_all(entries: Seq<(LabelSet, Distribution)>) -> bool {
    forall|j: int| 0 <= j < entries.len() ==> distribution_fits(#[trigger] entries[j].1)
}

fn counter_family_of(
    name: &String,
    entries: &Vec<(LabelSet, u64)>,
    descs: &Vec<(String, String)>,
    suffix: Option<&str>,
) -> (f: MetricFamily)
    ensures
        f@ == counter_family(name@, entries@, help_for(descs@, name@), opt_str_view(suffix)),
{
    let sanitized = sanitize_metric_name(name.as_str());
    let help = find_help(descs, name);
    let mut metrics: Vec<Metric> = Vec::new();
    let mut i: usize = 0;
    while i < entries.len()
        invariant
            i <= entries.len(),
            metrics@.len() == i,
            metric_views(metrics@) == counter_metrics(entries@).take(i as int),
        decreases entries.len() - i,
    {
        let label = label_pairs(&entries[i].0.labels);
        let value = count_to_f64_bits(entries[i].1);
        let ghost before = metrics@;
        metrics.push(
            Metric {
                label,
                gauge: None,
                counter: Some(Counter { value: Some(value) }),
                summary: None,
                histogram: None,
            },
        );
        proof {
            lemma_metrics_push(before, metrics@, counter_metrics(entries@), i as int);
        }
        i = i + 1;
    }
    assert(counter_metrics(entries@).take(i as int) =~= counter_metrics(entries@));
    let f = MetricFamily {
        name: Some(add_suffix_to_name(sanitized.as_str(), suffix)),
        help,
        metric_type: Some(METRIC_TYPE_COUNTER),
        metric: metrics,
    };
    assert(f@ =~= counter_family(name@, entries@, help_for(descs@, name@), opt_str_view(suffix)));
    f
}

proof fn lemma_metrics_push(before: Seq<Metric>, after: Seq<Metric>, target: Seq<MetricV>, i: int)
    requires
        0 <= i < target.len(),
        before.len() == i,
        after == before.push(after[i]),
        metric_views(before) == target.take(i),
        after[i]@ == target[i],
    ensures
        metric_views(after) == target.take(i + 1),
{
    assert forall|j: int| 0 <= j <= i implies #[trigger] metric_views(after)[j] == target.take(
        i + 1,
    )[j] by {
        if j < i {
            assert(after[j] == before[j]);
            assert(metric_views(before)[j] == target.take(i)[j]);
        }
    }
    assert(metric_views(after) =~= target.take(i + 1));
}

fn gauge_family_of(name: &String, entries: &Vec<(LabelSet, u64)>, descs: &Vec<(String, String)>) -> (f:
    MetricFamily)
    ensures
        f@ == gauge_family(name@, entries@, help_for(descs@, name@)),
{
    let sanitized = sanitize_metric_name(name.as_str());
    let help = find_help(descs, name);
    let mut metrics: Vec<Metric> = Vec::new();
    let mut i: usize = 0;
    while i < entries.len()
        invariant
            i <= entries.len(),
            metrics@.len() == i,
            metric_views(metrics@) == gauge_metrics(entries@).take(i as int),
        decreases entries.len() - i,
    {
        let label = label_pairs(&entries[i].0.labels);
        let value = entries[i].1;
        let ghost before = metrics@;
        metrics.push(
            Metric {
                label,
                gauge: Some(Gauge { value: Some(value) }),
                counter: None,
                summary: None,
                histogram: None,
            },
        );
        proof {
            lemma_metrics_push(before, metrics@, gauge_metrics(entries@), i as int);
        }
        i = i + 1;
    }
    assert(gauge_metrics(entries@).take(i as int) =~= gauge_metrics(entries@));
    let f = MetricFamily {
        name: Some(sanitized),
        help,
        metric_type: Some(METRIC_TYPE_GAUGE),
        metric: metrics,
    };
    assert(f@ =~= gauge_family(name@, entries@, help_for(descs@, name@)));
    f
}

fn distribution_metric_of(e: &(LabelSet, Distribution)) -> (m: Metric)
    requires
        distribution_fits(e.1),
    ensures
        m@ == distribution_metric(*e),
{
    let label = label_pairs(&e.0.labels);
    let m = match &e.1 {
        Distribution::Summary(s) => Metric {
            label,
            gauge: None,
            counter: None,
            summary: Some(summary_from(s)),
            histogram: None,
        },
        Distribution::Histogram(h) => Metric {
            label,
            gauge: None,
            counter: None,
            summary: None,
            histogram: Some(histogram_from_classic(h)),
        },
        Distribution::Both(c, n) => Metric {
            label,
            gauge: None,
            counter: None,
            summary: None,
            histogram: Some(histogram_from_both(c, n)),
        },
        Distribution::NativeHistogram(n) => Metric {
            label,
            gauge: None,
            counter: None,
            summary: None,
            histogram: Some(histogram_from_native(n)),
        },
    };
    assert(m@ =~= distribution_metric(*e));
    m
}

fn distribution_family_of(
    name: &String,
    entries: &Vec<(LabelSet, Distribution)>,
    descs: &Vec<(String, String)>,
) -> (f: Option<MetricFamily>)
    requires
        entries_fit_all(entries@),
    ensures
        entries@.len() == 0 ==> f is None,
        entries@.len() > 0 ==> (f matches Some(fam) && fam@ == distribution_family(
            name@,
            entries@,
            help_for(descs@, name@),
        )),
{
    let sanitized = sanitize_metric_name(name.as_str());
    let help = find_help(descs, name);
    let mut metrics: Vec<Metric> = Vec::new();
    let mut metric_type: Option<i32> = None;
    let mut i: usize = 0;
    while i < entries.len()
        invariant
            i <= entries.len(),
            entries_fit_all(entries@),
            metrics@.len() == i,
            metric_views(metrics@) == distribution_metrics(entries@).take(i as int),
            i == 0 ==> metric_type is None,
            i > 0 ==> metric_type == Some(distribution_type(entries@[i - 1].1)),
        decreases entries.len() - i,
    {
        let m = distribution_metric_of(&entries[i]);
        metric_type = match &entries[i].1 {
            Distribution::Summary(_) => Some(METRIC_TYPE_SUMMARY),
            _ => Some(METRIC_TYPE_HISTOGRAM),
        };
        let ghost before = metrics@;
        metrics.push(m);
        proof {
            lemma_metrics_push(before, metrics@, distribution_metrics(entries@), i as int);
        }
        i = i + 1;
    }
    match metric_type {
        None => None,
        Some(metric_type) => {
            assert(distribution_metrics(entries@).take(i as int) =~= distribution_metrics(entries@));
            let f = MetricFamily {
                name: Some(sanitized),
                help,
                metric_type: Some(metric_type),
                metric: metrics,
            };
            assert(f@ =~= distribution_family(name@, entries@, help_for(descs@, name@)));
            Some(f)
        },
    }
}


/// Each counter family, length-delimited.
pub open spec fn counter_section(
    descs: Seq<(String, String)>,
    suffix: Option<Seq<char>>,
) -> spec_fn((String, Vec<(LabelSet, u64)>)) -> Seq<u8> {
    |f: (String, Vec<(LabelSet, u64)>)|
        family_delimited(counter_family(f.0@, f.1@, help_for(descs, f.0@), suffix))
}

/// Each gauge family, length-delimited.
pub open spec fn gauge_section(descs: Seq<(String, String)>) -> spec_fn(
    (String, Vec<(LabelSet, u64)>),
) -> Seq<u8> {
    |f: (String, Vec<(LabelSet, u64)>)|
        family_delimited(gauge_family(f.0@, f.1@, help_for(descs, f.0@)))
}

/// Each distribution family that has at least one series, length-delimited.
pub open spec fn distribution_section(descs: Seq<(String, String)>) -> spec_fn(
    (String, Vec<(LabelSet, Distribution)>),
) -> Seq<u8> {
    |f: (String, Vec<(LabelSet, Distribution)>)|
        if f.1@.len() == 0 {
            seq![]
        } else {
            family_delimited(distribution_family(f.0@, f.1@, help_for(descs, f.0@)))
        }
}

/// The rendered stream: counter families, then gauge families, then distribution families.
pub open spec fn rendered(
    snapshot: Snapshot,
    descs: Seq<(String, String)>,
    suffix: Option<Seq<char>>,
) -> Seq<u8> {
    concat_map(snapshot.counters@, counter_section(descs, suffix)) + concat_map(
        snapshot.gauges@,
        gauge_section(descs),
    ) + concat_map(snapshot.distributions@, distribution_section(descs))
}

/// The families that a snapshot renders, in the order they are written.
pub open spec fn rendered_families(
    snapshot: Snapshot,
    descs: Seq<(String, String)>,
    suffix: Option<Seq<char>>,
) -> Seq<MetricFamilyV> {
    concat_lists(
        snapshot.counters@,
        |f: (String, Vec<(LabelSet, u64)>)|
            seq![counter_family(f.0@, f.1@, help_for(descs, f.0@), suffix)],
    ) + concat_lists(
        snapshot.gauges@,
        |f: (String, Vec<(LabelSet, u64)>)| seq![gauge_family(f.0@, f.1@, help_for(descs, f.0@))],
    ) + concat_lists(
        snapshot.distributions@,
        |f: (String, Vec<(LabelSet, Distribution)>)|
            if f.1@.len() == 0 {
                seq![]
            } else {
                seq![distribution_family(f.0@, f.1@, help_for(descs, f.0@))]
            },
    )
}

/// The description of `name` is the one registered by the first entry for
/// that name.
pub proof fn lemma_help_for_first_match(descs: Seq<(String, String)>, name: Seq<char>, j: int)
    requires
        0 <= j < descs.len(),
        descs[j].0@ == name,
        forall|k: int| 0 <= k < j ==> descs[k].0@ != name,
    ensures
        help_for(descs, name) == descs[j].1@,
    decreases j,
{
    if j > 0 {
        assert(descs[0].0@ != name);
        lemma_help_for_first_match(descs.drop_first(), name, j - 1);
    }
}

/// A name that no entry registers has an empty description.
pub proof fn lemma_help_for_missing(descs: Seq<(String, String)>, name: Seq<char>)
    requires
        forall|k: int| 0 <= k < descs.len() ==> descs[k].0@ != name,
    ensures
        help_for(descs, name) == Seq::<char>::empty(),
    decreases descs.len(),
{
    if descs.len() > 0 {
        assert(descs[0].0@ != name);
        lemma_help_for_missing(descs.drop_first(), name);
    }
}

/// The counter families come first, one per counter name in order. The
/// `i`-th carries the sanitized name with the suffix, the description
/// registered for the raw name (left out when empty), the counter type, and
/// one series per label set holding its labels and its count as a double.
pub proof fn lemma_rendered_counter_family(
    snapshot: Snapshot,
    descs: Seq<(String, String)>,
    suffix: Option<Seq<char>>,
    i: int,
)
    requires
        0 <= i < snapshot.counters@.len(),
    ensures
        ({
            let f = rendered_families(snapshot, descs, suffix)[i];
            let name = snapshot.counters@[i].0@;
            let entries = snapshot.counters@[i].1@;
            let h = help_for(descs, name);
            &&& f.name == Some(name_with_suffix(sanitized_name(name), suffix))
            &&& f.help == (if h.len() == 0 {
                None
            } else {
                Some(h)
            })
            &&& f.metric_type == Some(0i32)
            &&& f.metric.len() == entries.len()
            &&& forall|j: int|
                0 <= j < entries.len() ==> {
                    &&& (#[trigger] f.metric[j]).label == labels_view(entries[j].0.labels@)
                    &&& f.metric[j].counter == Some(
                        Counter { value: Some(f64_bits_of_count(entries[j].1)) },
                    )
                    &&& f.metric[j].gauge is None
                    &&& f.metric[j].summary is None
                    &&& f.metric[j].histogram is None
                }
        }),
{
    let cg = |f: (String, Vec<(LabelSet, u64)>)|
        seq![counter_family(f.0@, f.1@, help_for(descs, f.0@), suffix)];
    let gg = |f: (String, Vec<(LabelSet, u64)>)| seq![gauge_family(f.0@, f.1@, help_for(descs, f.0@))];
    let dg = |f: (String, Vec<(LabelSet, Distribution)>)|
        if f.1@.len() == 0 {
            seq![]
        } else {
            seq![distribution_family(f.0@, f.1@, help_for(descs, f.0@))]
        };
    lemma_concat_singletons(snapshot.counters@, cg);
    let all = rendered_families(snapshot, descs, suffix);
    assert(all == concat_lists(snapshot.counters@, cg) + concat_lists(snapshot.gauges@, gg)
        + concat_lists(snapshot.distributions@, dg));
    assert(all[i] == concat_lists(snapshot.counters@, cg)[i]);
}

/// The gauge families follow the counter families, one per gauge name in
/// order. Each carries the sanitized name (no suffix), the description
/// registered for the raw name (left out when empty), the gauge type, and one
/// series per label set holding its labels and its value.
pub proof fn lemma_rendered_gauge_family(
    snapshot: Snapshot,
    descs: Seq<(String, String)>,
    suffix: Option<Seq<char>>,
    i: int,
)
    requires
        0 <= i < snapshot.gauges@.len(),
    ensures
        ({
            let f = rendered_families(snapshot, descs, suffix)[snapshot.counters@.len() + i];
            let name = snapshot.gauges@[i].0@;
            let entries = snapshot.gauges@[i].1@;
            let h = help_for(descs, name);
            &&& f.name == Some(sanitized_name(name))
            &&& f.help == (if h.len() == 0 {
                None
            } else {
                Some(h)
            })
            &&& f.metric_type == Some(1i32)
            &&& f.metric.len() == entries.len()
            &&& forall|j: int|
                0 <= j < entries.len() ==> {
                    &&& (#[trigger] f.metric[j]).label == labels_view(entries[j].0.labels@)
                    &&& f.metric[j].gauge == Some(Gauge { value: Some(entries[j].1) })
                    &&& f.metric[j].counter is None
                    &&& f.metric[j].summary is None
                    &&& f.metric[j].histogram is None
                }
        }),
{
    let cg = |f: (String, Vec<(LabelSet, u64)>)|
        seq![counter_family(f.0@, f.1@, help_for(descs, f.0@), suffix)];
    let gg = |f: (String, Vec<(LabelSet, u64)>)| seq![gauge_family(f.0@, f.1@, help_for(descs, f.0@))];
    let dg = |f: (String, Vec<(LabelSet, Distribution)>)|
        if f.1@.len() == 0 {
            seq![]
        } else {
            seq![distribution_family(f.0@, f.1@, help_for(descs, f.0@))]
        };
    lemma_concat_singletons(snapshot.counters@, cg);
    lemma_concat_singletons(snapshot.gauges@, gg);
    let all = rendered_families(snapshot, descs, suffix);
    let c = concat_lists(snapshot.counters@, cg);
    let g = concat_lists(snapshot.gauges@, gg);
    assert(all == c + g + concat_lists(snapshot.distributions@, dg));
    assert(all[c.len() + i] == g[i]);
}

/// The rendered output is a stream of length-delimited messages, and the
/// messages are, in order, the encodings of the rendered families: one per
/// counter name, one per gauge name, one per distribution name with series.
pub proof fn lemma_rendered_stream(
    snapshot: Snapshot,
    descs: Seq<(String, String)>,
    suffix: Option<Seq<char>>,
)
    ensures
        split_delimited(rendered(snapshot, descs, suffix)) == Some(
            families_bytes(rendered_families(snapshot, descs, suffix)),
        ),
{
    let cf = counter_section(descs, suffix);
    let cg = |f: (String, Vec<(LabelSet, u64)>)|
        seq![counter_family(f.0@, f.1@, help_for(descs, f.0@), suffix)];
    assert forall|x: (String, Vec<(LabelSet, u64)>)|
        #[trigger] split_delimited(cf(x)) == Some(families_bytes(cg(x))) by {
        lemma_split_single(counter_family(x.0@, x.1@, help_for(descs, x.0@), suffix));
    }
    lemma_split_concat_map(snapshot.counters@, cf, cg);

    let gf = gauge_section(descs);
    let gg = |f: (String, Vec<(LabelSet, u64)>)| seq![gauge_family(f.0@, f.1@, help_for(descs, f.0@))];
    assert forall|x: (String, Vec<(LabelSet, u64)>)|
        #[trigger] split_delimited(gf(x)) == Some(families_bytes(gg(x))) by {
        lemma_split_single(gauge_family(x.0@, x.1@, help_for(descs, x.0@)));
    }
    lemma_split_concat_map(snapshot.gauges@, gf, gg);

    let df = distribution_section(descs);
    let dg = |f: (String, Vec<(LabelSet, Distribution)>)|
        if f.1@.len() == 0 {
            seq![]
        } else {
            seq![distribution_family(f.0@, f.1@, help_for(descs, f.0@))]
        };
    assert forall|x: (String, Vec<(LabelSet, Distribution)>)|
        #[trigger] split_delimited(df(x)) == Some(families_bytes(dg(x))) by {
        if x.1@.len() == 0 {
            lemma_split_empty();
        } else {
            lemma_split_single(distribution_family(x.0@, x.1@, help_for(descs, x.0@)));
        }
    }
    lemma_split_concat_map(snapshot.distributions@, df, dg);

    let c = concat_map(snapshot.counters@, cf);
    let g = concat_map(snapshot.gauges@, gf);
    let d = concat_map(snapshot.distributions@, df);
    let cl = concat_lists(snapshot.counters@, cg);
    let gl = concat_lists(snapshot.gauges@, gg);
    let dl = concat_lists(snapshot.distributions@, dg);
    lemma_split_append(c, g);
    lemma_split_append(c + g, d);
    lemma_families_bytes_append(cl, gl);
    lemma_families_bytes_append(cl + gl, dl);
    assert(rendered(snapshot, descs, suffix) == c + g + d);
    assert(rendered_families(snapshot, descs, suffix) == cl + gl + dl);
}

/// Every native histogram of these families can be laid out without overflow.
#[verifier::opaque]
pub open spec fn families_fit(families: Seq<(String, Vec<(LabelSet, Distribution)>)>) -> bool {
    forall|i: int| 0 <= i < families.len() ==> entries_fit_all(#[trigger] families[i].1@)
}

/// Every native histogram of the snapshot can be laid out without overflow.
pub open spec fn snapshot_fits(snapshot: Snapshot) -> bool {
    families_fit(snapshot.distributions@)
}

/// Whether both bucket maps of a native histogram can be laid out without overflow.
pub fn native_fits_exec(n: &NativeHistogram) -> (b: bool)
    ensures
        b == native_fits(*n),
{
    entries_fit_exec(&n.positive) && entries_fit_exec(&n.negative)
}

/// Whether the native histogram of a distribution, if any, can be laid out without overflow.
pub fn distribution_fits_exec(d: &Distribution) -> (b: bool)
    ensures
        b == distribution_fits(*d),
{
    match d {
        Distribution::Both(_, n) => native_fits_exec(n),
        Distribution::NativeHistogram(n) => native_fits_exec(n),
        _ => true,
    }
}

/// Whether every native histogram of the snapshot can be laid out without
/// overflow, which `render_protobuf` requires.
pub fn snapshot_fits_exec(snapshot: &Snapshot) -> (b: bool)
    ensures
        b == snapshot_fits(*snapshot),
{
    let families = &snapshot.distributions;
    let mut i: usize = 0;
    while i < families.len()
        invariant
            families == &snapshot.distributions,
            i <= families.len(),
            forall|k: int| 0 <= k < i ==> entries_fit_all(#[trigger] families@[k].1@),
        decreases families.len() - i,
    {
        let entries = &families[i].1;
        let mut j: usize = 0;
        while j < entries.len()
            invariant
                families == &snapshot.distributions,
                i < families.len(),
                entries == &families@[i as int].1,
                j <= entries.len(),
                forall|k: int| 0 <= k < j ==> distribution_fits(#[trigger] entries@[k].1),
            decreases entries.len() - j,
        {
            if !distribution_fits_exec(&entries[j].1) {
                proof {
                    reveal(families_fit);
                    assert(!distribution_fits(entries@[j as int].1));
                    assert(!entries_fit_all(families@[i as int].1@));
                }
                return false;
            }
            j = j + 1;
        }
        i = i + 1;
    }
    proof {
        reveal(families_fit);
    }
    true
}

fn render_counters(
    families: &Vec<(String, Vec<(LabelSet, u64)>)>,
    descs: &Vec<(String, String)>,
    suffix: Option<&str>,
    out: &mut Vec<u8>,
)
    requires
        old(out)@.len() + concat_map(families@, counter_section(descs@, opt_str_view(suffix))).len()
            <= isize::MAX,
    ensures
        final(out)@ == old(out)@ + concat_map(
            families@,
            counter_section(descs@, opt_str_view(suffix)),
        ),
{
    let ghost start = out@;
    let ghost f = counter_section(descs@, opt_str_view(suffix));
    let mut i: usize = 0;
    while i < families.len()
        invariant
            i <= families.len(),
            f == counter_section(descs@, opt_str_view(suffix)),
            out@ == start + concat_map(families@.take(i as int), f),
            start.len() + concat_map(families@, f).len() <= isize::MAX,
        decreases families.len() - i,
    {
        proof {
            lemma_concat_map_take(families@, f, i as int);
        }
        let family = counter_family_of(&families[i].0, &families[i].1, descs, suffix);
        encode_family_delimited(&family, out);
        assert(out@ =~= start + concat_map(families@.take(i + 1), f));
        i = i + 1;
    }
    proof {
        lemma_concat_map_all(families@, f);
    }
}

fn render_gauges(
    families: &Vec<(String, Vec<(LabelSet, u64)>)>,
    descs: &Vec<(String, String)>,
    out: &mut Vec<u8>,
)
    requires
        old(out)@.len() + concat_map(families@, gauge_section(descs@)).len() <= isize::MAX,
    ensures
        final(out)@ == old(out)@ + concat_map(families@, gauge_section(descs@)),
{
    let ghost start = out@;
    let ghost f = gauge_section(descs@);
    let mut i: usize = 0;
    while i < families.len()
        invariant
            i <= families.len(),
            f == gauge_section(descs@),
            out@ == start + concat_map(families@.take(i as int), f),
            start.len() + concat_map(families@, f).len() <= isize::MAX,
        decreases families.len() - i,
    {
        proof {
            lemma_concat_map_take(families@, f, i as int);
        }
        let family = gauge_family_of(&families[i].0, &families[i].1, descs);
        encode_family_delimited(&family, out);
        assert(out@ =~= start + concat_map(families@.take(i + 1), f));
        i = i + 1;
    }
    proof {
        lemma_concat_map_all(families@, f);
    }
}

fn render_distribution_family(
    family: &(String, Vec<(LabelSet, Distribution)>),
    descs: &Vec<(String, String)>,
    out: &mut Vec<u8>,
)
    requires
        entries_fit_all(family.1@),
        old(out)@.len() + distribution_section(descs@)(*family).len() <= isize::MAX,
    ensures
        final(out)@ == old(out)@ + distribution_section(descs@)(*family),
{
    match distribution_family_of(&family.0, &family.1, descs) {
        Some(fam) => {
            encode_family_delimited(&fam, out);
        },
        None => {
            assert(out@ =~= out@ + Seq::<u8>::empty());
        },
    }
}

#[verifier::rlimit(60)]
fn render_distributions(
    families: &Vec<(String, Vec<(LabelSet, Distribution)>)>,
    descs: &Vec<(String, String)>,
    out: &mut Vec<u8>,
)
    requires
        families_fit(families@),
        old(out)@.len() + concat_map(families@, distribution_section(descs@)).len() <= isize::MAX,
    ensures
        final(out)@ == old(out)@ + concat_map(families@, distribution_section(descs@)),
{
    let ghost start = out@;
    let ghost f = distribution_section(descs@);
    let mut i: usize = 0;
    while i < families.len()
        invariant
            i <= families.len(),
            families_fit(families@),
            f == distribution_section(descs@),
            out@ == start + concat_map(families@.take(i as int), f),
            start.len() + concat_map(families@, f).len() <= isize::MAX,
        decreases families.len() - i,
    {
        proof {
            lemma_concat_map_take(families@, f, i as int);
        }
        proof {
            reveal(families_fit);
        }
        render_distribution_family(&families[i], descs, out);
        assert(out@ =~= start + concat_map(families@.take(i + 1), f));
        i = i + 1;
    }
    proof {
        lemma_concat_map_all(families@, f);
    }
}

/// Renders a snapshot into the Prometheus protobuf format: one length-delimited
/// `MetricFamily` per counter name (with the counter suffix added to its
/// name), per gauge name, and per distribution name that has series, in that order.
pub fn render_protobuf(
    snapshot: Snapshot,
    descriptions: &Vec<(String, String)>,
    counter_suffix: Option<&str>,
) -> (out: Vec<u8>)
    requires
        snapshot_fits(snapshot),
        rendered(snapshot, descriptions@, opt_str_view(counter_suffix)).len() <= isize::MAX,
    ensures
        out@ == rendered(snapshot, descriptions@, opt_str_view(counter_suffix)),
{
    let mut output: Vec<u8> = Vec::new();
    render_counters(&snapshot.counters, descriptions, counter_suffix, &mut output);
    render_gauges(&snapshot.gauges, descriptions, &mut output);
    render_distributions(&snapshot.distributions, descriptions, &mut output);
    assert(output@ =~= rendered(snapshot, descriptions@, opt_str_view(counter_suffix)));
    output
}

} // verus!
