//! Storage for the exporter's histograms: a handle collects observations
//! until it receives its first supported cumulative snapshot, and from then on
//! only replaces the aggregate with the latest snapshot.
use std::collections::BTreeMap;
use metrics_util::storage::AtomicBucket;
use quanta::Instant;
use vstd::prelude::*;
use vstd::std_specs::cmp::PartialEqSpecImpl;

use crate::buckets::bucket_maps_equal;
use crate::float_bits::{f64_bits_eq, f64_bits_equal};

verus! {

/// Smallest exponential-bucket scale (native histogram schema) the exporter supports.
pub const MIN_SCHEMA: i32 = -4;

/// Largest exponential-bucket scale (native histogram schema) the exporter supports.
pub const MAX_SCHEMA: i32 = 8;

#[verifier::external_type_specification]
#[verifier::external_body]
pub struct ExInstant(Instant);

#[verifier::external_type_specification]
#[verifier::external_body]
#[verifier::reject_recursive_types(T)]
pub struct ExAtomicBucket<T>(AtomicBucket<T>);

/// The observations held by a bucket, as `(value bits, time of insertion)`
/// pairs in the order they were pushed.
pub uninterp spec fn bucket_contents(b: AtomicBucket<(u64, Instant)>) -> Seq<(u64, Instant)>;

/// How many values a block of a bucket holds: one per bit of a machine word.
pub open spec fn bucket_block_size() -> nat {
    usize::BITS as nat
}

/// The order in which a bucket hands out the values pushed in order `s`: the
/// values fill blocks of `bucket_block_size()` one after another, and the
/// blocks come out newest first, each in the order its values were pushed.
pub open spec fn newest_block_first<T>(s: Seq<T>) -> Seq<T>
    decreases s.len(),
{
    if s.len() <= bucket_block_size() {
        s
    } else {
        newest_block_first(s.skip(bucket_block_size() as int)) + s.take(
            bucket_block_size() as int,
        )
    }
}

/// Draining hands out every value exactly once: the order changes, the
/// multiset of values does not.
pub proof fn lemma_newest_block_first_keeps_values<T>(s: Seq<T>)
    ensures
        newest_block_first(s).to_multiset() == s.to_multiset(),
        newest_block_first(s).len() == s.len(),
    decreases s.len(),
{
    broadcast use vstd::seq_lib::group_seq_properties;
    if s.len() > bucket_block_size() {
        let b = bucket_block_size() as int;
        lemma_newest_block_first_keeps_values(s.skip(b));
        vstd::seq_lib::lemma_multiset_commutative(newest_block_first(s.skip(b)), s.take(b));
        vstd::seq_lib::lemma_multiset_commutative(s.take(b), s.skip(b));
        assert(s.take(b) + s.skip(b) =~= s);
    }
}

/// The current instant.
///
/// Calls `quanta::Instant::now`; nothing is stated of the time it reads.
#[verifier::external_body]
fn now() -> Instant {
    Instant::now()
}

/// A new, empty bucket.
///
/// Calls `metrics_util::storage::AtomicBucket::new`, which starts with no blocks.
#[verifier::external_body]
fn new_bucket() -> (b: AtomicBucket<(u64, Instant)>)
    ensures
        bucket_contents(b) == Seq::<(u64, Instant)>::empty(),
{
    AtomicBucket::new()
}

/// Adds one observation to the bucket.
///
/// Calls `metrics_util::storage::AtomicBucket::push`, which stores the value in
/// the tail block, allocating a new block when the tail is full.
#[verifier::external_body]
fn bucket_push(b: &mut AtomicBucket<(u64, Instant)>, value: (u64, Instant))
    ensures
        bucket_contents(*final(b)) == bucket_contents(*old(b)).push(value),
{
    b.push(value);
}

/// Takes every observation out of the bucket.
///
/// Calls `metrics_util::storage::AtomicBucket::clear_with`, which detaches all
/// blocks and hands each block's values to the closure, starting at the tail
/// (newest) block and following the links to older ones; a block holds its
/// values in push order, and a new block is linked in once the tail block's
/// `BLOCK_SIZE` (`usize::BITS`) slots are taken.
#[verifier::external_body]
fn bucket_take_all(b: &mut AtomicBucket<(u64, Instant)>) -> (taken: Vec<(u64, Instant)>)
    ensures
        taken@ == newest_block_first(bucket_contents(*old(b))),
        bucket_contents(*final(b)) == Seq::<(u64, Instant)>::empty(),
{
    let mut taken = Vec::new();
    b.clear_with(|block: &[(u64, Instant)]| append_block(&mut taken, block));
    taken
}

/// Discards every observation in the bucket.
///
/// Calls `metrics_util::storage::AtomicBucket::clear`, which detaches all
/// blocks without reading them.
#[verifier::external_body]
fn bucket_clear(b: &mut AtomicBucket<(u64, Instant)>)
    ensures
        bucket_contents(*final(b)) == Seq::<(u64, Instant)>::empty(),
{
    b.clear();
}

/// Appends the values of one block.
fn append_block(out: &mut Vec<(u64, Instant)>, block: &[(u64, Instant)])
    ensures
        final(out)@ == old(out)@ + block@,
{
    let mut i: usize = 0;
    while i < block.len()
        invariant
            i <= block.len(),
            out@ == old(out)@ + block@.take(i as int),
        decreases block.len() - i,
    {
        out.push(block[i]);
        assert(out@ =~= old(out)@ + block@.take(i + 1));
        i = i + 1;
    }
    assert(block@.take(i as int) =~= block@);
}


/// Exponential histogram buckets with base `2^(2^-scale)`; the zero threshold
/// is an IEEE-754 bit pattern, the maps hold non-cumulative counts by index.
/// `==` compares the zero thresholds as doubles.
#[derive(Clone, Debug, Default)]
pub struct ExponentialHistogramSnapshot {
    pub scale: i32,
    pub zero_threshold: u64,
    pub zero_count: u64,
    pub positive: BTreeMap<i32, u64>,
    pub negative: BTreeMap<i32, u64>,
}

/// Bucket representations of a histogram snapshot; classic buckets are
/// `(upper bound bits, cumulative count)` pairs. `==` compares the upper
/// bounds as doubles.
#[derive(Clone, Debug)]
pub enum HistogramBuckets {
    Classic(Vec<(u64, u64)>),
    Exponential(ExponentialHistogramSnapshot),
    Both { classic: Vec<(u64, u64)>, exponential: ExponentialHistogramSnapshot },
}

/// A cumulative histogram aggregate; `sum` is an IEEE-754 bit pattern.
/// `==` compares the sums as doubles.
#[derive(Clone, Debug)]
pub struct HistogramSnapshot {
    pub count: u64,
    pub sum: u64,
    pub buckets: HistogramBuckets,
}

pub struct ExponentialV {
    pub scale: i32,
    pub zero_threshold: u64,
    pub zero_count: u64,
    pub positive: Map<i32, u64>,
    pub negative: Map<i32, u64>,
}

pub enum BucketsV {
    Classic(Seq<(u64, u64)>),
    Exponential(ExponentialV),
    Both(Seq<(u64, u64)>, ExponentialV),
}

pub struct SnapshotV {
    pub count: u64,
    pub sum: u64,
    pub buckets: BucketsV,
}

impl View for ExponentialHistogramSnapshot {
    type V = ExponentialV;

    open spec fn view(&self) -> ExponentialV {
        ExponentialV {
            scale: self.scale,
            zero_threshold: self.zero_threshold,
            zero_count: self.zero_count,
            positive: self.positive@,
            negative: self.negative@,
        }
    }
}

impl View for HistogramBuckets {
    type V = BucketsV;

    open spec fn view(&self) -> BucketsV {
        match self {
            HistogramBuckets::Classic(c) => BucketsV::Classic(c@),
            HistogramBuckets::Exponential(e) => BucketsV::Exponential(e@),
            HistogramBuckets::Both { classic, exponential } => BucketsV::Both(
                classic@,
                exponential@,
            ),
        }
    }
}

impl View for HistogramSnapshot {
    type V = SnapshotV;

    open spec fn view(&self) -> SnapshotV {
        SnapshotV { count: self.count, sum: self.sum, buckets: self.buckets@ }
    }
}

/// Classic buckets compare equal: same length, bounds equal as doubles, counts equal.
pub open spec fn classic_eq(a: Seq<(u64, u64)>, b: Seq<(u64, u64)>) -> bool {
    a.len() == b.len() && forall|i: int|
        0 <= i < a.len() ==> f64_bits_eq(#[trigger] a[i].0, b[i].0) && a[i].1 == b[i].1
}

/// Exponential buckets compare equal, the zero thresholds as doubles.
pub open spec fn exponential_eq(a: ExponentialV, b: ExponentialV) -> bool {
    a.scale == b.scale && f64_bits_eq(a.zero_threshold, b.zero_threshold) && a.zero_count
        == b.zero_count && a.positive == b.positive && a.negative == b.negative
}

/// Bucket representations compare equal: the same variant with equal contents.
pub open spec fn buckets_eq(a: BucketsV, b: BucketsV) -> bool {
    match (a, b) {
        (BucketsV::Classic(x), BucketsV::Classic(y)) => classic_eq(x, y),
        (BucketsV::Exponential(x), BucketsV::Exponential(y)) => exponential_eq(x, y),
        (BucketsV::Both(c1, e1), BucketsV::Both(c2, e2)) => classic_eq(c1, c2) && exponential_eq(
            e1,
            e2,
        ),
        _ => false,
    }
}

/// Snapshots compare equal: same count, sums equal as doubles, equal buckets.
pub open spec fn snapshot_eq(a: SnapshotV, b: SnapshotV) -> bool {
    a.count == b.count && f64_bits_eq(a.sum, b.sum) && buckets_eq(a.buckets, b.buckets)
}

fn classic_equal(a: &Vec<(u64, u64)>, b: &Vec<(u64, u64)>) -> (r: bool)
    ensures
        r == classic_eq(a@, b@),
{
    if a.len() != b.len() {
        return false;
    }
    let mut i: usize = 0;
    while i < a.len()
        invariant
            a.len() == b.len(),
            i <= a.len(),
            forall|j: int| 0 <= j < i ==> f64_bits_eq(#[trigger] a@[j].0, b@[j].0) && a@[j].1
                == b@[j].1,
        decreases a.len() - i,
    {
        if !f64_bits_equal(a[i].0, b[i].0) || a[i].1 != b[i].1 {
            let ghost k = i as int;
            assert(!(f64_bits_eq(a@[k].0, b@[k].0) && a@[k].1 == b@[k].1));
            return false;
        }
        i = i + 1;
    }
    true
}

impl PartialEq for ExponentialHistogramSnapshot {
    fn eq(&self, other: &Self) -> (r: bool) {
        self.scale == other.scale && f64_bits_equal(self.zero_threshold, other.zero_threshold)
            && self.zero_count == other.zero_count && bucket_maps_equal(
            &self.positive,
            &other.positive,
        ) && bucket_maps_equal(&self.negative, &other.negative)
    }
}

impl PartialEqSpecImpl for ExponentialHistogramSnapshot {
    open spec fn obeys_eq_spec() -> bool {
        true
    }

    open spec fn eq_spec(&self, other: &Self) -> bool {
        exponential_eq(self@, other@)
    }
}

impl PartialEq for HistogramBuckets {
    fn eq(&self, other: &Self) -> (r: bool) {
        match (self, other) {
            (HistogramBuckets::Classic(x), HistogramBuckets::Classic(y)) => classic_equal(x, y),
            (HistogramBuckets::Exponential(x), HistogramBuckets::Exponential(y)) => x.eq(y),
            (
                HistogramBuckets::Both { classic: c1, exponential: e1 },
                HistogramBuckets::Both { classic: c2, exponential: e2 },
            ) => classic_equal(c1, c2) && e1.eq(e2),
            _ => false,
        }
    }
}

impl PartialEqSpecImpl for HistogramBuckets {
    open spec fn obeys_eq_spec() -> bool {
        true
    }

    open spec fn eq_spec(&self, other: &Self) -> bool {
        buckets_eq(self@, other@)
    }
}

impl PartialEq for HistogramSnapshot {
    fn eq(&self, other: &Self) -> (r: bool) {
        self.count == other.count && f64_bits_equal(self.sum, other.sum) && self.buckets.eq(
            &other.buckets,
        )
    }
}

impl PartialEqSpecImpl for HistogramSnapshot {
    open spec fn obeys_eq_spec() -> bool {
        true
    }

    open spec fn eq_spec(&self, other: &Self) -> bool {
        snapshot_eq(self@, other@)
    }
}

fn copy_pairs(v: &Vec<(u64, u64)>) -> (c: Vec<(u64, u64)>)
    ensures
        c@ == v@,
{
    let mut c: Vec<(u64, u64)> = Vec::new();
    let mut i: usize = 0;
    while i < v.len()
        invariant
            i <= v.len(),
            c@ == v@.take(i as int),
        decreases v.len() - i,
    {
        c.push(v[i]);
        assert(c@ =~= v@.take(i + 1));
        i = i + 1;
    }
    assert(v@.take(i as int) =~= v@);
    c
}

fn copy_exponential(e: &ExponentialHistogramSnapshot) -> (c: ExponentialHistogramSnapshot)
    ensures
        c@ == e@,
{
    ExponentialHistogramSnapshot {
        scale: e.scale,
        zero_threshold: e.zero_threshold,
        zero_count: e.zero_count,
        positive: e.positive.clone(),
        negative: e.negative.clone(),
    }
}

/// A copy of the snapshot with the same contents.
pub fn copy_snapshot(s: &HistogramSnapshot) -> (c: HistogramSnapshot)
    ensures
        c@ == s@,
{
    let buckets = match &s.buckets {
        HistogramBuckets::Classic(c) => HistogramBuckets::Classic(copy_pairs(c)),
        HistogramBuckets::Exponential(e) => HistogramBuckets::Exponential(copy_exponential(e)),
        HistogramBuckets::Both { classic, exponential } => HistogramBuckets::Both {
            classic: copy_pairs(classic),
            exponential: copy_exponential(exponential),
        },
    };
    HistogramSnapshot { count: s.count, sum: s.sum, buckets }
}

/// A snapshot is accepted unless it carries exponential buckets (alone or
/// beside classic ones) at a scale outside `MIN_SCHEMA..=MAX_SCHEMA`: changing
/// the scale alone would reinterpret bucket boundaries without rebucketing counts.
pub open spec fn snapshot_supported(s: SnapshotV) -> bool {
    match s.buckets {
        BucketsV::Exponential(e) => MIN_SCHEMA <= e.scale <= MAX_SCHEMA,
        BucketsV::Both(_, e) => MIN_SCHEMA <= e.scale <= MAX_SCHEMA,
        BucketsV::Classic(_) => true,
    }
}

/// The observable state of a histogram handle.
pub struct HandleState {
    /// Observations recorded and not yet drained.
    pub observed: Seq<(u64, Instant)>,
    /// Whether the handle has switched to snapshot replacement.
    pub snapshot_mode: bool,
    /// The latest accepted snapshot not yet drained.
    pub pending: Option<SnapshotV>,
}

/// State after recording `value` at time `t`: ignored in snapshot mode,
/// otherwise added to the observations.
pub open spec fn after_record(st: HandleState, value: u64, t: Instant) -> HandleState {
    if st.snapshot_mode {
        st
    } else {
        HandleState { observed: st.observed.push((value, t)), ..st }
    }
}

/// State after offering a snapshot: an accepted one switches the handle to
/// snapshot mode and replaces any pending snapshot; others change nothing.
pub open spec fn after_set_snapshot(st: HandleState, s: SnapshotV) -> HandleState {
    if snapshot_supported(s) {
        HandleState { observed: st.observed, snapshot_mode: true, pending: Some(s) }
    } else {
        st
    }
}

/// What a drain hands to the distribution.
pub enum DrainedV {
    /// Observations to add to the distribution.
    Samples(Seq<(u64, Instant)>),
    /// A snapshot that replaces the distribution.
    Replace(SnapshotV),
    /// Nothing to apply.
    Unchanged,
}

/// The result of draining: in snapshot mode the pending snapshot (if any),
/// otherwise every recorded observation.
pub open spec fn drain_result(st: HandleState) -> DrainedV {
    if st.snapshot_mode {
        match st.pending {
            Some(s) => DrainedV::Replace(s),
            None => DrainedV::Unchanged,
        }
    } else {
        DrainedV::Samples(newest_block_first(st.observed))
    }
}

/// State after draining: no observations are left, a pending snapshot is
/// consumed, and the mode stays as it was.
pub open spec fn after_drain(st: HandleState) -> HandleState {
    HandleState {
        observed: Seq::empty(),
        snapshot_mode: st.snapshot_mode,
        pending: if st.snapshot_mode {
            None
        } else {
            st.pending
        },
    }
}

/// The update a drain hands to the distribution.
pub enum Drained {
    Samples(Vec<(u64, Instant)>),
    Replace(HistogramSnapshot),
    Unchanged,
}

impl View for Drained {
    type V = DrainedV;

    open spec fn view(&self) -> DrainedV {
        match self {
            Drained::Samples(v) => DrainedV::Samples(v@),
            Drained::Replace(s) => DrainedV::Replace(s@),
            Drained::Unchanged => DrainedV::Unchanged,
        }
    }
}

/// A histogram handler that permanently switches to aggregate replacement on
/// its first accepted snapshot.
pub struct HistogramHandle {
    observations: AtomicBucket<(u64, Instant)>,
    snapshot_mode: bool,
    snapshot: Option<HistogramSnapshot>,
}

pub open spec fn opt_snapshot_view(s: Option<HistogramSnapshot>) -> Option<SnapshotV> {
    match s {
        Some(x) => Some(x@),
        None => None,
    }
}

impl View for HistogramHandle {
    type V = HandleState;

    closed spec fn view(&self) -> HandleState {
        HandleState {
            observed: bucket_contents(self.observations),
            snapshot_mode: self.snapshot_mode,
            pending: opt_snapshot_view(self.snapshot),
        }
    }
}

impl HistogramHandle {
    /// A handle with no observations, in observation mode.
    pub fn new() -> (h: Self)
        ensures
            h@.observed == Seq::<(u64, Instant)>::empty(),
            !h@.snapshot_mode,
            h@.pending is None,
    {
        HistogramHandle { observations: new_bucket(), snapshot_mode: false, snapshot: None }
    }

    /// Records an observation (the bit pattern of the value) with the current
    /// time, unless the handle is in snapshot mode, where it is ignored.
    pub fn record(&mut self, value: u64)
        ensures
            exists|t: Instant| final(self)@ == #[trigger] after_record(old(self)@, value, t),
    {
        if !self.snapshot_mode {
            let t = now();
            bucket_push(&mut self.observations, (value, t));
            assert(self@ == after_record(old(self)@, value, t));
        } else {
            assert(self@ == after_record(old(self)@, value, arbitrary()));
        }
    }

    /// Offers a cumulative snapshot; an accepted one switches the handle to
    /// snapshot mode for good and replaces any pending snapshot.
    pub fn set_snapshot(&mut self, snapshot: &HistogramSnapshot)
        ensures
            final(self)@ == after_set_snapshot(old(self)@, snapshot@),
            (match snapshot.buckets {
                HistogramBuckets::Classic(_) => true,
                HistogramBuckets::Exponential(e) => -4 <= e.scale <= 8,
                HistogramBuckets::Both { exponential, .. } => -4 <= exponential.scale <= 8,
            }) ==> final(self)@.snapshot_mode && final(self)@.pending == Some(snapshot@)
                && final(self)@.observed == old(self)@.observed,
            !(match snapshot.buckets {
                HistogramBuckets::Classic(_) => true,
                HistogramBuckets::Exponential(e) => -4 <= e.scale <= 8,
                HistogramBuckets::Both { exponential, .. } => -4 <= exponential.scale <= 8,
            }) ==> final(self)@ == old(self)@,
    {
        let scale = match &snapshot.buckets {
            HistogramBuckets::Classic(_) => None,
            HistogramBuckets::Exponential(exponential) => Some(exponential.scale),
            HistogramBuckets::Both { exponential, .. } => Some(exponential.scale),
        };
        if let Some(scale) = scale {
            if !(MIN_SCHEMA <= scale && scale <= MAX_SCHEMA) {
                return ;
            }
        }
        let snapshot = copy_snapshot(snapshot);
        self.snapshot_mode = true;
        self.snapshot = Some(snapshot);
    }

    /// Drains the handle: in snapshot mode the observations are discarded and
    /// the pending snapshot, if any, is handed over to replace the
    /// distribution; otherwise every recorded observation is handed over.
    pub fn drain_into(&mut self) -> (d: Drained)
        ensures
            d@ == drain_result(old(self)@),
            final(self)@ == after_drain(old(self)@),
    {
        if self.snapshot_mode {
            bucket_clear(&mut self.observations);
            let taken = self.snapshot.take();
            match taken {
                Some(s) => Drained::Replace(s),
                None => Drained::Unchanged,
            }
        } else {
            let samples = bucket_take_all(&mut self.observations);
            Drained::Samples(samples)
        }
    }
}

/// Atomic metric storage for the prometheus exporter: every new histogram
/// starts as an empty handle in observation mode.
pub struct AtomicStorage;

impl AtomicStorage {
    /// A new histogram handle.
    pub fn histogram(&self) -> (h: HistogramHandle)
        ensures
            h@.observed == Seq::<(u64, Instant)>::empty(),
            !h@.snapshot_mode,
            h@.pending is None,
    {
        HistogramHandle::new()
    }
}

/// Snapshot mode is permanent: no later operation switches a handle back,
/// observations recorded in snapshot mode are ignored, and a drain never hands
/// observations over, even ones that were already in the bucket: it discards them.
pub proof fn lemma_snapshot_mode_is_permanent(st: HandleState, s: SnapshotV, value: u64, t: Instant)
    requires
        st.snapshot_mode,
    ensures
        after_set_snapshot(st, s).snapshot_mode,
        after_drain(st).snapshot_mode,
        after_record(st, value, t) == st,
        !(drain_result(st) is Samples),
        after_drain(st).observed == Seq::<(u64, Instant)>::empty(),
{
}

/// A drain after an accepted snapshot hands over exactly that snapshot, once,
/// whatever observations were recorded before or in flight.
pub proof fn lemma_drain_after_snapshot(st: HandleState, s: SnapshotV)
    requires
        snapshot_supported(s),
    ensures
        drain_result(after_set_snapshot(st, s)) == DrainedV::Replace(s),
        drain_result(after_drain(after_set_snapshot(st, s))) == DrainedV::Unchanged,
{
}

/// Snapshots replace rather than add: of two accepted snapshots offered before
/// a drain, only the later one is handed over.
pub proof fn lemma_later_snapshot_replaces(st: HandleState, s1: SnapshotV, s2: SnapshotV)
    requires
        snapshot_supported(s1),
        snapshot_supported(s2),
    ensures
        drain_result(after_set_snapshot(after_set_snapshot(st, s1), s2)) == DrainedV::Replace(s2),
{
}

/// Before any snapshot, a drain hands over every observation recorded since
/// the last drain, the new one included, and leaves none behind.
pub proof fn lemma_drain_returns_recorded(st: HandleState, value: u64, t: Instant)
    requires
        !st.snapshot_mode,
    ensures
        drain_result(after_record(st, value, t)) == DrainedV::Samples(
            newest_block_first(st.observed.push((value, t))),
        ),
        after_drain(after_record(st, value, t)).observed == Seq::<(u64, Instant)>::empty(),
{
}

/// Whether a snapshot is accepted depends on its buckets alone: classic
/// buckets are always accepted, and exponential buckets (alone or beside
/// classic ones) exactly when their scale lies in `-4..=8`; count and sum play
/// no part.
pub proof fn lemma_snapshot_acceptance(s: SnapshotV, t: SnapshotV)
    ensures
        s.buckets is Classic ==> snapshot_supported(s),
        s.buckets matches BucketsV::Exponential(e) ==> (snapshot_supported(s) <==> -4 <= e.scale
            <= 8),
        s.buckets matches BucketsV::Both(_, e) ==> (snapshot_supported(s) <==> -4 <= e.scale <= 8),
        t.buckets == s.buckets ==> snapshot_supported(t) == snapshot_supported(s),
{
}

/// An unsupported snapshot leaves the handle unchanged.
pub proof fn lemma_unsupported_snapshot_ignored(st: HandleState, s: SnapshotV)
    requires
        !snapshot_supported(s),
    ensures
        after_set_snapshot(st, s) == st,
{
}

} // verus!
