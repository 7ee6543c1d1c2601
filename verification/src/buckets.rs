use std::collections::BTreeMap;
use vstd::prelude::*;
use vstd::laws_cmp::obeys_cmp;
use vstd::std_specs::cmp::OrdSpec;
use vstd::std_specs::btree::{axiom_increasing_seq_meaning, increasing_seq, spec_btree_map_iter};
use vstd::std_specs::iter::IteratorSpec;

use crate::pb::BucketSpan;

verus! {

/// `s` lists the entries of `m` by strictly increasing bucket index.
pub open spec fn is_sorted_listing(s: Seq<(i32, u64)>, m: Map<i32, u64>) -> bool {
    &&& forall|a: int, b: int| 0 <= a < b < s.len() ==> s[a].0 < s[b].0
    &&& forall|j: int|
        0 <= j < s.len() ==> #[trigger] m.contains_key(s[j].0) && m[s[j].0] == s[j].1
    &&& forall|k: i32| #[trigger]
        m.contains_key(k) ==> exists|j: int| 0 <= j < s.len() && s[j].0 == k
}

/// The entries of a bucket map in increasing index order.
pub open spec fn sorted_entries(m: Map<i32, u64>) -> Seq<(i32, u64)> {
    choose|s: Seq<(i32, u64)>| is_sorted_listing(s, m)
}

/// A bucket count read as an `i64`, the way an `as` cast reads it: counts
/// above `i64::MAX` wrap around to negative values.
pub open spec fn count_as_i64(c: u64) -> int {
    if c <= i64::MAX {
        c as int
    } else {
        c - 0x1_0000_0000_0000_0000
    }
}

/// The delta written for bucket `b` after bucket `a` does not overflow: after
/// a gap of one or two empty buckets the previous count is negated, otherwise
/// it is subtracted from the new count.
pub open spec fn delta_fits(a: (i32, u64), b: (i32, u64)) -> bool {
    let gap = b.0 - a.0 - 1;
    if 1 <= gap <= 2 {
        count_as_i64(a.1) != i64::MIN
    } else {
        i64::MIN <= count_as_i64(b.1) - count_as_i64(a.1) <= i64::MAX
    }
}

/// The sorted entries can be encoded without overflow: every index has a
/// successor, no gap between neighbouring indices exceeds `i32::MAX`, and no
/// delta leaves the `i64` range.
pub open spec fn entries_fit(s: Seq<(i32, u64)>) -> bool {
    &&& forall|j: int| 0 <= j < s.len() ==> #[trigger] s[j].0 < i32::MAX
    &&& forall|j: int|
        0 < j < s.len() ==> s[j].0 - s[j - 1].0 - 1 <= i32::MAX && delta_fits(
            s[j - 1],
            #[trigger] s[j],
        )
}

/// The span/delta layout built so far, with the previous count and the index
/// that directly follows the last bucket.
pub struct SpanLayout {
    pub spans: Seq<(int, int)>,
    pub deltas: Seq<int>,
    pub prev: int,
    pub next: int,
}

/// Adds bucket `i` with count `c`. A gap of at most two buckets extends the
/// last span with empty buckets; the first bucket, or a larger gap, opens a new span.
pub open spec fn layout_step(acc: SpanLayout, first: bool, i: int, c: int) -> SpanLayout {
    let gap = i - acc.next;
    if first || gap > 2 {
        SpanLayout {
            spans: acc.spans.push((gap, 1)),
            deltas: acc.deltas.push(c - acc.prev),
            prev: c,
            next: i + 1,
        }
    } else {
        let last = acc.spans.last();
        SpanLayout {
            spans: acc.spans.update(acc.spans.len() - 1, (last.0, last.1 + gap + 1)),
            deltas: if gap == 0 {
                acc.deltas.push(c - acc.prev)
            } else if gap == 1 {
                acc.deltas.push(-acc.prev).push(c)
            } else {
                acc.deltas.push(-acc.prev).push(0).push(c)
            },
            prev: c,
            next: i + 1,
        }
    }
}

/// The span/delta layout of a sorted entry listing.
pub open spec fn layout_of(es: Seq<(i32, u64)>) -> SpanLayout
    decreases es.len(),
{
    if es.len() == 0 {
        SpanLayout { spans: seq![], deltas: seq![], prev: 0, next: 0 }
    } else {
        layout_step(
            layout_of(es.drop_last()),
            es.len() == 1,
            es.last().0 as int,
            count_as_i64(es.last().1),
        )
    }
}

/// Index one past the last bucket covered by `spans`.
pub open spec fn spans_end(spans: Seq<(int, int)>) -> int
    decreases spans.len(),
{
    if spans.len() == 0 {
        0
    } else {
        spans_end(spans.drop_last()) + spans.last().0 + spans.last().1
    }
}

/// Bucket indices covered by `spans`, in order.
pub open spec fn span_positions(spans: Seq<(int, int)>) -> Seq<int>
    decreases spans.len(),
{
    if spans.len() == 0 {
        seq![]
    } else {
        let start = spans_end(spans.drop_last()) + spans.last().0;
        span_positions(spans.drop_last()) + Seq::new(spans.last().1 as nat, |j: int| start + j)
    }
}

/// Absolute bucket counts from deltas: each count is the previous one plus its delta.
pub open spec fn running_counts(deltas: Seq<int>) -> Seq<int>
    decreases deltas.len(),
{
    if deltas.len() == 0 {
        seq![]
    } else {
        let before = running_counts(deltas.drop_last());
        before.push(
            if before.len() == 0 {
                deltas.last()
            } else {
                before.last() + deltas.last()
            },
        )
    }
}


proof fn lemma_spans_push(spans: Seq<(int, int)>, x: (int, int))
    requires
        x.1 >= 0,
    ensures
        spans_end(spans.push(x)) == spans_end(spans) + x.0 + x.1,
        span_positions(spans.push(x)) == span_positions(spans) + Seq::new(
            x.1 as nat,
            |j: int| spans_end(spans) + x.0 + j,
        ),
{
    assert(spans.push(x).drop_last() =~= spans);
}

proof fn lemma_spans_extend_last(spans: Seq<(int, int)>, g: int)
    requires
        spans.len() > 0,
        spans.last().1 >= 0,
        g >= 0,
    ensures
        ({
            let last = spans.last();
            let s2 = spans.update(spans.len() - 1, (last.0, last.1 + g));
            &&& spans_end(s2) == spans_end(spans) + g
            &&& span_positions(s2) == span_positions(spans) + Seq::new(
                g as nat,
                |j: int| spans_end(spans) + j,
            )
        }),
{
    let last = spans.last();
    let s2 = spans.update(spans.len() - 1, (last.0, last.1 + g));
    assert(s2.drop_last() =~= spans.drop_last());
    let start = spans_end(spans.drop_last()) + last.0;
    assert(Seq::new((last.1 + g) as nat, |j: int| start + j) =~= Seq::new(
        last.1 as nat,
        |j: int| start + j,
    ) + Seq::new(g as nat, |j: int| spans_end(spans) + j));
}

proof fn lemma_counts_push(deltas: Seq<int>, x: int)
    ensures
        running_counts(deltas.push(x)) == running_counts(deltas).push(
            if deltas.len() == 0 {
                x
            } else {
                running_counts(deltas).last() + x
            },
        ),
        running_counts(deltas).len() == deltas.len(),
    decreases deltas.len(),
{
    assert(deltas.push(x).drop_last() =~= deltas);
    lemma_counts_len(deltas);
}

proof fn lemma_counts_len(deltas: Seq<int>)
    ensures
        running_counts(deltas).len() == deltas.len(),
    decreases deltas.len(),
{
    if deltas.len() > 0 {
        lemma_counts_len(deltas.drop_last());
    }
}


/// Bucket indices strictly increase along the listing.
pub open spec fn strictly_increasing(es: Seq<(i32, u64)>) -> bool {
    forall|a: int, b: int| 0 <= a < b < es.len() ==> es[a].0 < es[b].0
}

/// Positions `p` with counts `c` describe the non-empty listing `es`: the
/// positions strictly increase and end at the last index, every listed bucket
/// sits at its index with its count, and every other position is empty.
#[verifier::opaque]
pub open spec fn describes(es: Seq<(i32, u64)>, p: Seq<int>, c: Seq<int>) -> bool {
    &&& p.len() == c.len()
    &&& p.len() > 0
    &&& p.last() == es.last().0
    &&& c.last() == count_as_i64(es.last().1)
    &&& forall|a: int, b: int| 0 <= a < b < p.len() ==> p[a] < p[b]
    &&& forall|t: int|
        #![trigger es[t]]
        0 <= t < es.len() ==> exists|j: int|
            0 <= j < p.len() && p[j] == es[t].0 && c[j] == count_as_i64(es[t].1)
    &&& forall|j: int|
        #![trigger p[j]]
        0 <= j < p.len() && c[j] != 0 ==> exists|t: int|
            0 <= t < es.len() && es[t].0 == p[j] && count_as_i64(es[t].1) == c[j]
}

/// What the layout of a non-empty listing `es` keeps true: its positions and
/// running counts describe `es`, and all values fit the encoded integer widths.
#[verifier::opaque]
pub open spec fn layout_inv(es: Seq<(i32, u64)>, acc: SpanLayout) -> bool {
    &&& acc.next == es.last().0 + 1
    &&& spans_end(acc.spans) == acc.next
    &&& acc.spans.len() >= 1
    &&& forall|t: int| 0 <= t < acc.spans.len() ==> 1 <= #[trigger] acc.spans[t].1 <= u32::MAX
    &&& forall|t: int|
        0 <= t < acc.spans.len() ==> i32::MIN <= #[trigger] acc.spans[t].0 <= i32::MAX
    &&& acc.spans.last().1 <= acc.next - es[0].0
    &&& forall|t: int|
        0 <= t < acc.deltas.len() ==> i64::MIN <= #[trigger] acc.deltas[t] <= i64::MAX
    &&& span_positions(acc.spans).len() == acc.deltas.len()
    &&& acc.prev == count_as_i64(es.last().1)
    &&& describes(es, span_positions(acc.spans), running_counts(acc.deltas))
}

/// Appending `w` consecutive positions ending at the new last index, all empty
/// but the last, keeps the description exact.
#[verifier::spinoff_prover]
#[verifier::rlimit(40)]
proof fn lemma_describes_extend(
    es: Seq<(i32, u64)>,
    p: Seq<int>,
    c: Seq<int>,
    base: int,
    w: int,
)
    requires
        es.len() > 1,
        strictly_increasing(es),
        describes(es.drop_last(), p, c),
        w >= 1,
        base > p.last(),
        base + w - 1 == es.last().0,
    ensures
        describes(
            es,
            p + Seq::new(w as nat, |j: int| base + j),
            c + Seq::new(w as nat, |j: int| if j == w - 1 { count_as_i64(es.last().1) } else { 0 }),
        ),
{
    reveal(describes);
    let es0 = es.drop_last();
    let p2 = p + Seq::new(w as nat, |j: int| base + j);
    let c2 = c + Seq::new(w as nat, |j: int| if j == w - 1 { count_as_i64(es.last().1) } else { 0 });
    assert forall|a: int, b: int| 0 <= a < b < p2.len() implies p2[a] < p2[b] by {
        if b >= p.len() && a < p.len() {
            if a < p.len() - 1 {
                assert(p[a] < p[p.len() - 1]);
            }
        }
    }
    assert forall|t: int| #![trigger es[t]] 0 <= t < es.len() implies exists|j: int|
        0 <= j < p2.len() && p2[j] == es[t].0 && c2[j] == count_as_i64(es[t].1) by {
        if t < es.len() - 1 {
            assert(es0[t] == es[t]);
            let j = choose|j: int|
                0 <= j < p.len() && p[j] == es0[t].0 && c[j] == count_as_i64(es0[t].1);
            assert(p2[j] == p[j] && c2[j] == c[j]);
        } else {
            assert(p2[p2.len() - 1] == es.last().0 && c2[c2.len() - 1] == count_as_i64(
                es.last().1,
            ));
        }
    }
    assert forall|j: int| #![trigger p2[j]] 0 <= j < p2.len() && c2[j] != 0 implies exists|t: int|
        0 <= t < es.len() && es[t].0 == p2[j] && count_as_i64(es[t].1) == c2[j] by {
        if j < p.len() {
            assert(p2[j] == p[j] && c2[j] == c[j]);
            let t = choose|t: int|
                0 <= t < es0.len() && es0[t].0 == p[j] && count_as_i64(es0[t].1) == c[j];
            assert(es[t] == es0[t]);
        } else {
            assert(j == p2.len() - 1);
            assert(es[es.len() - 1].0 == p2[j]);
        }
    }
}

proof fn lemma_layout_first(es: Seq<(i32, u64)>)
    requires
        es.len() == 1,
        entries_fit(es),
    ensures
        layout_inv(es, layout_of(es)),
{
    reveal(describes);
    reveal(layout_inv);
    let i = es.last().0 as int;
    let cnt = count_as_i64(es.last().1);
    let acc = layout_of(es.drop_last());
    lemma_spans_push(acc.spans, (i, 1));
    lemma_counts_push(acc.deltas, cnt);
    let p2 = span_positions(layout_of(es).spans);
    assert(p2 =~= seq![i]);
    let c2 = running_counts(layout_of(es).deltas);
    assert(c2 =~= seq![cnt]);
    assert(es[0] == es.last());
    assert(p2[0] == es[0].0 && c2[0] == count_as_i64(es[0].1));
}

proof fn lemma_layout_inv(es: Seq<(i32, u64)>)
    requires
        es.len() > 0,
        strictly_increasing(es),
        entries_fit(es),
    ensures
        layout_inv(es, layout_of(es)),
    decreases es.len(),
{
    if es.len() == 1 {
        lemma_layout_first(es);
    } else {
        let es0 = es.drop_last();
        assert(strictly_increasing(es0));
        assert(entries_fit(es0)) by {
            assert forall|j: int| 0 < j < es0.len() implies es0[j].0 - es0[j - 1].0 - 1
                <= i32::MAX && delta_fits(es0[j - 1], #[trigger] es0[j]) by {
                assert(es0[j] == es[j] && es0[j - 1] == es[j - 1]);
            }
        }
        lemma_layout_inv(es0);
        lemma_layout_next(es);
    }
}

#[verifier::spinoff_prover]
#[verifier::rlimit(60)]
proof fn lemma_layout_next(es: Seq<(i32, u64)>)
    requires
        es.len() > 1,
        strictly_increasing(es),
        entries_fit(es),
        layout_inv(es.drop_last(), layout_of(es.drop_last())),
    ensures
        layout_inv(es, layout_of(es)),
{
    reveal(describes);
    reveal(layout_inv);
    let i = es.last().0 as int;
    let cnt = count_as_i64(es.last().1);
    let es0 = es.drop_last();
    let acc = layout_of(es0);
    assert(es0[0] == es[0]);
    assert(es0.last() == es[es.len() - 2]);
    let p = span_positions(acc.spans);
    let c = running_counts(acc.deltas);
    let gap = i - acc.next;
    assert(gap >= 0);
    assert(gap <= i32::MAX && delta_fits(es[es.len() - 2], es[es.len() - 1])) by {
        assert(es[es.len() - 1].0 - es[es.len() - 2].0 - 1 <= i32::MAX);
    }
    let acc2 = layout_of(es);
    let p2 = span_positions(acc2.spans);
    let c2 = running_counts(acc2.deltas);
    let base = if gap > 2 { i } else { acc.next };
    let w = if gap > 2 { 1int } else { gap + 1 };
    let newc = Seq::new(w as nat, |j: int| if j == w - 1 { cnt } else { 0 });
    lemma_counts_len(acc.deltas);
    if gap > 2 {
        lemma_spans_push(acc.spans, (gap, 1));
        lemma_counts_push(acc.deltas, cnt - acc.prev);
        assert(c2 =~= c + newc);
    } else {
        lemma_spans_extend_last(acc.spans, gap + 1);
        if gap == 0 {
            lemma_counts_push(acc.deltas, cnt - acc.prev);
            assert(c2 =~= c + newc);
        } else if gap == 1 {
            lemma_counts_push(acc.deltas, -acc.prev);
            lemma_counts_push(acc.deltas.push(-acc.prev), cnt);
            assert(c2 =~= c + newc);
        } else {
            lemma_counts_push(acc.deltas, -acc.prev);
            lemma_counts_push(acc.deltas.push(-acc.prev), 0);
            lemma_counts_push(acc.deltas.push(-acc.prev).push(0), cnt);
            assert(c2 =~= c + newc);
        }
    }
    assert(p2 =~= p + Seq::new(w as nat, |j: int| base + j));
    lemma_describes_extend(es, p, c, base, w);
    lemma_counts_len(acc2.deltas);
    assert forall|t: int| 0 <= t < acc2.spans.len() implies 1 <= #[trigger] acc2.spans[t].1
        <= u32::MAX by {
        if t < acc.spans.len() - 1 {
            assert(acc2.spans[t] == acc.spans[t]);
        } else if t == acc.spans.len() - 1 && gap > 2 {
            assert(acc2.spans[t] == acc.spans[t]);
        }
    }
    assert forall|t: int| 0 <= t < acc2.spans.len() implies i32::MIN <= #[trigger] acc2.spans[t].0
        <= i32::MAX by {
        if t < acc.spans.len() {
            assert(acc2.spans[t].0 == acc.spans[t].0);
        }
    }
    assert forall|t: int| 0 <= t < acc2.deltas.len() implies i64::MIN <= #[trigger] acc2.deltas[t]
        <= i64::MAX by {
        if t < acc.deltas.len() {
            assert(acc2.deltas[t] == acc.deltas[t]);
        }
    }
}


proof fn lemma_sorted_listing_unique(s1: Seq<(i32, u64)>, s2: Seq<(i32, u64)>, m: Map<i32, u64>)
    requires
        is_sorted_listing(s1, m),
        is_sorted_listing(s2, m),
    ensures
        s1 == s2,
    decreases s1.len(),
{
    if s1.len() == 0 {
        if s2.len() > 0 {
            assert(m.contains_key(s2[0].0));
        }
    } else if s2.len() == 0 {
        assert(m.contains_key(s1[0].0));
    } else {
        let k = s1[0].0;
        assert(m.contains_key(k));
        assert(m.contains_key(s2[0].0));
        let j2 = choose|j: int| 0 <= j < s2.len() && s2[j].0 == k;
        let j1 = choose|j: int| 0 <= j < s1.len() && s1[j].0 == s2[0].0;
        if j2 > 0 {
            if j1 > 0 {
                assert(s1[0].0 < s1[j1].0);
            }
            assert(s2[0].0 < s2[j2].0);
        }
        assert(s1[0] == s2[0]);
        let m2 = m.remove(k);
        let t1 = s1.drop_first();
        let t2 = s2.drop_first();
        assert forall|kk: i32| #[trigger] m2.contains_key(kk) implies exists|j: int|
            0 <= j < t1.len() && t1[j].0 == kk by {
            let j = choose|j: int| 0 <= j < s1.len() && s1[j].0 == kk;
            assert(t1[j - 1] == s1[j]);
        }
        assert forall|kk: i32| #[trigger] m2.contains_key(kk) implies exists|j: int|
            0 <= j < t2.len() && t2[j].0 == kk by {
            let j = choose|j: int| 0 <= j < s2.len() && s2[j].0 == kk;
            assert(t2[j - 1] == s2[j]);
        }
        assert forall|j: int| 0 <= j < t1.len() implies #[trigger] m2.contains_key(t1[j].0)
            && m2[t1[j].0] == t1[j].1 by {
            assert(t1[j] == s1[j + 1]);
            assert(s1[0].0 < s1[j + 1].0);
            assert(m.contains_key(s1[j + 1].0));
        }
        assert forall|j: int| 0 <= j < t2.len() implies #[trigger] m2.contains_key(t2[j].0)
            && m2[t2[j].0] == t2[j].1 by {
            assert(t2[j] == s2[j + 1]);
            assert(s2[0].0 < s2[j + 1].0);
            assert(m.contains_key(s2[j + 1].0));
        }
        lemma_sorted_listing_unique(t1, t2, m2);
        assert(s1 =~= s2) by {
            assert forall|j: int| 0 <= j < s1.len() implies s1[j] == s2[j] by {
                if j > 0 {
                    assert(s1[j] == t1[j - 1]);
                    assert(s2[j] == t2[j - 1]);
                }
            }
        }
    }
}


proof fn lemma_iter_listing(buckets: &BTreeMap<i32, u64>)
    requires
        increasing_seq(
            spec_btree_map_iter(buckets).remaining().map_values(|kv: (&i32, &u64)| *kv.0),
        ),
    ensures
        is_sorted_listing(listing_of_items(spec_btree_map_iter(buckets).remaining()), buckets@),
{
    broadcast use vstd::std_specs::btree::group_btree_axioms, vstd::laws_cmp::group_laws_cmp;

    let v = spec_btree_map_iter(buckets).remaining();
    let keys = v.map_values(|kv: (&i32, &u64)| *kv.0);
    let s = listing_of_items(v);
    assert(obeys_cmp::<i32>());
    axiom_increasing_seq_meaning::<i32>(keys);
    assert forall|a: int, b: int| 0 <= a < b < s.len() implies s[a].0 < s[b].0 by {
        assert(keys[a] == s[a].0 && keys[b] == s[b].0);
        assert(keys[a].cmp_spec(&keys[b]) is Less);
    }
    assert forall|j: int| 0 <= j < s.len() implies #[trigger] buckets@.contains_key(s[j].0)
        && buckets@[s[j].0] == s[j].1 by {
        assert(buckets@.contains_key(*v[j].0));
    }
    assert forall|k: i32| #[trigger] buckets@.contains_key(k) implies exists|j: int|
        0 <= j < s.len() && s[j].0 == k by {
        assert(v.contains((&k, &buckets@[k])));
        let j = choose|j: int| 0 <= j < v.len() && v[j] == (&k, &buckets@[k]);
        assert(s[j].0 == k);
    }
}

proof fn lemma_layout_facts(es: Seq<(i32, u64)>)
    requires
        es.len() > 0,
        layout_inv(es, layout_of(es)),
    ensures
        ({
            let acc = layout_of(es);
            &&& acc.next == es.last().0 + 1
            &&& acc.prev == count_as_i64(es.last().1)
            &&& acc.spans.len() >= 1
            &&& forall|t: int|
                0 <= t < acc.spans.len() ==> 1 <= #[trigger] acc.spans[t].1 <= u32::MAX
        }),
{
    reveal(layout_inv);
}

proof fn lemma_empty_entries(m: Map<i32, u64>)
    requires
        m =~= Map::empty(),
    ensures
        sorted_entries(m) == Seq::<(i32, u64)>::empty(),
{
    assert(is_sorted_listing(Seq::empty(), m));
    lemma_sorted_listing_unique(sorted_entries(m), Seq::empty(), m);
}

proof fn lemma_listing_is_sorted_entries(s: Seq<(i32, u64)>, m: Map<i32, u64>)
    requires
        is_sorted_listing(s, m),
    ensures
        sorted_entries(m) == s,
{
    lemma_sorted_listing_unique(s, sorted_entries(m), m);
}

#[verifier::opaque]
spec fn listing_fits(es: Seq<(i32, u64)>, m: Map<i32, u64>) -> bool {
    is_sorted_listing(es, m) && entries_fit(es)
}

/// One step of the construction: the layout of the first `n + 1` entries is
/// one `layout_step` after that of the first `n`, with every quantity in range.
proof fn lemma_advance(es: Seq<(i32, u64)>, m: Map<i32, u64>, n: int)
    requires
        listing_fits(es, m),
        0 <= n < es.len(),
    ensures
        ({
            let pre = layout_of(es.take(n));
            let post = layout_of(es.take(n + 1));
            let i = es[n].0 as int;
            let c = count_as_i64(es[n].1);
            let gap = i - pre.next;
            &&& post == layout_step(pre, n == 0, i, c)
            &&& i < i32::MAX
            &&& i64::MIN <= pre.prev <= i64::MAX
            &&& n == 0 ==> pre.next == 0 && pre.prev == 0
            &&& n > 0 ==> 0 <= gap <= i32::MAX
            &&& n > 0 ==> pre.spans.len() >= 1
            &&& n > 0 && gap <= 2 ==> 1 <= pre.spans.last().1 && pre.spans.last().1 + gap + 1
                <= u32::MAX
            &&& n > 0 && 1 <= gap <= 2 ==> pre.prev != i64::MIN
            &&& (n == 0 || gap == 0 || gap > 2) ==> i64::MIN <= c - pre.prev <= i64::MAX
        }),
{
    reveal(listing_fits);
    let pre_es = es.take(n);
    let post_es = es.take(n + 1);
    assert(post_es.drop_last() =~= pre_es);
    assert(post_es.last() == es[n]);
    assert(es[n].0 < i32::MAX);
    assert(strictly_increasing(post_es));
    assert(entries_fit(post_es)) by {
        assert forall|j: int| 0 < j < post_es.len() implies post_es[j].0 - post_es[j - 1].0 - 1
            <= i32::MAX && delta_fits(post_es[j - 1], #[trigger] post_es[j]) by {
            assert(post_es[j] == es[j] && post_es[j - 1] == es[j - 1]);
        }
    }
    lemma_layout_inv(post_es);
    lemma_layout_facts(post_es);
    if n > 0 {
        assert(strictly_increasing(pre_es));
        assert(entries_fit(pre_es)) by {
            assert forall|j: int| 0 < j < pre_es.len() implies pre_es[j].0 - pre_es[j - 1].0 - 1
                <= i32::MAX && delta_fits(pre_es[j - 1], #[trigger] pre_es[j]) by {
                assert(pre_es[j] == es[j] && pre_es[j - 1] == es[j - 1]);
            }
        }
        lemma_layout_inv(pre_es);
        lemma_layout_facts(pre_es);
        lemma_layout_facts(post_es);
        assert(pre_es.last() == es[n - 1]);
        assert(es[n - 1].0 < es[n].0);
        assert(es[n].0 - es[n - 1].0 - 1 <= i32::MAX && delta_fits(es[n - 1], es[n]));
        let pre = layout_of(pre_es);
        let post = layout_of(post_es);
        let gap = es[n].0 - pre.next;
        if gap <= 2 {
            assert(post.spans[pre.spans.len() - 1].1 == pre.spans.last().1 + gap + 1);
        }
    } else {
        assert(pre_es =~= Seq::<(i32, u64)>::empty());
    }
}

proof fn lemma_count_cast(c: u64)
    ensures
        (c as i64) as int == count_as_i64(c),
{
    if c <= 0x7fff_ffff_ffff_ffff {
        assert((c as i64) as int == c as int) by (bit_vector)
            requires
                c <= 0x7fff_ffff_ffff_ffff,
        ;
    } else {
        assert((c as i64) as int == c - 0x1_0000_0000_0000_0000int) by (bit_vector)
            requires
                c > 0x7fff_ffff_ffff_ffff,
        ;
    }
}

/// Adds bucket `i` with `count` to the encoded spans and deltas.
fn append_bucket(
    spans: &mut Vec<BucketSpan>,
    deltas: &mut Vec<i64>,
    first: bool,
    i: i32,
    count: i64,
    prev_count: i64,
    next_i: i32,
    Ghost(pre): Ghost<SpanLayout>,
)
    requires
        spans_match(old(spans)@, pre.spans),
        deltas_match(old(deltas)@, pre.deltas),
        prev_count == pre.prev,
        next_i == pre.next,
        first ==> next_i == 0 && prev_count == 0,
        !first && 1 <= i - next_i <= 2 ==> prev_count != i64::MIN,
        first || i - next_i == 0 || i - next_i > 2 ==> i64::MIN <= count - prev_count <= i64::MAX,
        !first ==> 0 <= i - next_i <= i32::MAX && pre.spans.len() >= 1,
        !first && i - next_i <= 2 ==> 1 <= pre.spans.last().1 && pre.spans.last().1 + (i
            - next_i) + 1 <= u32::MAX,
    ensures
        spans_match(final(spans)@, layout_step(pre, first, i as int, count as int).spans),
        deltas_match(final(deltas)@, layout_step(pre, first, i as int, count as int).deltas),
{
    let ghost post = layout_step(pre, first, i as int, count as int);
    let i_delta = i - next_i;
    if first || i_delta > 2 {
        spans.push(BucketSpan { offset: Some(i_delta), length: Some(1) });
        deltas.push(count - prev_count);
    } else {
        let k = spans.len() - 1;
        let last = spans[k];
        let new_len = last.length.unwrap() + (i_delta as u32) + 1;
        spans.set(k, BucketSpan { offset: last.offset, length: Some(new_len) });
        if i_delta >= 1 {
            deltas.push(-prev_count);
        }
        if i_delta >= 2 {
            deltas.push(0);
        }
        if i_delta >= 1 {
            deltas.push(count);
        } else {
            deltas.push(count - prev_count);
        }
    }
    proof {
        assert(spans_match(spans@, post.spans));
        assert(deltas_match(deltas@, post.deltas));
    }
}

/// Pairs of bucket index and count, read through the references the map yields.
pub open spec fn listing_of_items(items: Seq<(&i32, &u64)>) -> Seq<(i32, u64)> {
    items.map_values(|kv: (&i32, &u64)| (*kv.0, *kv.1))
}

/// The encoded spans of a layout.
pub open spec fn span_seq(layout: Seq<(int, int)>) -> Seq<BucketSpan> {
    layout.map_values(
        |sp: (int, int)| BucketSpan { offset: Some(sp.0 as i32), length: Some(sp.1 as u32) },
    )
}

/// The encoded deltas of a layout.
pub open spec fn delta_seq(layout: Seq<int>) -> Seq<i64> {
    layout.map_values(|d: int| d as i64)
}

/// Every encoded span carries the offset and length of the corresponding layout span.
pub open spec fn spans_match(spans: Seq<BucketSpan>, layout: Seq<(int, int)>) -> bool {
    &&& spans.len() == layout.len()
    &&& forall|t: int|
        0 <= t < spans.len() ==> (#[trigger] spans[t]).offset == Some(layout[t].0 as i32)
            && spans[t].length == Some(layout[t].1 as u32)
}

/// Every encoded delta equals the corresponding layout delta.
pub open spec fn deltas_match(deltas: Seq<i64>, layout: Seq<int>) -> bool {
    &&& deltas.len() == layout.len()
    &&& forall|t: int| 0 <= t < deltas.len() ==> #[trigger] deltas[t] == layout[t]
}

/// Converts bucket counts indexed by bucket number into the spans and deltas of
/// a Prometheus native histogram: a gap of one or two buckets is filled with
/// empty buckets, a larger gap starts a new span, and each delta is the change
/// from the previous bucket's count.
pub fn make_buckets(buckets: &BTreeMap<i32, u64>) -> (res: (Vec<BucketSpan>, Vec<i64>))
    requires
        entries_fit(sorted_entries(buckets@)),
    ensures
        res.0@ == span_seq(layout_of(sorted_entries(buckets@)).spans),
        res.1@ == delta_seq(layout_of(sorted_entries(buckets@)).deltas),
{
    if buckets.is_empty() {
        proof {
            lemma_empty_entries(buckets@);
        }
        let out: (Vec<BucketSpan>, Vec<i64>) = (Vec::new(), Vec::new());
        assert(out.0@ =~= span_seq(layout_of(sorted_entries(buckets@)).spans));
        assert(out.1@ =~= delta_seq(layout_of(sorted_entries(buckets@)).deltas));
        return out;
    }
    let ghost m = buckets@;
    let iter = buckets.iter();
    let ghost items = iter.remaining();
    proof {
        lemma_iter_listing(buckets);
        lemma_listing_is_sorted_entries(listing_of_items(items), m);
        reveal(listing_fits);
    }
    let ghost es = sorted_entries(m);
    let mut spans: Vec<BucketSpan> = Vec::new();
    let mut deltas: Vec<i64> = Vec::new();
    let mut prev_count: i64 = 0;
    let mut next_i: i32 = 0;
    let mut first = true;
    let ghost mut n: int = 0;
    for kv in it: iter
        invariant
            n == it.index(),
            it.seq() == items,
            es == listing_of_items(items),
            listing_fits(es, m),
            0 <= n <= es.len(),
            first == (n == 0),
            spans_match(spans@, layout_of(es.take(n as int)).spans),
            deltas_match(deltas@, layout_of(es.take(n as int)).deltas),
            prev_count == layout_of(es.take(n as int)).prev,
            next_i == layout_of(es.take(n as int)).next,
    {
        let (ir, cr) = kv;
        let ghost pre = layout_of(es.take(n as int));
        let ghost post = layout_of(es.take(n + 1));
        proof {
            assert(es[n as int] == (*ir, *cr));
            lemma_advance(es, m, n as int);
        }
        let i = *ir;
        let count = *cr as i64;
        proof {
            lemma_count_cast(*cr);
        }
        append_bucket(&mut spans, &mut deltas, first, i, count, prev_count, next_i, Ghost(pre));
        prev_count = count;
        next_i = i + 1;
        first = false;
        proof {
            n = n + 1;
        }
    }
    proof {
        assert(es.take(n as int) =~= es);
        assert(spans@ =~= span_seq(layout_of(es).spans));
        assert(deltas@ =~= delta_seq(layout_of(es).deltas));
    }
    (spans, deltas)
}


/// Whether the bucket map can be laid out without overflow, checked bucket by
/// bucket in index order.
pub fn entries_fit_exec(buckets: &BTreeMap<i32, u64>) -> (b: bool)
    ensures
        b == entries_fit(sorted_entries(buckets@)),
{
    let ghost m = buckets@;
    let iter = buckets.iter();
    let ghost items = iter.remaining();
    proof {
        lemma_iter_listing(buckets);
        lemma_listing_is_sorted_entries(listing_of_items(items), m);
    }
    let ghost es = sorted_entries(m);
    let mut prev: Option<(i32, i64)> = None;
    let ghost mut n: int = 0;
    for kv in it: iter
        invariant
            n == it.index(),
            it.seq() == items,
            es == listing_of_items(items),
            es == sorted_entries(m),
            m == buckets@,
            0 <= n <= es.len(),
            entries_fit(es.take(n)),
            n == 0 <==> prev is None,
            prev matches Some(p) ==> n > 0 && p.0 == es[n - 1].0 && p.1 == count_as_i64(
                es[n - 1].1,
            ),
    {
        let (ir, cr) = kv;
        proof {
            assert(es[n] == (*ir, *cr));
            lemma_count_cast(*cr);
        }
        let i = *ir;
        let c = *cr as i64;
        if i == i32::MAX {
            proof {
                assert(!entries_fit(es)) by {
                    if entries_fit(es) {
                        assert(es[n].0 < i32::MAX);
                    }
                }
            }
            return false;
        }
        if let Some((pi, pc)) = prev {
            let gap: i64 = i as i64 - pi as i64 - 1;
            let ok = if gap > i32::MAX as i64 {
                false
            } else if 1 <= gap && gap <= 2 {
                pc != i64::MIN
            } else {
                let d: i128 = c as i128 - pc as i128;
                i64::MIN as i128 <= d && d <= i64::MAX as i128
            };
            proof {
                assert(ok == (es[n].0 - es[n - 1].0 - 1 <= i32::MAX && delta_fits(
                    es[n - 1],
                    es[n],
                )));
            }
            if !ok {
                proof {
                    assert(!entries_fit(es)) by {
                        if entries_fit(es) {
                            assert(es[n].0 - es[n - 1].0 - 1 <= i32::MAX && delta_fits(
                                es[n - 1],
                                es[n],
                            ));
                        }
                    }
                }
                return false;
            }
        }
        proof {
            let t = es.take(n + 1);
            assert forall|j: int| 0 <= j < t.len() implies #[trigger] t[j].0 < i32::MAX by {
                if j < n {
                    assert(t[j] == es.take(n)[j]);
                }
            }
            assert forall|j: int| 0 < j < t.len() implies t[j].0 - t[j - 1].0 - 1 <= i32::MAX
                && delta_fits(t[j - 1], #[trigger] t[j]) by {
                if j < n {
                    assert(t[j] == es.take(n)[j] && t[j - 1] == es.take(n)[j - 1]);
                }
            }
            n = n + 1;
        }
        prev = Some((i, c));
    }
    proof {
        assert(es.take(n) =~= es);
    }
    true
}

/// The entries of a bucket map, by increasing index.
fn bucket_entries(buckets: &BTreeMap<i32, u64>) -> (v: Vec<(i32, u64)>)
    ensures
        is_sorted_listing(v@, buckets@),
{
    let iter = buckets.iter();
    let ghost items = iter.remaining();
    proof {
        lemma_iter_listing(buckets);
    }
    let ghost es = listing_of_items(items);
    let mut v: Vec<(i32, u64)> = Vec::new();
    let ghost mut n: int = 0;
    for kv in it: iter
        invariant
            n == it.index(),
            it.seq() == items,
            es == listing_of_items(items),
            0 <= n <= es.len(),
            v@ == es.take(n),
    {
        let (ir, cr) = kv;
        proof {
            assert(es[n] == (*ir, *cr));
        }
        v.push((*ir, *cr));
        proof {
            assert(v@ =~= es.take(n + 1));
            n = n + 1;
        }
    }
    proof {
        assert(es.take(n) =~= es);
    }
    v
}

proof fn lemma_listing_determines_map(s: Seq<(i32, u64)>, m1: Map<i32, u64>, m2: Map<i32, u64>)
    requires
        is_sorted_listing(s, m1),
        is_sorted_listing(s, m2),
    ensures
        m1 == m2,
{
    assert forall|k: i32| m1.contains_key(k) implies m2.contains_key(k) && m1[k] == m2[k] by {
        let j = choose|j: int| 0 <= j < s.len() && s[j].0 == k;
        assert(m2.contains_key(s[j].0));
    }
    assert forall|k: i32| m2.contains_key(k) implies m1.contains_key(k) by {
        let j = choose|j: int| 0 <= j < s.len() && s[j].0 == k;
        assert(m1.contains_key(s[j].0));
    }
    assert(m1 =~= m2);
}

/// Whether two bucket maps hold the same buckets with the same counts.
pub fn bucket_maps_equal(a: &BTreeMap<i32, u64>, b: &BTreeMap<i32, u64>) -> (r: bool)
    ensures
        r == (a@ == b@),
{
    let va = bucket_entries(a);
    let vb = bucket_entries(b);
    if va.len() != vb.len() {
        proof {
            if a@ == b@ {
                lemma_sorted_listing_unique(va@, vb@, a@);
            }
        }
        return false;
    }
    let mut i: usize = 0;
    while i < va.len()
        invariant
            va.len() == vb.len(),
            i <= va.len(),
            is_sorted_listing(va@, a@),
            is_sorted_listing(vb@, b@),
            forall|j: int| 0 <= j < i ==> va@[j] == vb@[j],
        decreases va.len() - i,
    {
        if va[i].0 != vb[i].0 || va[i].1 != vb[i].1 {
            proof {
                if a@ == b@ {
                    lemma_sorted_listing_unique(va@, vb@, a@);
                }
            }
            return false;
        }
        i = i + 1;
    }
    proof {
        assert(va@ =~= vb@);
        lemma_listing_determines_map(va@, a@, b@);
    }
    true
}

proof fn lemma_sorted_listing_exists(m: Map<i32, u64>)
    requires
        m.dom().finite(),
    ensures
        is_sorted_listing(sorted_entries(m), m),
    decreases m.dom().len(),
{
    if m.dom().len() == 0 {
        assert(m.dom() =~= Set::<i32>::empty());
        assert(is_sorted_listing(Seq::empty(), m));
    } else {
        let r = |a: i32, b: i32| a <= b;
        assert(vstd::relations::total_ordering(r));
        m.dom().find_unique_maximal_ensures(r);
        let k = m.dom().find_unique_maximal(r);
        let m2 = m.remove(k);
        assert(m2.dom() =~= m.dom().remove(k));
        lemma_sorted_listing_exists(m2);
        let s2 = sorted_entries(m2);
        let s = s2.push((k, m[k]));
        assert forall|a: int, b: int| 0 <= a < b < s.len() implies s[a].0 < s[b].0 by {
            if b == s.len() - 1 {
                assert(m2.contains_key(s2[a].0));
                assert(r(k, s2[a].0) ==> r(s2[a].0, k));
            }
        }
        assert forall|j: int| 0 <= j < s.len() implies #[trigger] m.contains_key(s[j].0) && m[s[j].0]
            == s[j].1 by {
            if j < s2.len() {
                assert(m2.contains_key(s2[j].0));
            }
        }
        assert forall|kk: i32| #[trigger] m.contains_key(kk) implies exists|j: int|
            0 <= j < s.len() && s[j].0 == kk by {
            if kk != k {
                assert(m2.contains_key(kk));
                let j = choose|j: int| 0 <= j < s2.len() && s2[j].0 == kk;
                assert(s[j] == s2[j]);
            } else {
                assert(s[s.len() - 1].0 == kk);
            }
        }
        lemma_listing_is_sorted_entries(s, m);
    }
}

/// Positions `p` with counts `c` decode to the bucket map `m`: the positions
/// strictly increase, every bucket of `m` appears at its index with its count,
/// and every position that carries a non-zero count is a bucket of `m` with that count.
pub open spec fn decodes_to(p: Seq<int>, c: Seq<int>, m: Map<i32, u64>) -> bool {
    &&& p.len() == c.len()
    &&& forall|a: int, b: int| 0 <= a < b < p.len() ==> p[a] < p[b]
    &&& forall|k: i32| #[trigger]
        m.contains_key(k) ==> exists|j: int| 0 <= j < p.len() && p[j] == k && c[j] == m[k]
    &&& forall|j: int|
        0 <= j < p.len() && #[trigger] c[j] != 0 ==> i32::MIN <= p[j] <= i32::MAX
            && m.contains_key(p[j] as i32) && m[p[j] as i32] == c[j]
}

/// Native-histogram spans and deltas lose nothing: decoding the layout built
/// from a bucket map (span offsets accumulate into bucket indices, deltas
/// accumulate into counts) gives back exactly that map, with only empty
/// buckets added in the gaps. (A count above `i64::MAX` comes back negative,
/// as the `i64` cast reads it.)
pub proof fn lemma_bucket_layout_decodes(m: Map<i32, u64>)
    requires
        m.dom().finite(),
        entries_fit(sorted_entries(m)),
        forall|k: i32| #[trigger] m.contains_key(k) ==> m[k] <= i64::MAX,
    ensures
        decodes_to(
            span_positions(layout_of(sorted_entries(m)).spans),
            running_counts(layout_of(sorted_entries(m)).deltas),
            m,
        ),
{
    lemma_sorted_listing_exists(m);
    let es = sorted_entries(m);
    let acc = layout_of(es);
    let p = span_positions(acc.spans);
    let c = running_counts(acc.deltas);
    if es.len() == 0 {
        assert(p =~= Seq::<int>::empty());
        assert(c =~= Seq::<int>::empty());
        assert forall|k: i32| #[trigger] m.contains_key(k) implies exists|j: int|
            0 <= j < p.len() && p[j] == k && c[j] == m[k] by {
            let j = choose|j: int| 0 <= j < es.len() && es[j].0 == k;
        }
    } else {
        lemma_layout_inv(es);
        reveal(layout_inv);
        reveal(describes);
        assert forall|k: i32| #[trigger] m.contains_key(k) implies exists|j: int|
            0 <= j < p.len() && p[j] == k && c[j] == m[k] by {
            let t = choose|t: int| 0 <= t < es.len() && es[t].0 == k;
            assert(m.contains_key(es[t].0));
            assert(count_as_i64(es[t].1) == es[t].1);
            let j = choose|j: int|
                0 <= j < p.len() && p[j] == es[t].0 && c[j] == count_as_i64(es[t].1);
        }
        assert forall|j: int| 0 <= j < p.len() && #[trigger] c[j] != 0 implies i32::MIN <= p[j]
            <= i32::MAX && m.contains_key(p[j] as i32) && m[p[j] as i32] == c[j] by {
            assert(p[j] == p[j]);
            let t = choose|t: int|
                0 <= t < es.len() && es[t].0 == p[j] && count_as_i64(es[t].1) == c[j];
            assert(m.contains_key(es[t].0));
            assert(count_as_i64(es[t].1) == es[t].1);
        }
    }
}

/// Bucket indices covered by encoded spans, in order.
pub open spec fn encoded_positions(spans: Seq<BucketSpan>) -> Seq<int> {
    span_positions(
        spans.map_values(
            |sp: BucketSpan| (sp.offset.unwrap() as int, sp.length.unwrap() as int),
        ),
    )
}

/// Absolute bucket counts from encoded deltas.
pub open spec fn encoded_counts(deltas: Seq<i64>) -> Seq<int> {
    running_counts(deltas.map_values(|d: i64| d as int))
}

/// The spans and deltas `make_buckets` returns decode back to its bucket map:
/// span offsets accumulate into bucket indices, deltas into counts, and only
/// empty buckets are added in the gaps.
pub proof fn lemma_make_buckets_decodes(
    m: Map<i32, u64>,
    spans: Seq<BucketSpan>,
    deltas: Seq<i64>,
)
    requires
        m.dom().finite(),
        entries_fit(sorted_entries(m)),
        forall|k: i32| #[trigger] m.contains_key(k) ==> m[k] <= i64::MAX,
        spans == span_seq(layout_of(sorted_entries(m)).spans),
        deltas == delta_seq(layout_of(sorted_entries(m)).deltas),
    ensures
        decodes_to(encoded_positions(spans), encoded_counts(deltas), m),
{
    lemma_bucket_layout_decodes(m);
    lemma_sorted_listing_exists(m);
    let es = sorted_entries(m);
    let acc = layout_of(es);
    if es.len() > 0 {
        lemma_layout_inv(es);
        reveal(layout_inv);
        assert(spans.map_values(
            |sp: BucketSpan| (sp.offset.unwrap() as int, sp.length.unwrap() as int),
        ) =~= acc.spans);
        assert(deltas.map_values(|d: i64| d as int) =~= acc.deltas);
    } else {
        assert(spans.map_values(
            |sp: BucketSpan| (sp.offset.unwrap() as int, sp.length.unwrap() as int),
        ) =~= acc.spans);
        assert(deltas.map_values(|d: i64| d as int) =~= acc.deltas);
    }
}

} // verus!
