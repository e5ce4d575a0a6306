//! Per-template execution-time statistics: each normalised SQL template
//! keeps a histogram of its execution times (microseconds) and the first
//! and last timestamps at which it was seen.  Aggregators filled in
//! parallel are merged into one.

use vstd::prelude::*;
use vstd::hash_map::StringHashMap;
use vstd::multiset::Multiset;
use hdrhistogram::Histogram;
use crate::text::{owned, seq_lt, str_lt};
use crate::ranking::{is_ranking, ranks_before, eligible, rank_by_count, lemma_seq_lt_total, lemma_seq_lt_asym, lemma_seq_lt_trans};
use crate::filters::strings_view;

verus! {

broadcast use vstd::hash_map::axiom_string_hash_map_spec_len;

/// The execution times of one template, in an `hdrhistogram::Histogram`,
/// kept whole behind this type and the functions below; what it holds is
/// `hist_samples`.  `inner` is readable for the quantile queries, which take
/// a fraction.
#[verifier::external_body]
pub struct TimeHistogram {
    pub inner: Histogram<u64>,
}

/// The values recorded in a histogram, each as often as it was recorded.
pub uninterp spec fn hist_samples(h: TimeHistogram) -> Multiset<u64>;

/// The bounds a histogram was made with: lowest discernible value,
/// highest trackable value, significant figures.
pub uninterp spec fn hist_bounds(h: TimeHistogram) -> (u64, u64, u8);

/// What `Histogram::min` reports for these samples (the lowest value of
/// the bucket of the smallest sample) under the bounds of this module.
pub uninterp spec fn hist_min_of(samples: Multiset<u64>) -> u64;

/// What `Histogram::max` reports for these samples under the bounds of
/// this module.
pub uninterp spec fn hist_max_of(samples: Multiset<u64>) -> u64;

/// What `Histogram::mean`, truncated to an integer, reports for these
/// samples under the bounds of this module.
pub uninterp spec fn hist_mean_of(samples: Multiset<u64>) -> u64;

/// Largest execution time kept, in microseconds (one minute).
pub const MAX_US: u64 = 60_000_000;

/// The bounds of every histogram of this module.
pub open spec fn template_bounds() -> (u64, u64, u8) {
    (1u64, 60_000_000u64, 2u8)
}

/// An empty histogram from 1 to 60 000 000 with two significant figures
/// (`Histogram::new_with_bounds(1, 60_000_000, 2)`).
/// Trusted: these bounds pass every check of `new_with_bounds` (low is at
/// least 1, high at least twice low, two figures at most five), so the
/// histogram is made, empty, with these bounds.
#[verifier::external_body]
fn new_histogram() -> (h: TimeHistogram)
    ensures
        hist_samples(h) == Multiset::<u64>::empty(),
        hist_bounds(h) == template_bounds(),
{
    TimeHistogram { inner: Histogram::<u64>::new_with_bounds(1, 60_000_000, 2).expect("valid histogram bounds") }
}

/// Records `v` once (`Histogram::record`).
/// Trusted: a value within the bounds lands in its bucket, so `record`
/// succeeds and the samples gain `v`; the total count does not saturate
/// below `u64::MAX` samples.
#[verifier::external_body]
fn hist_record(h: &mut TimeHistogram, v: u64)
    requires
        hist_bounds(*old(h)) == template_bounds(),
        1 <= v <= MAX_US,
        hist_samples(*old(h)).len() < u64::MAX,
    ensures
        hist_samples(*final(h)) == hist_samples(*old(h)).insert(v),
        hist_bounds(*final(h)) == hist_bounds(*old(h)),
{
    let _ = h.inner.record(v);
}

/// Adds the samples of `other` (`Histogram::add`).
/// Trusted: with identical bounds the bucket layouts match and the
/// largest value of `other` is trackable, so `add` succeeds and the
/// samples of both are combined; counts do not saturate while the total
/// stays within `u64::MAX`.
#[verifier::external_body]
fn hist_add(h: &mut TimeHistogram, other: &TimeHistogram)
    requires
        hist_bounds(*old(h)) == template_bounds(),
        hist_bounds(*other) == template_bounds(),
        hist_samples(*old(h)).len() + hist_samples(*other).len() <= u64::MAX,
    ensures
        hist_samples(*final(h)) == hist_samples(*old(h)).add(hist_samples(*other)),
        hist_bounds(*final(h)) == hist_bounds(*old(h)),
{
    let _ = h.inner.add(&other.inner);
}

/// Number of samples (`Histogram::len`, the total count).
/// Trusted: the total count is the number of recorded samples.
#[verifier::external_body]
fn hist_len(h: &TimeHistogram) -> (n: u64)
    ensures
        n == hist_samples(*h).len(),
{
    h.inner.len()
}

/// `Histogram::min`.  Trusted: named `hist_min_of` of the samples.
#[verifier::external_body]
fn hist_min(h: &TimeHistogram) -> (v: u64)
    requires
        hist_bounds(*h) == template_bounds(),
    ensures
        v == hist_min_of(hist_samples(*h)),
{
    h.inner.min()
}

/// `Histogram::max`.  Trusted: named `hist_max_of` of the samples.
#[verifier::external_body]
fn hist_max(h: &TimeHistogram) -> (v: u64)
    requires
        hist_bounds(*h) == template_bounds(),
    ensures
        v == hist_max_of(hist_samples(*h)),
{
    h.inner.max()
}

/// `Histogram::mean`, truncated to an integer.  Trusted: named
/// `hist_mean_of` of the samples.
#[verifier::external_body]
fn hist_mean(h: &TimeHistogram) -> (v: u64)
    requires
        hist_bounds(*h) == template_bounds(),
    ensures
        v == hist_mean_of(hist_samples(*h)),
{
    h.inner.mean() as u64
}

/// An execution time brought into the histogram range: 0 counts as 1 µs,
/// anything longer than a minute as one minute.
pub open spec fn clamp_us(v: u64) -> u64 {
    if v < 1 {
        1
    } else if v > MAX_US {
        MAX_US
    } else {
        v
    }
}

/// The earlier of two timestamps (string order, which is time order for
/// the log's ISO 8601 timestamps).
pub open spec fn str_min(a: Seq<char>, b: Seq<char>) -> Seq<char> {
    if seq_lt(b, a) {
        b
    } else {
        a
    }
}

/// The later of two timestamps.
pub open spec fn str_max(a: Seq<char>, b: Seq<char>) -> Seq<char> {
    if seq_lt(a, b) {
        b
    } else {
        a
    }
}

/// What is known of a template: its samples, first and last timestamps.
pub type TemplateView = (Multiset<u64>, Seq<char>, Seq<char>);

/// `m` after one observation of `key` taking `v` µs at `ts`.
pub open spec fn observed(m: Map<Seq<char>, TemplateView>, key: Seq<char>, v: u64, ts: Seq<char>) -> Map<Seq<char>, TemplateView> {
    if m.contains_key(key) {
        let e = m[key];
        m.insert(key, (e.0.insert(clamp_us(v)), str_min(e.1, ts), str_max(e.2, ts)))
    } else {
        m.insert(key, (Multiset::<u64>::empty().insert(clamp_us(v)), ts, ts))
    }
}

/// Two aggregations merged: samples combined, the earlier first and the
/// later last timestamp kept.
pub open spec fn merged(a: Map<Seq<char>, TemplateView>, b: Map<Seq<char>, TemplateView>) -> Map<Seq<char>, TemplateView> {
    Map::new(
        |k: Seq<char>| a.contains_key(k) || b.contains_key(k),
        |k: Seq<char>|
            if a.contains_key(k) && b.contains_key(k) {
                (a[k].0.add(b[k].0), str_min(a[k].1, b[k].1), str_max(a[k].2, b[k].2))
            } else if a.contains_key(k) {
                a[k]
            } else {
                b[k]
            },
    )
}

/// `m` after the observations `obs` (key, µs, timestamp), in order.
pub open spec fn observe_all(m: Map<Seq<char>, TemplateView>, obs: Seq<(Seq<char>, u64, Seq<char>)>) -> Map<Seq<char>, TemplateView>
    decreases obs.len(),
{
    if obs.len() == 0 {
        m
    } else {
        let o = obs.last();
        observed(observe_all(m, obs.drop_last()), o.0, o.1, o.2)
    }
}

/// A template with view `va` is listed before one with view `vb`: more
/// samples, or as many and a smaller key.
pub open spec fn comes_before(ka: Seq<char>, va: TemplateView, kb: Seq<char>, vb: TemplateView) -> bool {
    va.0.len() > vb.0.len() || (va.0.len() == vb.0.len() && seq_lt(ka, kb))
}

/// `keys` lists every template of `m` once, most samples first, ties by
/// key in ascending order.
pub open spec fn is_table(m: Map<Seq<char>, TemplateView>, keys: Seq<Seq<char>>) -> bool {
    &&& forall|a: int| 0 <= a < keys.len() ==> m.contains_key(#[trigger] keys[a])
    &&& forall|k: Seq<char>| #[trigger] m.contains_key(k) ==> keys.contains(k)
    &&& forall|a: int, b: int| 0 <= a < b < keys.len() ==> {
        &&& #[trigger] keys[a] != #[trigger] keys[b]
        &&& comes_before(keys[a], m[keys[a]], keys[b], m[keys[b]])
    }
}

proof fn lemma_lt_facts(a: Seq<char>, b: Seq<char>, c: Seq<char>)
    ensures
        a != b ==> seq_lt(a, b) || seq_lt(b, a),
        b != c ==> seq_lt(b, c) || seq_lt(c, b),
        a != c ==> seq_lt(a, c) || seq_lt(c, a),
        !(seq_lt(a, b) && seq_lt(b, a)),
        !(seq_lt(b, c) && seq_lt(c, b)),
        !(seq_lt(a, c) && seq_lt(c, a)),
        seq_lt(a, b) && seq_lt(b, c) ==> seq_lt(a, c),
        seq_lt(c, b) && seq_lt(b, a) ==> seq_lt(c, a),
        seq_lt(b, a) && seq_lt(a, c) ==> seq_lt(b, c),
        seq_lt(c, a) && seq_lt(a, b) ==> seq_lt(c, b),
        seq_lt(a, c) && seq_lt(c, b) ==> seq_lt(a, b),
        seq_lt(b, c) && seq_lt(c, a) ==> seq_lt(b, a),
{
    if a != b {
        lemma_seq_lt_total(a, b);
    }
    if b != c {
        lemma_seq_lt_total(b, c);
    }
    if a != c {
        lemma_seq_lt_total(a, c);
    }
    lemma_seq_lt_asym(a, b);
    lemma_seq_lt_asym(b, c);
    lemma_seq_lt_asym(a, c);
    if seq_lt(a, b) && seq_lt(b, c) {
        lemma_seq_lt_trans(a, b, c);
    }
    if seq_lt(c, b) && seq_lt(b, a) {
        lemma_seq_lt_trans(c, b, a);
    }
    if seq_lt(b, a) && seq_lt(a, c) {
        lemma_seq_lt_trans(b, a, c);
    }
    if seq_lt(c, a) && seq_lt(a, b) {
        lemma_seq_lt_trans(c, a, b);
    }
    if seq_lt(a, c) && seq_lt(c, b) {
        lemma_seq_lt_trans(a, c, b);
    }
    if seq_lt(b, c) && seq_lt(c, a) {
        lemma_seq_lt_trans(b, c, a);
    }
}

proof fn lemma_min_max_assoc(a: Seq<char>, b: Seq<char>, c: Seq<char>)
    ensures
        str_min(a, str_min(b, c)) == str_min(str_min(a, b), c),
        str_max(a, str_max(b, c)) == str_max(str_max(a, b), c),
{
    lemma_lt_facts(a, b, c);
}

/// Merging `a` with `b` and then observing equals merging `a` with `b`
/// after that observation.
proof fn lemma_merged_observed(a: Map<Seq<char>, TemplateView>, b: Map<Seq<char>, TemplateView>, k: Seq<char>, v: u64, ts: Seq<char>)
    ensures
        merged(a, observed(b, k, v, ts)) == observed(merged(a, b), k, v, ts),
{
    let ob = observed(b, k, v, ts);
    let ab = merged(a, b);
    let lhs = merged(a, ob);
    let rhs = observed(ab, k, v, ts);
    let c = clamp_us(v);
    assert(lhs.dom() =~= rhs.dom());
    if a.contains_key(k) && b.contains_key(k) {
        lemma_min_max_assoc(a[k].1, b[k].1, ts);
        lemma_min_max_assoc(a[k].2, b[k].2, ts);
        assert(a[k].0.add(b[k].0.insert(c)) =~= a[k].0.add(b[k].0).insert(c));
        assert(lhs[k] == rhs[k]);
    } else if a.contains_key(k) {
        assert(a[k].0.add(Multiset::<u64>::empty().insert(c)) =~= a[k].0.insert(c));
        assert(lhs[k] == rhs[k]);
    } else if b.contains_key(k) {
        assert(lhs[k] == rhs[k]);
    } else {
        assert(lhs[k] == rhs[k]);
    }
    assert forall|kk: Seq<char>| #[trigger] lhs.contains_key(kk) implies lhs[kk] == rhs[kk] by {
        if kk != k {
            assert(ob.contains_key(kk) == b.contains_key(kk));
        }
    }
    assert(lhs =~= rhs);
}

/// Merging `a` with the aggregation of `ys` equals observing `ys` on top
/// of `a`.
proof fn lemma_merged_observe_all(a: Map<Seq<char>, TemplateView>, ys: Seq<(Seq<char>, u64, Seq<char>)>)
    ensures
        merged(a, observe_all(Map::empty(), ys)) == observe_all(a, ys),
    decreases ys.len(),
{
    if ys.len() == 0 {
        assert(merged(a, Map::<Seq<char>, TemplateView>::empty()) =~= a);
    } else {
        let o = ys.last();
        lemma_merged_observe_all(a, ys.drop_last());
        lemma_merged_observed(a, observe_all(Map::empty(), ys.drop_last()), o.0, o.1, o.2);
    }
}

/// Observing `xs` and then `ys` is observing `xs + ys`.
proof fn lemma_observe_all_concat(m: Map<Seq<char>, TemplateView>, xs: Seq<(Seq<char>, u64, Seq<char>)>, ys: Seq<(Seq<char>, u64, Seq<char>)>)
    ensures
        observe_all(observe_all(m, xs), ys) == observe_all(m, xs + ys),
    decreases ys.len(),
{
    if ys.len() == 0 {
        assert(xs + ys =~= xs);
    } else {
        lemma_observe_all_concat(m, xs, ys.drop_last());
        assert((xs + ys).drop_last() =~= xs + ys.drop_last());
        assert((xs + ys).last() == ys.last());
    }
}

/// Aggregating two parts of a log apart and merging the two aggregations
/// gives what aggregating the whole log in one pass gives: the parallel
/// path and the sequential path agree.
pub proof fn lemma_merge_is_sequential(xs: Seq<(Seq<char>, u64, Seq<char>)>, ys: Seq<(Seq<char>, u64, Seq<char>)>)
    ensures
        merged(observe_all(Map::empty(), xs), observe_all(Map::empty(), ys)) == observe_all(Map::empty(), xs + ys),
{
    lemma_merged_observe_all(observe_all(Map::empty(), xs), ys);
    lemma_observe_all_concat(Map::empty(), xs, ys);
}

/// Number of observations in `obs` with key `k`.
pub open spec fn count_in(obs: Seq<(Seq<char>, u64, Seq<char>)>, k: Seq<char>) -> nat
    decreases obs.len(),
{
    if obs.len() == 0 {
        0
    } else {
        count_in(obs.drop_last(), k) + if obs.last().0 == k { 1nat } else { 0nat }
    }
}

/// Sum of the sample counts of the templates `keys` in `m`.
pub open spec fn table_total(m: Map<Seq<char>, TemplateView>, keys: Seq<Seq<char>>) -> nat
    decreases keys.len(),
{
    if keys.len() == 0 {
        0
    } else {
        table_total(m, keys.drop_last()) + m[keys.last()].0.len()
    }
}

spec fn sum_counts(keys: Seq<Seq<char>>, obs: Seq<(Seq<char>, u64, Seq<char>)>) -> nat
    decreases keys.len(),
{
    if keys.len() == 0 {
        0
    } else {
        sum_counts(keys.drop_last(), obs) + count_in(obs, keys.last())
    }
}

spec fn hits(keys: Seq<Seq<char>>, x: Seq<char>) -> nat
    decreases keys.len(),
{
    if keys.len() == 0 {
        0
    } else {
        hits(keys.drop_last(), x) + if keys.last() == x { 1nat } else { 0nat }
    }
}

spec fn distinct(keys: Seq<Seq<char>>) -> bool {
    forall|a: int, b: int| 0 <= a < b < keys.len() ==> #[trigger] keys[a] != #[trigger] keys[b]
}

proof fn lemma_sum_counts_push(keys: Seq<Seq<char>>, obs: Seq<(Seq<char>, u64, Seq<char>)>, o: (Seq<char>, u64, Seq<char>))
    ensures
        sum_counts(keys, obs.push(o)) == sum_counts(keys, obs) + hits(keys, o.0),
    decreases keys.len(),
{
    if keys.len() > 0 {
        lemma_sum_counts_push(keys.drop_last(), obs, o);
        assert(obs.push(o).drop_last() =~= obs);
    }
}

proof fn lemma_hits_distinct(keys: Seq<Seq<char>>, x: Seq<char>)
    requires
        distinct(keys),
    ensures
        hits(keys, x) == if keys.contains(x) { 1nat } else { 0nat },
    decreases keys.len(),
{
    if keys.len() > 0 {
        let d = keys.drop_last();
        assert(distinct(d)) by {
            assert forall|a: int, b: int| 0 <= a < b < d.len() implies #[trigger] d[a] != #[trigger] d[b] by {
                assert(d[a] == keys[a] && d[b] == keys[b]);
            }
        }
        lemma_hits_distinct(d, x);
        if keys.last() == x {
            assert(!d.contains(x)) by {
                if d.contains(x) {
                    let a = choose|a: int| 0 <= a < d.len() && d[a] == x;
                    assert(keys[a] == keys[keys.len() - 1]);
                }
            }
            assert(keys.contains(x)) by {
                assert(keys[keys.len() - 1] == x);
            }
        } else {
            if keys.contains(x) {
                let a = choose|a: int| 0 <= a < keys.len() && keys[a] == x;
                assert(a < keys.len() - 1);
                assert(d[a] == x);
            }
            if d.contains(x) {
                let a = choose|a: int| 0 <= a < d.len() && d[a] == x;
                assert(keys[a] == x);
            }
        }
    }
}

proof fn lemma_sum_counts_all(keys: Seq<Seq<char>>, obs: Seq<(Seq<char>, u64, Seq<char>)>)
    requires
        distinct(keys),
        forall|i: int| 0 <= i < obs.len() ==> keys.contains(#[trigger] obs[i].0),
    ensures
        sum_counts(keys, obs) == obs.len(),
    decreases obs.len(),
{
    if obs.len() == 0 {
        assert(sum_counts(keys, obs) == 0) by {
            lemma_sum_counts_empty(keys, obs);
        }
    } else {
        let p = obs.drop_last();
        let o = obs.last();
        assert forall|i: int| 0 <= i < p.len() implies keys.contains(#[trigger] p[i].0) by {
            assert(p[i] == obs[i]);
        }
        lemma_sum_counts_all(keys, p);
        assert(p.push(o) =~= obs);
        lemma_sum_counts_push(keys, p, o);
        assert(keys.contains(obs[obs.len() - 1].0));
        lemma_hits_distinct(keys, o.0);
    }
}

proof fn lemma_sum_counts_empty(keys: Seq<Seq<char>>, obs: Seq<(Seq<char>, u64, Seq<char>)>)
    requires
        obs.len() == 0,
    ensures
        sum_counts(keys, obs) == 0,
    decreases keys.len(),
{
    if keys.len() > 0 {
        lemma_sum_counts_empty(keys.drop_last(), obs);
    }
}

/// What observing `obs` from nothing gives: a template for each observed
/// key, with as many samples as observations of it.
proof fn lemma_observe_all_counts(obs: Seq<(Seq<char>, u64, Seq<char>)>)
    ensures
        forall|k: Seq<char>| #[trigger] observe_all(Map::empty(), obs).contains_key(k) <==> count_in(obs, k) > 0,
        forall|k: Seq<char>| #[trigger] observe_all(Map::empty(), obs).contains_key(k)
            ==> observe_all(Map::empty(), obs)[k].0.len() == count_in(obs, k),
    decreases obs.len(),
{
    if obs.len() > 0 {
        let p = obs.drop_last();
        let o = obs.last();
        lemma_observe_all_counts(p);
        let m0 = observe_all(Map::empty(), p);
        let m = observe_all(Map::empty(), obs);
        assert(m == observed(m0, o.0, o.1, o.2));
        assert forall|k: Seq<char>| #[trigger] m.contains_key(k) <==> count_in(obs, k) > 0 by {
            assert(count_in(obs, k) == count_in(p, k) + if o.0 == k { 1nat } else { 0nat });
        }
        assert forall|k: Seq<char>| #[trigger] m.contains_key(k) implies m[k].0.len() == count_in(obs, k) by {
            assert(count_in(obs, k) == count_in(p, k) + if o.0 == k { 1nat } else { 0nat });
            if k == o.0 {
                if m0.contains_key(k) {
                    assert(m[k].0 == m0[k].0.insert(clamp_us(o.1)));
                } else {
                    assert(count_in(p, k) == 0);
                    assert(m[k].0 == Multiset::<u64>::empty().insert(clamp_us(o.1)));
                }
            } else {
                assert(m[k] == m0[k]);
            }
        }
    }
}

proof fn lemma_table_total(m: Map<Seq<char>, TemplateView>, keys: Seq<Seq<char>>, obs: Seq<(Seq<char>, u64, Seq<char>)>)
    requires
        m == observe_all(Map::empty(), obs),
        forall|a: int| 0 <= a < keys.len() ==> m.contains_key(#[trigger] keys[a]),
    ensures
        table_total(m, keys) == sum_counts(keys, obs),
    decreases keys.len(),
{
    lemma_observe_all_counts(obs);
    if keys.len() > 0 {
        let d = keys.drop_last();
        assert forall|a: int| 0 <= a < d.len() implies m.contains_key(#[trigger] d[a]) by {
            assert(d[a] == keys[a]);
        }
        lemma_table_total(m, d, obs);
        assert(m.contains_key(keys[keys.len() - 1]));
    }
}

/// Law: in the table of an aggregation of the observations `obs` (one
/// entry per template, as `finalize` lists them), the sample counts add up
/// to the number of observations.
pub proof fn lemma_table_counts_sum(obs: Seq<(Seq<char>, u64, Seq<char>)>, keys: Seq<Seq<char>>)
    requires
        is_table(observe_all(Map::empty(), obs), keys),
    ensures
        table_total(observe_all(Map::empty(), obs), keys) == obs.len(),
{
    let m = observe_all(Map::empty(), obs);
    lemma_observe_all_counts(obs);
    lemma_table_total(m, keys, obs);
    assert forall|i: int| 0 <= i < obs.len() implies keys.contains(#[trigger] obs[i].0) by {
        lemma_count_in_pos(obs, i);
        assert(m.contains_key(obs[i].0));
    }
    lemma_sum_counts_all(keys, obs);
}

proof fn lemma_count_in_pos(obs: Seq<(Seq<char>, u64, Seq<char>)>, i: int)
    requires
        0 <= i < obs.len(),
    ensures
        count_in(obs, obs[i].0) > 0,
    decreases obs.len(),
{
    if i < obs.len() - 1 {
        assert(obs.drop_last()[i] == obs[i]);
        lemma_count_in_pos(obs.drop_last(), i);
    }
}

/// The statistics of one SQL template, as written to the companion CSV file.
#[derive(Debug, Clone)]
pub struct TemplateStats {
    pub template_key: String,
    pub count: u64,
    pub avg_us: u64,
    pub min_us: u64,
    pub max_us: u64,
    pub p50_us: u64,
    pub p95_us: u64,
    pub p99_us: u64,
    pub first_seen: String,
    pub last_seen: String,
}

/// The statistics of one template.
pub struct TemplateEntry {
    pub key: String,
    histogram: TimeHistogram,
    pub first_seen: String,
    pub last_seen: String,
}

impl TemplateEntry {
    pub closed spec fn view_of(&self) -> TemplateView {
        (hist_samples(self.histogram), self.first_seen@, self.last_seen@)
    }

    /// The template's key.
    pub closed spec fn key_of(&self) -> Seq<char> {
        self.key@
    }

    pub closed spec fn bounds_ok(&self) -> bool {
        hist_bounds(self.histogram) == template_bounds()
    }

    /// One more execution of `v` µs at `ts`.
    fn absorb(&mut self, v: u64, ts: &str)
        requires
            old(self).bounds_ok(),
            1 <= v <= MAX_US,
            old(self).view_of().0.len() < u64::MAX,
        ensures
            final(self).bounds_ok(),
            final(self).key == old(self).key,
            final(self).view_of() == (old(self).view_of().0.insert(v), str_min(old(self).view_of().1, ts@), str_max(old(self).view_of().2, ts@)),
    {
        hist_record(&mut self.histogram, v);
        if str_lt(ts, self.first_seen.as_str()) {
            self.first_seen = owned(ts);
        }
        if str_lt(self.last_seen.as_str(), ts) {
            self.last_seen = owned(ts);
        }
    }

    /// The summary row of this template; the quantiles are read from
    /// [`TemplateEntry::histogram`] by the caller.
    pub fn stats(&self, p50_us: u64, p95_us: u64, p99_us: u64) -> (s: TemplateStats)
        requires
            self.bounds_ok(),
        ensures
            s.template_key@ == self.key_of(),
            s.count == self.view_of().0.len(),
            s.avg_us == hist_mean_of(self.view_of().0),
            s.min_us == hist_min_of(self.view_of().0),
            s.max_us == hist_max_of(self.view_of().0),
            s.p50_us == p50_us,
            s.p95_us == p95_us,
            s.p99_us == p99_us,
            s.first_seen@ == self.view_of().1,
            s.last_seen@ == self.view_of().2,
    {
        TemplateStats {
            template_key: owned(self.key.as_str()),
            count: self.count(),
            avg_us: self.avg_us(),
            min_us: self.min_us(),
            max_us: self.max_us(),
            p50_us,
            p95_us,
            p99_us,
            first_seen: owned(self.first_seen.as_str()),
            last_seen: owned(self.last_seen.as_str()),
        }
    }

    /// The histogram of execution times (for quantiles and charts).
    pub fn histogram(&self) -> (h: &TimeHistogram)
        ensures
            hist_samples(*h) == self.view_of().0,
    {
        &self.histogram
    }

    /// Number of observations.
    pub fn count(&self) -> (n: u64)
        ensures
            n == self.view_of().0.len(),
    {
        hist_len(&self.histogram)
    }

    /// The smallest execution time (to histogram precision).
    pub fn min_us(&self) -> (v: u64)
        requires
            self.bounds_ok(),
        ensures
            v == hist_min_of(self.view_of().0),
    {
        hist_min(&self.histogram)
    }

    /// The largest execution time (to histogram precision).
    pub fn max_us(&self) -> (v: u64)
        requires
            self.bounds_ok(),
        ensures
            v == hist_max_of(self.view_of().0),
    {
        hist_max(&self.histogram)
    }

    /// The mean execution time, truncated.
    pub fn avg_us(&self) -> (v: u64)
        requires
            self.bounds_ok(),
        ensures
            v == hist_mean_of(self.view_of().0),
    {
        hist_mean(&self.histogram)
    }
}

/// A read-only view of one template for charts.
pub struct ChartEntry<'a> {
    pub key: &'a str,
    pub count: u64,
    pub histogram: &'a TimeHistogram,
}

/// Replacing the entry at `pos` by one with the same key and the same
/// histogram bounds keeps the aggregation well formed.
proof fn lemma_replace_keeps_wf(a: TemplateAggregator, b: TemplateAggregator, pos: int)
    requires
        a.wf(),
        0 <= pos < a.entries@.len(),
        b.index@ == a.index@,
        b.entries@ == a.entries@.update(pos, b.entries@[pos]),
        b.entries@[pos].key@ == a.entries@[pos].key@,
        b.entries@[pos].bounds_ok(),
    ensures
        b.wf(),
{
    assert forall|k: Seq<char>| #[trigger] b.index@.contains_key(k) implies
        b.index@[k] < b.entries@.len() && b.entries@[b.index@[k] as int].key@ == k by {
        assert(a.index@.contains_key(k));
    }
    assert forall|i: int| 0 <= i < b.entries@.len() implies {
        &&& #[trigger] b.index@.contains_key(b.entries@[i].key@)
        &&& b.index@[b.entries@[i].key@] == i
        &&& b.entries@[i].bounds_ok()
    } by {
        assert(a.index@.contains_key(a.entries@[i].key@));
    }
}

/// The aggregation of all templates.
pub struct TemplateAggregator {
    entries: Vec<TemplateEntry>,
    index: StringHashMap<usize>,
}

impl TemplateAggregator {
    /// What is known of each template seen.
    pub closed spec fn view_map(&self) -> Map<Seq<char>, TemplateView> {
        Map::new(
            |k: Seq<char>| self.index@.contains_key(k),
            |k: Seq<char>| self.entries@[self.index@[k] as int].view_of(),
        )
    }

    /// Entries and index agree; every histogram has the module's bounds.
    pub closed spec fn wf(&self) -> bool {
        &&& forall|k: Seq<char>| #[trigger] self.index@.contains_key(k) ==> {
            &&& self.index@[k] < self.entries@.len()
            &&& self.entries@[self.index@[k] as int].key@ == k
        }
        &&& forall|i: int| 0 <= i < self.entries@.len() ==> {
            &&& #[trigger] self.index@.contains_key(self.entries@[i].key@)
            &&& self.index@[self.entries@[i].key@] == i
            &&& self.entries@[i].bounds_ok()
        }
    }

    /// No template seen yet.
    pub fn new() -> (a: Self)
        ensures
            a.wf(),
            a.view_map() == Map::<Seq<char>, TemplateView>::empty(),
    {
        let a = TemplateAggregator { entries: Vec::new(), index: StringHashMap::new() };
        assert(a.view_map() =~= Map::<Seq<char>, TemplateView>::empty());
        a
    }

    /// Where the template `key` stands, if it was seen.
    fn position(&self, key: &str) -> (r: Option<usize>)
        requires
            self.wf(),
        ensures
            r == (if self.index@.contains_key(key@) { Some(self.index@[key@]) } else { None::<usize> }),
    {
        match self.index.get(key) {
            Some(p) => Some(*p),
            None => None,
        }
    }

    /// `observe` for a template already present at `pos`.
    fn observe_at(&mut self, pos: usize, key: &str, v: u64, exectime_us: u64, ts: &str)
        requires
            old(self).wf(),
            old(self).index@.contains_key(key@),
            old(self).index@[key@] == pos,
            v == clamp_us(exectime_us),
            old(self).view_map()[key@].0.len() < u64::MAX,
        ensures
            final(self).wf(),
            final(self).view_map() == observed(old(self).view_map(), key@, exectime_us, ts@),
    {
        let ghost before = self.view_map();
        let ghost oe = self.entries@;
        let mut e = self.entries.remove(pos);
        e.absorb(v, ts);
        self.entries.insert(pos, e);
        proof {
            assert(self.entries@ =~= oe.update(pos as int, self.entries@[pos as int]));
            lemma_replace_keeps_wf(*old(self), *self, pos as int);
            assert(self.view_map() =~= observed(before, key@, exectime_us, ts@));
        }
        assert(self.wf());
    }

    /// Records one execution of the template `key`: `exectime_us` is
    /// clamped to 1 µs .. one minute, and `ts` may move the first or last
    /// timestamp of the template.
    pub fn observe(&mut self, key: &str, exectime_us: u64, ts: &str)
        requires
            old(self).wf(),
            old(self).view_map().contains_key(key@) ==> old(self).view_map()[key@].0.len() < u64::MAX,
        ensures
            final(self).wf(),
            final(self).view_map() == observed(old(self).view_map(), key@, exectime_us, ts@),
    {
        let v: u64 = if exectime_us < 1 {
            1
        } else if exectime_us > MAX_US {
            MAX_US
        } else {
            exectime_us
        };
        let ghost before = self.view_map();
        let found = self.position(key);
        if let Some(pos) = found {
            self.observe_at(pos, key, v, exectime_us, ts);
        } else {
            self.observe_new(key, v, exectime_us, ts);
        }
    }

    /// `observe` for a template not seen yet.
    fn observe_new(&mut self, key: &str, v: u64, exectime_us: u64, ts: &str)
        requires
            old(self).wf(),
            !old(self).index@.contains_key(key@),
            v == clamp_us(exectime_us),
        ensures
            final(self).wf(),
            final(self).view_map() == observed(old(self).view_map(), key@, exectime_us, ts@),
    {
        let ghost before = self.view_map();
        let pos = self.entries.len();
        let mut h = new_histogram();
        hist_record(&mut h, v);
        assert(hist_samples(h) =~= Multiset::<u64>::empty().insert(v));
        let e = TemplateEntry { key: owned(key), histogram: h, first_seen: owned(ts), last_seen: owned(ts) };
        self.entries.push(e);
        self.index.insert(owned(key), pos);
        proof {
            assert forall|k: Seq<char>| #[trigger] self.index@.contains_key(k) implies
                self.index@[k] < self.entries@.len() && self.entries@[self.index@[k] as int].key@ == k by {
                if k != key@ {
                    assert(old(self).index@.contains_key(k));
                }
            }
            assert forall|i: int| 0 <= i < self.entries@.len() implies {
                &&& #[trigger] self.index@.contains_key(self.entries@[i].key@)
                &&& self.index@[self.entries@[i].key@] == i
                &&& self.entries@[i].bounds_ok()
            } by {
                if i < pos {
                    assert(old(self).index@.contains_key(old(self).entries@[i].key@));
                    if old(self).entries@[i].key@ == key@ {
                        assert(old(self).index@.contains_key(key@));
                    }
                }
            }
            assert(self.view_map() =~= observed(before, key@, exectime_us, ts@));
        }
        assert(self.wf());
    }

    /// Merges one entry: combined with the entry of the same template, or
    /// added last.
    fn merge_entry(&mut self, e: TemplateEntry)
        requires
            old(self).wf(),
            e.bounds_ok(),
            old(self).view_map().contains_key(e.key@) ==> old(self).view_map()[e.key@].0.len() + e.view_of().0.len() <= u64::MAX,
        ensures
            final(self).wf(),
            final(self).view_map() == merged(old(self).view_map(), map![e.key@ => e.view_of()]),
    {
        let found = self.position(e.key.as_str());
        if let Some(pos) = found {
            self.merge_at(pos, e);
        } else {
            self.merge_new(e);
        }
    }

    /// `merge_entry` for a template present at `pos`.
    fn merge_at(&mut self, pos: usize, e: TemplateEntry)
        requires
            old(self).wf(),
            e.bounds_ok(),
            old(self).index@.contains_key(e.key@),
            old(self).index@[e.key@] == pos,
            old(self).view_map()[e.key@].0.len() + e.view_of().0.len() <= u64::MAX,
        ensures
            final(self).wf(),
            final(self).view_map() == merged(old(self).view_map(), map![e.key@ => e.view_of()]),
    {
        let ghost before = self.view_map();
        let ghost single = map![e.key@ => e.view_of()];
        let ghost oe = self.entries@;
        let mut cur = self.entries.remove(pos);
        hist_add(&mut cur.histogram, &e.histogram);
        if str_lt(e.first_seen.as_str(), cur.first_seen.as_str()) {
            cur.first_seen = e.first_seen;
        }
        if str_lt(cur.last_seen.as_str(), e.last_seen.as_str()) {
            cur.last_seen = e.last_seen;
        }
        self.entries.insert(pos, cur);
        proof {
            assert(self.entries@ =~= oe.update(pos as int, self.entries@[pos as int]));
            lemma_replace_keeps_wf(*old(self), *self, pos as int);
            assert(self.view_map() =~= merged(before, single));
        }
        assert(self.wf());
    }

    /// `merge_entry` for a template not present yet.
    fn merge_new(&mut self, e: TemplateEntry)
        requires
            old(self).wf(),
            e.bounds_ok(),
            !old(self).index@.contains_key(e.key@),
        ensures
            final(self).wf(),
            final(self).view_map() == merged(old(self).view_map(), map![e.key@ => e.view_of()]),
    {
        let ghost before = self.view_map();
        let ghost single = map![e.key@ => e.view_of()];
        let pos = self.entries.len();
        let key = e.key.clone();
        self.entries.push(e);
        self.index.insert(key, pos);
        proof {
            let k0 = self.entries@[pos as int].key@;
            assert forall|k: Seq<char>| #[trigger] self.index@.contains_key(k) implies
                self.index@[k] < self.entries@.len() && self.entries@[self.index@[k] as int].key@ == k by {
                if k != k0 {
                    assert(old(self).index@.contains_key(k));
                }
            }
            assert forall|i: int| 0 <= i < self.entries@.len() implies {
                &&& #[trigger] self.index@.contains_key(self.entries@[i].key@)
                &&& self.index@[self.entries@[i].key@] == i
                &&& self.entries@[i].bounds_ok()
            } by {
                if i < pos {
                    assert(old(self).index@.contains_key(old(self).entries@[i].key@));
                    if old(self).entries@[i].key@ == k0 {
                        assert(old(self).index@.contains_key(k0));
                    }
                }
            }
            assert(self.view_map() =~= merged(before, single));
        }
        assert(self.wf());
    }

    /// Merges `other` into this aggregation (the parallel path): samples
    /// of a template seen by both are combined, its earlier first and
    /// later last timestamp are kept, and templates seen only by `other`
    /// are taken over.
    pub fn merge(&mut self, other: TemplateAggregator)
        requires
            old(self).wf(),
            other.wf(),
            forall|k: Seq<char>| #[trigger] old(self).view_map().contains_key(k) && other.view_map().contains_key(k) ==>
                old(self).view_map()[k].0.len() + other.view_map()[k].0.len() <= u64::MAX,
        ensures
            final(self).wf(),
            final(self).view_map() == merged(old(self).view_map(), other.view_map()),
    {
        let ghost a = self.view_map();
        let ghost b = other.view_map();
        let ghost oe = other.entries@;
        let ghost oi = other.index@;
        let mut rest = other.entries;
        while rest.len() > 0
            invariant
                self.wf(),
                rest@.len() <= oe.len(),
                rest@ == oe.take(rest@.len() as int),
                forall|i: int| 0 <= i < oe.len() ==> {
                    &&& #[trigger] oi.contains_key(oe[i].key@)
                    &&& oi[oe[i].key@] == i
                    &&& oe[i].bounds_ok()
                },
                forall|k: Seq<char>| #[trigger] oi.contains_key(k) ==> oi[k] < oe.len() && oe[oi[k] as int].key@ == k,
                b == Map::new(|k: Seq<char>| oi.contains_key(k), |k: Seq<char>| oe[oi[k] as int].view_of()),
                forall|k: Seq<char>| #[trigger] a.contains_key(k) && b.contains_key(k) ==> a[k].0.len() + b[k].0.len() <= u64::MAX,
                self.view_map() == merged(a, b.restrict(Set::new(|k: Seq<char>| oi.contains_key(k) && oi[k] >= rest@.len()))),
            decreases rest.len(),
        {
            let ghost n = rest@.len();
            let e = rest.pop().unwrap();
            proof {
                assert(e == oe[n - 1]);
                assert(oi.contains_key(oe[n - 1].key@));
                assert(oi.contains_key(e.key@) && oi[e.key@] == n - 1);
                let done = Set::new(|k: Seq<char>| oi.contains_key(k) && oi[k] >= n);
                assert(!done.contains(e.key@));
                let cur = self.view_map();
                if cur.contains_key(e.key@) {
                    assert(a.contains_key(e.key@));
                    assert(b.contains_key(e.key@));
                    assert(cur[e.key@] == a[e.key@]);
                }
            }
            self.merge_entry(e);
            proof {
                let n1 = (n - 1) as int;
                let done0 = Set::new(|k: Seq<char>| oi.contains_key(k) && oi[k] >= n);
                let done1 = Set::new(|k: Seq<char>| oi.contains_key(k) && oi[k] >= n1);
                assert(rest@ =~= oe.take(n1));
                assert(self.view_map() =~= merged(a, b.restrict(done1)));
            }
        }
        proof {
            let all = Set::new(|k: Seq<char>| oi.contains_key(k) && oi[k] >= 0);
            assert(b.restrict(all) =~= b);
        }
    }

    /// The keys of the entries, in storage order.
    spec fn keys_seq(&self) -> Seq<Seq<char>> {
        Seq::new(self.entries@.len(), |i: int| self.entries@[i].key@)
    }

    /// Every template has at most `u64::MAX` samples.
    spec fn counts_fit(&self) -> bool {
        forall|i: int| 0 <= i < self.entries@.len() ==> #[trigger] self.entries@[i].view_of().0.len() <= u64::MAX
    }

    /// The sample counts of the entries, in storage order.
    spec fn counts_seq(&self) -> Seq<u64> {
        Seq::new(self.entries@.len(), |i: int| self.entries@[i].view_of().0.len() as u64)
    }

    /// The storage positions of the entries in table order.
    fn ranked_positions(&self) -> (r: Vec<usize>)
        requires
            self.wf(),
        ensures
            self.counts_fit(),
            is_ranking(self.keys_seq(), self.counts_seq(), 0, None, r@),
    {
        let mut keys: Vec<String> = Vec::new();
        let mut counts: Vec<u64> = Vec::new();
        let mut i: usize = 0;
        while i < self.entries.len()
            invariant
                i <= self.entries@.len(),
                keys@.len() == i,
                counts@.len() == i,
                forall|j: int| 0 <= j < i ==> #[trigger] keys@[j]@ == self.entries@[j].key@,
                forall|j: int| 0 <= j < i ==> #[trigger] counts@[j] == self.entries@[j].view_of().0.len(),
            decreases self.entries@.len() - i,
        {
            keys.push(owned(self.entries[i].key.as_str()));
            counts.push(hist_len(&self.entries[i].histogram));
            i += 1;
        }
        proof {
            assert forall|j: int| 0 <= j < self.entries@.len() implies #[trigger] self.entries@[j].view_of().0.len() <= u64::MAX by {
                assert(counts@[j] == self.entries@[j].view_of().0.len());
            }
            assert(strings_view(keys@) =~= self.keys_seq());
            assert(counts@ =~= self.counts_seq());
        }
        rank_by_count(keys.as_slice(), counts.as_slice(), 0, None)
    }

    /// A ranking of all entries lists each template once, in table order.
    proof fn lemma_ranking_is_table(&self, r: Seq<usize>)
        requires
            self.wf(),
            self.counts_fit(),
            is_ranking(self.keys_seq(), self.counts_seq(), 0, None, r),
        ensures
            forall|a: int| 0 <= a < r.len() ==> #[trigger] r[a] < self.entries@.len(),
            is_table(self.view_map(), Seq::new(r.len(), |a: int| self.entries@[r[a] as int].key@)),
    {
        let m = self.view_map();
        let ks = self.keys_seq();
        let cs = self.counts_seq();
        let t = Seq::new(r.len(), |a: int| self.entries@[r[a] as int].key@);
        assert forall|a: int| 0 <= a < r.len() implies #[trigger] r[a] < self.entries@.len() by {
            assert(eligible(cs, 0, r[a] as int));
        }
        assert forall|a: int| 0 <= a < t.len() implies m.contains_key(#[trigger] t[a]) by {
            assert(eligible(cs, 0, r[a] as int));
            assert(self.index@.contains_key(self.entries@[r[a] as int].key@));
        }
        assert forall|k: Seq<char>| #[trigger] m.contains_key(k) implies t.contains(k) by {
            let i = self.index@[k] as int;
            assert(eligible(cs, 0, i));
            assert(r.contains(i as usize));
            let a = choose|a: int| 0 <= a < r.len() && r[a] == i as usize;
            assert(t[a] == k);
        }
        assert forall|a: int, b: int| 0 <= a < b < t.len() implies {
            &&& #[trigger] t[a] != #[trigger] t[b]
            &&& comes_before(t[a], m[t[a]], t[b], m[t[b]])
        } by {
            let i = r[a] as int;
            let j = r[b] as int;
            assert(eligible(cs, 0, i));
            assert(eligible(cs, 0, j));
            assert(self.index@.contains_key(self.entries@[i].key@));
            assert(self.index@.contains_key(self.entries@[j].key@));
            assert(i != j);
            assert(t[a] != t[b]);
            assert(!ranks_before(ks, cs, j, i));
            assert(ks[i] == t[a] && ks[j] == t[b]);
            assert(m[t[a]] == self.entries@[i].view_of());
            assert(m[t[b]] == self.entries@[j].view_of());
            assert(cs[i] == self.entries@[i].view_of().0.len());
            assert(cs[j] == self.entries@[j].view_of().0.len());
            lemma_seq_lt_total(t[a], t[b]);
        }
    }

    /// Read-only views of all templates for charts, most samples first,
    /// ties by key in ascending order.
    pub fn iter_chart_entries(&self) -> (r: Vec<ChartEntry<'_>>)
        requires
            self.wf(),
        ensures
            is_table(self.view_map(), Seq::new(r@.len(), |a: int| r@[a].key@)),
            forall|a: int| 0 <= a < r@.len() ==> {
                &&& #[trigger] r@[a].count == self.view_map()[r@[a].key@].0.len()
                &&& hist_samples(*r@[a].histogram) == self.view_map()[r@[a].key@].0
            },
    {
        let ranked = self.ranked_positions();
        proof {
            self.lemma_ranking_is_table(ranked@);
        }
        let ghost t = Seq::new(ranked@.len(), |a: int| self.entries@[ranked@[a] as int].key@);
        let mut out: Vec<ChartEntry<'_>> = Vec::new();
        let mut a: usize = 0;
        while a < ranked.len()
            invariant
                self.wf(),
                a <= ranked@.len(),
                out@.len() == a,
                forall|b: int| 0 <= b < ranked@.len() ==> #[trigger] ranked@[b] < self.entries@.len(),
                forall|b: int| 0 <= b < a ==> {
                    &&& #[trigger] out@[b].key@ == self.entries@[ranked@[b] as int].key@
                    &&& out@[b].count == self.entries@[ranked@[b] as int].view_of().0.len()
                    &&& hist_samples(*out@[b].histogram) == self.entries@[ranked@[b] as int].view_of().0
                },
            decreases ranked@.len() - a,
        {
            let e = &self.entries[ranked[a]];
            out.push(ChartEntry { key: e.key.as_str(), count: hist_len(&e.histogram), histogram: &e.histogram });
            a += 1;
        }
        proof {
            assert(Seq::new(out@.len(), |a: int| out@[a].key@) =~= t);
            assert forall|b: int| 0 <= b < out@.len() implies {
                &&& #[trigger] out@[b].count == self.view_map()[out@[b].key@].0.len()
                &&& hist_samples(*out@[b].histogram) == self.view_map()[out@[b].key@].0
            } by {
                let i = ranked@[b] as int;
                assert(self.index@.contains_key(self.entries@[i].key@));
            }
        }
        out
    }

    /// The statistics of every template, most samples first, ties by key
    /// in ascending order.
    pub fn finalize(self) -> (r: Vec<TemplateEntry>)
        requires
            self.wf(),
        ensures
            is_table(self.view_map(), Seq::new(r@.len(), |a: int| r@[a].key_of())),
            forall|a: int| 0 <= a < r@.len() ==> {
                &&& #[trigger] r@[a].view_of() == self.view_map()[r@[a].key_of()]
                &&& r@[a].bounds_ok()
            },
    {
        let ranked = self.ranked_positions();
        proof {
            self.lemma_ranking_is_table(ranked@);
        }
        let ghost m = self.view_map();
        let ghost es = self.entries@;
        let ghost t = Seq::new(ranked@.len(), |a: int| es[ranked@[a] as int].key@);
        assert forall|i: int| 0 <= i < es.len() implies #[trigger] m[es[i].key@] == es[i].view_of() && es[i].bounds_ok() by {
            assert(self.index@.contains_key(es[i].key@));
        }
        let n = self.entries.len();
        let mut ents = self.entries;
        let mut slots: Vec<Option<TemplateEntry>> = Vec::new();
        while ents.len() > 0
            invariant
                n == es.len(),
                ents@.len() <= n,
                ents@ == es.take(ents@.len() as int),
                slots@.len() + ents@.len() == n,
                forall|j: int| 0 <= j < slots@.len() ==> #[trigger] slots@[j] == Some(es[n - 1 - j]),
            decreases ents@.len(),
        {
            let ghost k = ents@.len();
            let e = ents.pop().unwrap();
            assert(e == es[k - 1]);
            slots.push(Some(e));
            assert(ents@ =~= es.take(k - 1));
        }
        let mut out: Vec<TemplateEntry> = Vec::new();
        let mut a: usize = 0;
        while a < ranked.len()
            invariant
                n == es.len(),
                slots@.len() == n,
                a <= ranked@.len(),
                out@.len() == a,
                forall|b: int| 0 <= b < ranked@.len() ==> #[trigger] ranked@[b] < n,
                forall|b: int, c: int| 0 <= b < c < ranked@.len() ==> #[trigger] ranked@[b] != #[trigger] ranked@[c],
                forall|b: int| 0 <= b < a ==> #[trigger] out@[b] == es[ranked@[b] as int],
                forall|b: int| a <= b < ranked@.len() ==> #[trigger] slots@[n - 1 - ranked@[b]] == Some(es[ranked@[b] as int]),
            decreases ranked@.len() - a,
        {
            let idx = ranked[a];
            let e = slots[n - 1 - idx].take();
            proof {
                assert forall|b: int| a + 1 <= b < ranked@.len() implies #[trigger] slots@[n - 1 - ranked@[b]] == Some(es[ranked@[b] as int]) by {
                    assert(ranked@[a as int] != ranked@[b]);
                }
            }
            out.push(e.unwrap());
            a += 1;
        }
        proof {
            assert(Seq::new(out@.len(), |a: int| out@[a].key_of()) =~= t);
            assert forall|b: int| 0 <= b < out@.len() implies {
                &&& #[trigger] out@[b].view_of() == m[out@[b].key_of()]
                &&& out@[b].bounds_ok()
            } by {
                let i = ranked@[b] as int;
                assert(out@[b] == es[i]);
                assert(m[es[i].key@] == es[i].view_of());
            }
        }
        out
    }
}

} // verus!
