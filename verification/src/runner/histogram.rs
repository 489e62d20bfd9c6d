//! A latency histogram over whole nanoseconds.
//!
//! Samples are counted in log-linear buckets: values below 32 each have a
//! bucket of their own, and every further doubling of the value range is cut
//! into 16 buckets of equal width. A bucket is therefore never wider than a
//! sixteenth of the values it holds, which is the resolution of the reported
//! percentiles. Count, sum, minimum and maximum are kept exactly.

use vstd::prelude::*;
use vstd::arithmetic::power2::*;
use vstd::arithmetic::div_mod::*;
use vstd::arithmetic::mul::*;

verus! {

/// Number of buckets: 16 for each of the 60 scales, and 16 more for the
/// values below 16.
pub const BUCKETS: usize = 976;

/// The largest scale that a 64-bit value can have.
pub const MAX_SCALE: usize = 59;

/// How many times `v` must be halved to fall below 32.
pub open spec fn scale_of(v: nat) -> nat
    decreases v,
{
    if v < 32 {
        0
    } else {
        1 + scale_of(v / 2)
    }
}

/// The bucket that counts the value `v`.
pub open spec fn bucket_index(v: nat) -> nat {
    16 * scale_of(v) + v / pow2(scale_of(v))
}

/// The scale of the values that bucket `i` counts.
pub open spec fn bucket_scale(i: nat) -> nat {
    if i < 32 {
        0
    } else {
        (i / 16 - 1) as nat
    }
}

/// The smallest value that bucket `i` counts.
pub open spec fn bucket_low(i: nat) -> nat {
    if i < 32 {
        i
    } else {
        (i % 16 + 16) * pow2(bucket_scale(i))
    }
}

/// The number of values that bucket `i` covers.
pub open spec fn bucket_width(i: nat) -> nat {
    pow2(bucket_scale(i))
}

/// The largest value that bucket `i` counts.
pub open spec fn bucket_high(i: nat) -> nat {
    (bucket_low(i) + bucket_width(i) - 1) as nat
}

/// A value that is halved `scale_of` times lies below 32, and at or above 16
/// unless it was below 32 from the start.
pub proof fn lemma_scaled_range(v: nat)
    ensures
        v / pow2(scale_of(v)) < 32,
        scale_of(v) > 0 ==> v / pow2(scale_of(v)) >= 16,
    decreases v,
{
    lemma2_to64();
    if v < 32 {
        assert(pow2(0) == 1);
    } else {
        let s = scale_of(v / 2);
        lemma_scaled_range(v / 2);
        lemma_pow2_unfold(s + 1);
        lemma_pow2_pos(s);
        lemma_div_denominator(v as int, 2, pow2(s) as int);
        assert(v / pow2(s + 1) == (v / 2) / pow2(s));
        if s == 0 {
            assert(pow2(0) == 1);
        }
    }
}

/// A value below `32 * 2^k` has a scale of at most `k`.
pub proof fn lemma_scale_bound(v: nat, k: nat)
    requires
        v < 32 * pow2(k),
    ensures
        scale_of(v) <= k,
    decreases v,
{
    lemma2_to64();
    if v >= 32 {
        if k == 0 {
            assert(pow2(0) == 1);
        } else {
            lemma_pow2_unfold(k);
            lemma_scale_bound(v / 2, (k - 1) as nat);
        }
    }
}

/// The scale grows with the value.
pub proof fn lemma_scale_monotonic(a: nat, b: nat)
    requires
        a <= b,
    ensures
        scale_of(a) <= scale_of(b),
    decreases b,
{
    if a >= 32 {
        lemma_scale_monotonic(a / 2, b / 2);
    }
}

/// Every 64-bit value has a bucket.
pub proof fn lemma_bucket_index_bound(v: nat)
    requires
        v <= u64::MAX,
    ensures
        scale_of(v) <= MAX_SCALE,
        bucket_index(v) < BUCKETS,
{
    lemma2_to64();
    lemma2_to64_rest();
    lemma_scale_bound(v, 59);
    lemma_scaled_range(v);
}

/// The bucket of a value grows with the value.
pub proof fn lemma_bucket_index_monotonic(a: nat, b: nat)
    requires
        a <= b,
    ensures
        bucket_index(a) <= bucket_index(b),
{
    let sa = scale_of(a);
    let sb = scale_of(b);
    let ma = a / pow2(sa);
    let mb = b / pow2(sb);
    lemma_scale_monotonic(a, b);
    lemma_scaled_range(a);
    lemma_scaled_range(b);
    if sa == sb {
        lemma_pow2_pos(sa);
        lemma_div_is_ordered(a as int, b as int, pow2(sa) as int);
        assert(ma <= mb);
        assert(16 * sa + ma <= 16 * sb + mb);
    } else {
        assert(ma < 32);
        assert(mb >= 16);
        assert(16 * sa + ma <= 16 * sb + mb) by (nonlinear_arith)
            requires
                ma < 32,
                mb >= 16,
                sb >= sa + 1,
        ;
    }
}

/// The bucket of a value covers the value.
pub proof fn lemma_bucket_covers(v: nat)
    ensures
        bucket_scale(bucket_index(v)) == scale_of(v),
        bucket_low(bucket_index(v)) <= v <= bucket_high(bucket_index(v)),
{
    let s = scale_of(v);
    let p = pow2(s);
    let m = v / p;
    lemma_scaled_range(v);
    lemma_pow2_pos(s);
    lemma_fundamental_div_mod(v as int, p as int);
    lemma_mod_bound(v as int, p as int);
    if s == 0 {
        lemma2_to64();
    } else {
        let i = bucket_index(v);
        assert(i == 16 * s + m);
        assert(i / 16 == s + 1);
        assert(i % 16 == m - 16);
        assert(bucket_low(i) == m * p);
        lemma_mul_is_commutative(m as int, p as int);
    }
}

/// Computes the bucket of a value.
pub fn bucket_of(v: u64) -> (i: usize)
    ensures
        i == bucket_index(v as nat),
        i < BUCKETS,
{
    let mut k: usize = 0;
    let mut m: u64 = v;
    proof {
        lemma2_to64();
        lemma_bucket_index_bound(v as nat);
    }
    while m >= 32
        invariant
            m == (v as nat) / pow2(k as nat),
            scale_of(v as nat) == k + scale_of(m as nat),
            scale_of(v as nat) <= MAX_SCALE,
        decreases m,
    {
        proof {
            lemma_pow2_unfold((k + 1) as nat);
            lemma_pow2_pos(k as nat);
            lemma_div_denominator(v as int, pow2(k as nat) as int, 2);
            lemma_mul_is_commutative(pow2(k as nat) as int, 2);
        }
        m = m / 2;
        k = k + 1;
    }
    16 * k + (m as usize)
}

/// Computes the smallest and the largest value of a bucket.
pub fn bucket_bounds(i: usize) -> (r: (u64, u64))
    requires
        i < BUCKETS,
    ensures
        r.0 == bucket_low(i as nat),
        r.1 == bucket_high(i as nat),
{
    if i < 32 {
        proof {
            lemma2_to64();
        }
        (i as u64, i as u64)
    } else {
        let scale: usize = i / 16 - 1;
        let lead: u64 = (i % 16 + 16) as u64;
        let mut width: u64 = 1;
        let mut k: usize = 0;
        proof {
            lemma2_to64();
            lemma2_to64_rest();
        }
        while k < scale
            invariant
                k <= scale <= MAX_SCALE,
                width == pow2(k as nat),
                width <= pow2(59),
                pow2(59) == 0x800000000000000,
            decreases scale - k,
        {
            proof {
                lemma_pow2_unfold((k + 1) as nat);
                if k + 1 < 59 {
                    lemma_pow2_strictly_increases((k + 1) as nat, 59);
                }
            }
            width = width * 2;
            k = k + 1;
        }
        proof {
            lemma_mul_inequality(width as int, pow2(59) as int, lead as int);
            lemma_mul_is_commutative(width as int, lead as int);
            lemma_mul_is_commutative(pow2(59) as int, lead as int);
            assert(lead * pow2(59) <= 31 * pow2(59)) by (nonlinear_arith)
                requires
                    lead <= 31,
            ;
        }
        let low: u64 = lead * width;
        (low, low + (width - 1))
    }
}

/// What a histogram holds: how many samples, their sum, the smallest and the
/// largest of them (both 0 while there is none), and the number of samples
/// in each bucket.
pub struct HistogramView {
    pub count: nat,
    pub total: nat,
    pub min: nat,
    pub max: nat,
    pub buckets: Seq<nat>,
}

/// The histogram without samples.
pub open spec fn empty_histogram() -> HistogramView {
    HistogramView {
        count: 0,
        total: 0,
        min: 0,
        max: 0,
        buckets: Seq::new(BUCKETS as nat, |i: int| 0nat),
    }
}

/// The histogram after one more sample. A sample of 0 stands for a response
/// whose latency was not measured and leaves the histogram as it is.
pub open spec fn record(h: HistogramView, v: nat) -> HistogramView {
    if v == 0 {
        h
    } else {
        HistogramView {
            count: h.count + 1,
            total: h.total + v,
            min: if h.count == 0 || v < h.min {
                v
            } else {
                h.min
            },
            max: if h.count == 0 || v > h.max {
                v
            } else {
                h.max
            },
            buckets: h.buckets.update(
                bucket_index(v) as int,
                h.buckets[bucket_index(v) as int] + 1,
            ),
        }
    }
}

/// The histogram of a sequence of samples.
pub open spec fn record_all(samples: Seq<nat>) -> HistogramView
    decreases samples.len(),
{
    if samples.len() == 0 {
        empty_histogram()
    } else {
        record(record_all(samples.drop_last()), samples.last())
    }
}

/// The union of two histograms.
pub open spec fn merged(a: HistogramView, b: HistogramView) -> HistogramView {
    HistogramView {
        count: a.count + b.count,
        total: a.total + b.total,
        min: if a.count == 0 {
            b.min
        } else if b.count == 0 || a.min <= b.min {
            a.min
        } else {
            b.min
        },
        max: if a.count == 0 {
            b.max
        } else if b.count == 0 || a.max >= b.max {
            a.max
        } else {
            b.max
        },
        buckets: Seq::new(BUCKETS as nat, |i: int| a.buckets[i] + b.buckets[i]),
    }
}

/// The number of samples in the first `n` buckets.
pub open spec fn prefix_count(buckets: Seq<nat>, n: nat) -> nat
    decreases n,
{
    if n == 0 {
        0
    } else {
        prefix_count(buckets, (n - 1) as nat) + buckets[n - 1]
    }
}

/// The rank, counted from 1, of the sample that stands for the `p`-th
/// percentile among `count` samples: the least rank that has at least `p`
/// hundredths of the samples at or below it.
pub open spec fn rank_of(count: nat, p: nat) -> nat {
    (p * count + 99) / 100
}

/// The first bucket, from `from` on, up to which at least `rank` samples
/// are counted.
pub open spec fn rank_bucket_from(buckets: Seq<nat>, rank: nat, from: nat) -> nat
    decreases buckets.len() - from,
{
    if from >= buckets.len() || prefix_count(buckets, from + 1) >= rank {
        from
    } else {
        rank_bucket_from(buckets, rank, from + 1)
    }
}

/// The bucket that holds the sample of the given rank.
pub open spec fn rank_bucket(buckets: Seq<nat>, rank: nat) -> nat {
    rank_bucket_from(buckets, rank, 0)
}

/// The `p`-th percentile as the histogram reports it: the largest value of
/// the bucket that holds the sample of that rank, but not more than the
/// largest sample. It is 0 while there is no sample.
pub open spec fn percentile_of(h: HistogramView, p: nat) -> nat {
    if h.count == 0 {
        0
    } else {
        let high = bucket_high(rank_bucket(h.buckets, rank_of(h.count, p)));
        if high < h.max {
            high
        } else {
            h.max
        }
    }
}

/// The mean of the samples, rounded down; 0 while there is no sample.
pub open spec fn mean_of(h: HistogramView) -> nat {
    if h.count == 0 {
        0
    } else {
        h.total / h.count
    }
}

/// The shape that every histogram has: one counter per bucket, the counters
/// adding up to the number of samples, no sample below the smallest or above
/// the largest, and nothing recorded where there is no sample.
pub open spec fn well_formed(h: HistogramView) -> bool {
    &&& h.buckets.len() == BUCKETS
    &&& prefix_count(h.buckets, BUCKETS as nat) == h.count
    &&& h.total <= h.count * u64::MAX
    &&& h.min <= h.max <= u64::MAX
    &&& h.count == 0 ==> h.max == 0 && h.total == 0
    &&& h.count > 0 ==> h.min >= 1
    &&& forall|i: int| 0 <= i < bucket_index(h.min) ==> h.buckets[i] == 0
    &&& forall|i: int| bucket_index(h.max) < i < BUCKETS ==> h.buckets[i] == 0
}

/// Counting one more sample in bucket `i` adds one to every prefix that
/// reaches it.
pub proof fn lemma_prefix_count_update(buckets: Seq<nat>, i: nat, n: nat)
    requires
        i < buckets.len(),
        n <= buckets.len(),
    ensures
        prefix_count(buckets.update(i as int, buckets[i as int] + 1), n) == prefix_count(
            buckets,
            n,
        ) + if i < n {
            1nat
        } else {
            0nat
        },
    decreases n,
{
    if n > 0 {
        lemma_prefix_count_update(buckets, i, (n - 1) as nat);
    }
}

/// The prefixes of a union are the sums of the prefixes.
pub proof fn lemma_prefix_count_merged(a: Seq<nat>, b: Seq<nat>, n: nat)
    requires
        a.len() == BUCKETS,
        b.len() == BUCKETS,
        n <= BUCKETS,
    ensures
        prefix_count(Seq::new(BUCKETS as nat, |i: int| a[i] + b[i]), n) == prefix_count(a, n)
            + prefix_count(b, n),
    decreases n,
{
    if n > 0 {
        lemma_prefix_count_merged(a, b, (n - 1) as nat);
    }
}

/// Prefixes grow with their length, and none holds more than all buckets.
pub proof fn lemma_prefix_count_monotonic(buckets: Seq<nat>, m: nat, n: nat)
    requires
        m <= n,
    ensures
        prefix_count(buckets, m) <= prefix_count(buckets, n),
    decreases n,
{
    if m < n {
        lemma_prefix_count_monotonic(buckets, m, (n - 1) as nat);
    }
}

/// A prefix of empty buckets is empty.
pub proof fn lemma_prefix_count_empty(n: nat)
    requires
        n <= BUCKETS,
    ensures
        prefix_count(empty_histogram().buckets, n) == 0,
    decreases n,
{
    if n > 0 {
        lemma_prefix_count_empty((n - 1) as nat);
    }
}

/// The empty histogram is well formed.
pub proof fn lemma_empty_well_formed()
    ensures
        well_formed(empty_histogram()),
{
    lemma_bucket_index_bound(0);
    lemma_prefix_count_empty(BUCKETS as nat);
}

/// Recording a 64-bit sample keeps a histogram well formed.
pub proof fn lemma_record_well_formed(h: HistogramView, v: nat)
    requires
        well_formed(h),
        v <= u64::MAX,
    ensures
        well_formed(record(h, v)),
{
    if v > 0 {
        let r = record(h, v);
        lemma_bucket_index_bound(v);
        lemma_prefix_count_update(h.buckets, bucket_index(v), BUCKETS as nat);
        assert(r.total <= r.count * u64::MAX) by (nonlinear_arith)
            requires
                r.total == h.total + v,
                r.count == h.count + 1,
                h.total <= h.count * u64::MAX,
                v <= u64::MAX,
        ;
        lemma_bucket_index_monotonic(h.max, r.max);
        lemma_bucket_index_monotonic(v, r.max);
        lemma_bucket_index_monotonic(r.min, v);
        if h.count == 0 {
            lemma_prefix_count_zero_count(h);
        } else {
            lemma_bucket_index_monotonic(r.min, h.min);
        }
    }
}

/// The union of two well-formed histograms is well formed.
pub proof fn lemma_merged_well_formed(a: HistogramView, b: HistogramView)
    requires
        well_formed(a),
        well_formed(b),
    ensures
        well_formed(merged(a, b)),
{
    let m = merged(a, b);
    lemma_prefix_count_merged(a.buckets, b.buckets, BUCKETS as nat);
    assert(m.total <= m.count * u64::MAX) by (nonlinear_arith)
        requires
            m.total == a.total + b.total,
            m.count == a.count + b.count,
            a.total <= a.count * u64::MAX,
            b.total <= b.count * u64::MAX,
    ;
    lemma_bucket_index_monotonic(a.max, m.max);
    lemma_bucket_index_monotonic(b.max, m.max);
    lemma_bucket_index_bound(m.min);
    if a.count == 0 {
        lemma_prefix_count_zero_count(a);
    } else {
        lemma_bucket_index_monotonic(m.min, a.min);
    }
    if b.count == 0 {
        lemma_prefix_count_zero_count(b);
    } else {
        lemma_bucket_index_monotonic(m.min, b.min);
    }
}

/// A well-formed histogram without samples has only empty buckets.
pub proof fn lemma_prefix_count_zero_count(h: HistogramView)
    requires
        well_formed(h),
        h.count == 0,
    ensures
        forall|i: int| 0 <= i < BUCKETS ==> h.buckets[i] == 0,
{
    assert forall|i: int| 0 <= i < BUCKETS implies h.buckets[i] == 0 by {
        lemma_prefix_count_monotonic(h.buckets, (i + 1) as nat, BUCKETS as nat);
    }
}

/// Merging histograms does not depend on their order.
pub proof fn lemma_merged_commutative(a: HistogramView, b: HistogramView)
    requires
        well_formed(a),
        well_formed(b),
    ensures
        merged(a, b) == merged(b, a),
{
    assert(merged(a, b).buckets =~= merged(b, a).buckets);
}

/// Merging histograms does not depend on how they are grouped.
pub proof fn lemma_merged_associative(a: HistogramView, b: HistogramView, c: HistogramView)
    requires
        well_formed(a),
        well_formed(b),
        well_formed(c),
    ensures
        merged(merged(a, b), c) == merged(a, merged(b, c)),
{
    assert(merged(merged(a, b), c).buckets =~= merged(a, merged(b, c)).buckets);
}

/// Merging with the empty histogram changes nothing.
pub proof fn lemma_merged_empty(a: HistogramView)
    requires
        well_formed(a),
    ensures
        merged(a, empty_histogram()) == a,
        merged(empty_histogram(), a) == a,
{
    assert(merged(a, empty_histogram()).buckets =~= a.buckets);
    assert(merged(empty_histogram(), a).buckets =~= a.buckets);
}

/// The histogram of 64-bit samples is well formed.
pub proof fn lemma_record_all_well_formed(samples: Seq<nat>)
    requires
        forall|i: int| 0 <= i < samples.len() ==> samples[i] <= u64::MAX,
    ensures
        well_formed(record_all(samples)),
    decreases samples.len(),
{
    if samples.len() == 0 {
        lemma_empty_well_formed();
    } else {
        lemma_record_all_well_formed(samples.drop_last());
        lemma_record_well_formed(record_all(samples.drop_last()), samples.last());
    }
}

/// Recording a sample into a union is the union with the sample recorded
/// on its right side.
pub proof fn lemma_record_merged(a: HistogramView, b: HistogramView, v: nat)
    requires
        well_formed(a),
        well_formed(b),
        v <= u64::MAX,
    ensures
        record(merged(a, b), v) == merged(a, record(b, v)),
{
    if v > 0 {
        lemma_bucket_index_bound(v);
        assert(record(merged(a, b), v).buckets =~= merged(a, record(b, v)).buckets);
    }
}

/// The histogram of two sample sequences put together is the union of their
/// histograms: merging loses nothing that a histogram holds.
pub proof fn lemma_merge_is_sample_union(s1: Seq<nat>, s2: Seq<nat>)
    requires
        forall|i: int| 0 <= i < s1.len() ==> s1[i] <= u64::MAX,
        forall|i: int| 0 <= i < s2.len() ==> s2[i] <= u64::MAX,
    ensures
        record_all(s1 + s2) == merged(record_all(s1), record_all(s2)),
    decreases s2.len(),
{
    lemma_record_all_well_formed(s1);
    lemma_record_all_well_formed(s2);
    if s2.len() == 0 {
        assert(s1 + s2 =~= s1);
        lemma_merged_empty(record_all(s1));
    } else {
        assert((s1 + s2).drop_last() =~= s1 + s2.drop_last());
        assert((s1 + s2).last() == s2.last());
        lemma_merge_is_sample_union(s1, s2.drop_last());
        lemma_record_all_well_formed(s2.drop_last());
        lemma_record_merged(record_all(s1), record_all(s2.drop_last()), s2.last());
    }
}

/// A value between sixteen and thirty-two times a power of two has that
/// power as its scale.
pub proof fn lemma_scale_of_range(v: nat, k: nat)
    requires
        k >= 1,
        16 * pow2(k) <= v < 32 * pow2(k),
    ensures
        scale_of(v) == k,
    decreases k,
{
    lemma2_to64();
    lemma_pow2_unfold(k);
    lemma_pow2_pos((k - 1) as nat);
    let half = pow2((k - 1) as nat);
    assert(16 * half <= v / 2 < 32 * half) by (nonlinear_arith)
        requires
            16 * (2 * half) <= v < 32 * (2 * half),
    ;
    assert(v >= 32) by (nonlinear_arith)
        requires
            16 * (2 * half) <= v,
            half >= 1,
    ;
    assert(scale_of(v) == 1 + scale_of(v / 2));
    if k == 1 {
        assert(half == 1);
        assert(scale_of(v / 2) == 0);
    } else {
        lemma_scale_of_range(v / 2, (k - 1) as nat);
    }
}

/// Every value from the smallest to the largest of a bucket is counted in
/// that bucket.
pub proof fn lemma_bucket_of_bounds(i: nat, v: nat)
    requires
        i < BUCKETS,
        bucket_low(i) <= v <= bucket_high(i),
    ensures
        bucket_index(v) == i,
{
    lemma2_to64();
    if i < 32 {
        assert(pow2(0) == 1);
        assert(v == i);
        assert(scale_of(v) == 0);
        assert(bucket_index(v) == v);
    } else {
        let k = bucket_scale(i);
        let p = pow2(k);
        let m = i % 16 + 16;
        lemma_pow2_pos(k);
        assert(m * p <= v < (m + 1) * p) by (nonlinear_arith)
            requires
                m * p <= v <= m * p + p - 1,
        ;
        assert(16 * p <= v < 32 * p) by (nonlinear_arith)
            requires
                m * p <= v < (m + 1) * p,
                16 <= m < 32,
                p >= 1,
        ;
        lemma_scale_of_range(v, k);
        assert(v / p == m) by {
            lemma_mul_is_commutative(m as int, p as int);
            lemma_fundamental_div_mod_converse(v as int, p as int, m as int, v - m * p);
        }
        assert(bucket_index(v) == 16 * k + m);
        assert(k == i / 16 - 1);
        assert(16 * k + m == i);
    }
}

/// How many of the samples that count lie in the first `n` buckets.
pub open spec fn count_in_first(samples: Seq<nat>, n: nat) -> nat
    decreases samples.len(),
{
    if samples.len() == 0 {
        0
    } else {
        count_in_first(samples.drop_last(), n) + if samples.last() != 0 && bucket_index(
            samples.last(),
        ) < n {
            1nat
        } else {
            0nat
        }
    }
}

/// The first buckets of the histogram of some samples hold the samples
/// that lie in them.
pub proof fn lemma_prefix_is_count(samples: Seq<nat>, n: nat)
    requires
        forall|i: int| 0 <= i < samples.len() ==> samples[i] <= u64::MAX,
        n <= BUCKETS,
    ensures
        prefix_count(record_all(samples).buckets, n) == count_in_first(samples, n),
    decreases samples.len(),
{
    if samples.len() == 0 {
        lemma_prefix_count_empty(n);
    } else {
        let rest = samples.drop_last();
        let v = samples.last();
        lemma_prefix_is_count(rest, n);
        lemma_record_all_well_formed(rest);
        if v != 0 {
            lemma_bucket_index_bound(v);
            lemma_prefix_count_update(record_all(rest).buckets, bucket_index(v), n);
        }
    }
}

/// The search for the bucket of a rank, from a bucket before which fewer
/// samples than the rank are counted, ends at the first bucket up to which
/// at least as many are counted.
pub proof fn lemma_rank_bucket_from(buckets: Seq<nat>, rank: nat, from: nat)
    requires
        from < buckets.len(),
        prefix_count(buckets, from) < rank <= prefix_count(buckets, buckets.len()),
    ensures
        from <= rank_bucket_from(buckets, rank, from) < buckets.len(),
        prefix_count(buckets, rank_bucket_from(buckets, rank, from)) < rank,
        rank <= prefix_count(buckets, rank_bucket_from(buckets, rank, from) + 1),
    decreases buckets.len() - from,
{
    if prefix_count(buckets, from + 1) < rank {
        lemma_rank_bucket_from(buckets, rank, from + 1);
    }
}

/// The percentiles that a histogram reports are true to the samples within
/// the resolution of the buckets. For samples with at least one that counts,
/// and `p` from 1 to 100, take the rank of the `p`-th percentile and the
/// bucket of that rank. Then fewer samples than the rank lie in the buckets
/// before it and at least as many in the buckets up to it: the sample of that
/// rank, by value, lies in this bucket. And the value reported lies in the
/// same bucket.
pub proof fn lemma_percentile_resolution(samples: Seq<nat>, p: nat)
    requires
        forall|i: int| 0 <= i < samples.len() ==> samples[i] <= u64::MAX,
        record_all(samples).count > 0,
        1 <= p <= 100,
    ensures
        ({
            let h = record_all(samples);
            let rank = rank_of(h.count, p);
            let b = rank_bucket(h.buckets, rank);
            &&& 1 <= rank <= h.count
            &&& b < BUCKETS
            &&& count_in_first(samples, b) < rank <= count_in_first(samples, b + 1)
            &&& bucket_index(percentile_of(h, p)) == b
            &&& bucket_low(b) <= percentile_of(h, p) <= bucket_high(b)
        }),
{
    let h = record_all(samples);
    let rank = rank_of(h.count, p);
    let b = rank_bucket(h.buckets, rank);
    lemma_record_all_well_formed(samples);
    assert(1 <= rank <= h.count) by (nonlinear_arith)
        requires
            rank == (p * h.count + 99) / 100,
            1 <= p <= 100,
            h.count >= 1,
    ;
    lemma_rank_bucket_from(h.buckets, rank, 0);
    lemma_prefix_is_count(samples, b);
    lemma_prefix_is_count(samples, b + 1);
    assert(h.buckets[b as int] > 0);
    assert(b <= bucket_index(h.max));
    lemma_pow2_pos(bucket_scale(b));
    lemma_bucket_of_bounds(b, bucket_high(b));
    if bucket_high(b) >= h.max {
        lemma_bucket_index_monotonic(h.max, bucket_high(b));
        lemma_bucket_covers(h.max);
    }
}

/// The buckets keep the order of their values: a bucket ends below where
/// any later bucket begins.
pub proof fn lemma_buckets_in_order(i: nat, j: nat)
    requires
        i < j < BUCKETS,
    ensures
        bucket_low(i) <= bucket_high(i) < bucket_low(j) <= bucket_high(j),
{
    lemma_pow2_pos(bucket_scale(i));
    lemma_pow2_pos(bucket_scale(j));
    lemma_bucket_of_bounds(i, bucket_high(i));
    lemma_bucket_of_bounds(j, bucket_low(j));
    if bucket_high(i) >= bucket_low(j) {
        lemma_bucket_index_monotonic(bucket_low(j), bucket_high(i));
    }
}

/// The bucket of a rank grows with the rank.
pub proof fn lemma_rank_bucket_monotonic(buckets: Seq<nat>, low: nat, high: nat)
    requires
        buckets.len() > 0,
        1 <= low <= high <= prefix_count(buckets, buckets.len()),
    ensures
        rank_bucket(buckets, low) <= rank_bucket(buckets, high) < buckets.len(),
{
    lemma_rank_bucket_from(buckets, low, 0);
    lemma_rank_bucket_from(buckets, high, 0);
    let first = rank_bucket(buckets, low);
    let second = rank_bucket(buckets, high);
    if first > second {
        lemma_prefix_count_monotonic(buckets, second + 1, first);
    }
}

/// The percentiles that a histogram reports grow with their number, and
/// all of them lie between the smallest and the largest sample.
pub proof fn lemma_percentile_monotonic(h: HistogramView, p: nat, q: nat)
    requires
        well_formed(h),
        1 <= p <= q <= 100,
    ensures
        h.min <= percentile_of(h, p) <= percentile_of(h, q) <= h.max,
{
    if h.count > 0 {
        let low = rank_of(h.count, p);
        let high = rank_of(h.count, q);
        assert(1 <= low <= high <= h.count) by (nonlinear_arith)
            requires
                low == (p * h.count + 99) / 100,
                high == (q * h.count + 99) / 100,
                1 <= p <= q <= 100,
                h.count >= 1,
        ;
        lemma_rank_bucket_monotonic(h.buckets, low, high);
        lemma_rank_bucket_from(h.buckets, low, 0);
        let first = rank_bucket(h.buckets, low);
        let second = rank_bucket(h.buckets, high);
        if first < second {
            lemma_buckets_in_order(first, second);
        }
        assert(h.buckets[first as int] > 0);
        assert(bucket_index(h.min) <= first);
        lemma_bucket_covers(h.min);
        if bucket_index(h.min) < first {
            lemma_bucket_index_bound(h.min);
            lemma_buckets_in_order(bucket_index(h.min), first);
        }
    }
}

/// The figures of a report are in order: the smallest sample, the median,
/// the 90th, 95th and 99th percentile, and the largest sample, each no more
/// than the next.
pub proof fn lemma_percentiles_ordered(h: HistogramView)
    requires
        well_formed(h),
    ensures
        h.min <= percentile_of(h, 50) <= percentile_of(h, 90) <= percentile_of(h, 95)
            <= percentile_of(h, 99) <= h.max,
{
    lemma_percentile_monotonic(h, 50, 90);
    lemma_percentile_monotonic(h, 90, 95);
    lemma_percentile_monotonic(h, 95, 99);
}

/// The counters of a histogram as they are stored.
pub open spec fn counters_view(buckets: Seq<u64>) -> Seq<nat> {
    Seq::new(buckets.len(), |i: int| buckets[i] as nat)
}

/// A latency distribution: what a `Histogram` has recorded up to some
/// moment. Reports of several workers can be merged.
#[derive(Debug)]
pub struct HistogramReport {
    count: u64,
    total: u128,
    min: u64,
    max: u64,
    buckets: Vec<u64>,
}

impl View for HistogramReport {
    type V = HistogramView;

    closed spec fn view(&self) -> HistogramView {
        HistogramView {
            count: self.count as nat,
            total: self.total as nat,
            min: self.min as nat,
            max: self.max as nat,
            buckets: counters_view(self.buckets@),
        }
    }
}

impl Clone for HistogramReport {
    fn clone(&self) -> (r: Self)
        ensures
            r@ == self@,
    {
        let mut buckets: Vec<u64> = Vec::new();
        let mut i: usize = 0;
        while i < self.buckets.len()
            invariant
                i <= self.buckets.len(),
                buckets@ == self.buckets@.subrange(0, i as int),
            decreases self.buckets.len() - i,
        {
            buckets.push(self.buckets[i]);
            i = i + 1;
        }
        proof {
            assert(buckets@ =~= self.buckets@);
        }
        HistogramReport {
            count: self.count,
            total: self.total,
            min: self.min,
            max: self.max,
            buckets,
        }
    }
}

impl HistogramReport {
    /// Whether the report has the shape of a histogram.
    pub open spec fn wf(&self) -> bool {
        well_formed(self@)
    }

    fn empty() -> (r: Self)
        ensures
            r@ == empty_histogram(),
            r.wf(),
    {
        let mut buckets: Vec<u64> = Vec::new();
        let mut i: usize = 0;
        while i < BUCKETS
            invariant
                i <= BUCKETS,
                buckets@.len() == i,
                forall|j: int| 0 <= j < i ==> buckets@[j] == 0,
            decreases BUCKETS - i,
        {
            buckets.push(0);
            i = i + 1;
        }
        let r = HistogramReport { count: 0, total: 0, min: 0, max: 0, buckets };
        proof {
            assert(r@.buckets =~= empty_histogram().buckets);
            lemma_empty_well_formed();
        }
        r
    }

    /// The number of samples.
    pub fn count(&self) -> (r: u64)
        ensures
            r == self@.count,
    {
        self.count
    }

    /// The smallest sample, in nanoseconds; 0 without samples.
    pub fn min(&self) -> (r: u64)
        ensures
            r == self@.min,
    {
        self.min
    }

    /// The largest sample, in nanoseconds; 0 without samples.
    pub fn max(&self) -> (r: u64)
        ensures
            r == self@.max,
    {
        self.max
    }

    /// The mean of the samples in nanoseconds, rounded down.
    pub fn mean(&self) -> (r: u64)
        requires
            self.wf(),
        ensures
            r == mean_of(self@),
    {
        if self.count == 0 {
            0
        } else {
            let count: u128 = self.count as u128;
            proof {
                lemma_mean_bound(self@);
            }
            (self.total / count) as u64
        }
    }

    /// The `p`-th percentile in nanoseconds, for `p` from 1 to 100.
    pub fn percentile(&self, p: u8) -> (r: u64)
        requires
            self.wf(),
            1 <= p <= 100,
        ensures
            r == percentile_of(self@, p as nat),
            self@.min <= r <= self@.max,
    {
        proof {
            lemma_percentile_monotonic(self@, p as nat, p as nat);
        }
        if self.count == 0 {
            return 0;
        }
        proof {
            assert(p * self.count <= 100 * u64::MAX) by (nonlinear_arith)
                requires
                    p <= 100,
                    self.count <= u64::MAX,
            ;
        }
        let rank: u128 = (p as u128 * self.count as u128 + 99) / 100;
        let ghost counters = self@.buckets;
        let mut seen: u128 = 0;
        let mut b: usize = 0;
        proof {
            assert(1 <= rank <= self.count) by (nonlinear_arith)
                requires
                    rank == (p * self.count + 99) / 100,
                    1 <= p <= 100,
                    self.count >= 1,
            ;
        }
        while b < BUCKETS - 1 && seen + (self.buckets[b] as u128) < rank
            invariant
                b < BUCKETS,
                self.wf(),
                counters == self@.buckets,
                seen == prefix_count(counters, b as nat),
                seen < rank,
                rank <= self.count,
                rank_bucket(counters, rank as nat) == rank_bucket_from(
                    counters,
                    rank as nat,
                    b as nat,
                ),
            decreases BUCKETS - b,
        {
            seen = seen + (self.buckets[b] as u128);
            b = b + 1;
        }
        proof {
            if b == BUCKETS - 1 {
                assert(prefix_count(counters, (b + 1) as nat) >= rank);
            }
            assert(rank_bucket(counters, rank as nat) == b);
        }
        let high = bucket_bounds(b).1;
        if high < self.max {
            high
        } else {
            self.max
        }
    }

    /// The median latency in nanoseconds.
    pub fn percent50(&self) -> (r: u64)
        requires
            self.wf(),
        ensures
            r == percentile_of(self@, 50),
    {
        self.percentile(50)
    }

    /// The 90th percentile of the latency in nanoseconds.
    pub fn percent90(&self) -> (r: u64)
        requires
            self.wf(),
        ensures
            r == percentile_of(self@, 90),
    {
        self.percentile(90)
    }

    /// The 95th percentile of the latency in nanoseconds.
    pub fn percent95(&self) -> (r: u64)
        requires
            self.wf(),
        ensures
            r == percentile_of(self@, 95),
    {
        self.percentile(95)
    }

    /// The 99th percentile of the latency in nanoseconds.
    pub fn percent99(&self) -> (r: u64)
        requires
            self.wf(),
        ensures
            r == percentile_of(self@, 99),
    {
        self.percentile(99)
    }

    /// Whether the samples of both reports can be counted in one.
    pub fn fits_with(&self, rhs: &HistogramReport) -> (r: bool)
        ensures
            r == (self@.count + rhs@.count <= u64::MAX),
    {
        self.count <= u64::MAX - rhs.count
    }

    /// The union of two reports: the distribution of the samples of both.
    pub fn add(self, rhs: HistogramReport) -> (r: HistogramReport)
        requires
            self.wf(),
            rhs.wf(),
            self@.count + rhs@.count <= u64::MAX,
        ensures
            r.wf(),
            r@ == merged(self@, rhs@),
    {
        let ghost a = self@;
        let ghost b = rhs@;
        proof {
            lemma_merged_well_formed(a, b);
        }
        let mut buckets: Vec<u64> = Vec::new();
        let mut i: usize = 0;
        while i < BUCKETS
            invariant
                i <= BUCKETS,
                self.wf(),
                rhs.wf(),
                a == self@,
                b == rhs@,
                a.count + b.count <= u64::MAX,
                buckets@.len() == i,
                forall|j: int| 0 <= j < i ==> buckets@[j] == a.buckets[j] + b.buckets[j],
            decreases BUCKETS - i,
        {
            proof {
                lemma_bucket_at_most_count(a, i as nat);
                lemma_bucket_at_most_count(b, i as nat);
            }
            buckets.push(self.buckets[i] + rhs.buckets[i]);
            i = i + 1;
        }
        let r = HistogramReport {
            count: self.count + rhs.count,
            total: self.total + rhs.total,
            min: if self.count == 0 {
                rhs.min
            } else if rhs.count == 0 || self.min <= rhs.min {
                self.min
            } else {
                rhs.min
            },
            max: if self.count == 0 {
                rhs.max
            } else if rhs.count == 0 || self.max >= rhs.max {
                self.max
            } else {
                rhs.max
            },
            buckets,
        };
        proof {
            assert(r@.buckets =~= merged(a, b).buckets);
        }
        r
    }
}

/// No bucket holds more samples than the histogram.
pub proof fn lemma_bucket_at_most_count(h: HistogramView, i: nat)
    requires
        well_formed(h),
        i < BUCKETS,
    ensures
        h.buckets[i as int] <= h.count,
{
    lemma_prefix_count_monotonic(h.buckets, i + 1, BUCKETS as nat);
}

/// The mean of 64-bit samples is a 64-bit value.
pub proof fn lemma_mean_bound(h: HistogramView)
    requires
        well_formed(h),
    ensures
        mean_of(h) <= u64::MAX,
{
    if h.count > 0 {
        lemma_div_is_ordered(h.total as int, (h.count * u64::MAX) as int, h.count as int);
        lemma_div_by_multiple(u64::MAX as int, h.count as int);
        lemma_mul_is_commutative(u64::MAX as int, h.count as int);
    }
}

/// A recorder of latencies, in whole nanoseconds.
#[derive(Debug)]
pub struct Histogram {
    summary: HistogramReport,
}

impl View for Histogram {
    type V = HistogramView;

    closed spec fn view(&self) -> HistogramView {
        self.summary@
    }
}

impl Histogram {
    /// Whether the recorder has the shape of a histogram.
    pub open spec fn wf(&self) -> bool {
        well_formed(self@)
    }

    /// A histogram without samples.
    pub fn new() -> (r: Histogram)
        ensures
            r.wf(),
            r@ == empty_histogram(),
    {
        Histogram { summary: HistogramReport::empty() }
    }

    /// The number of samples recorded.
    pub fn count(&self) -> (r: u64)
        ensures
            r == self@.count,
    {
        self.summary.count
    }

    /// Records one latency. A latency of 0 marks a response that was not
    /// timed and is not recorded.
    pub fn add(&mut self, nanos: u64)
        requires
            old(self).wf(),
            old(self)@.count < u64::MAX,
        ensures
            final(self).wf(),
            final(self)@ == record(old(self)@, nanos as nat),
    {
        if nanos == 0 {
            return ;
        }
        let ghost before = self@;
        proof {
            lemma_record_well_formed(before, nanos as nat);
        }
        let i = bucket_of(nanos);
        proof {
            lemma_bucket_at_most_count(before, i as nat);
        }
        let c = self.summary.buckets[i];
        self.summary.buckets.set(i, c + 1);
        if self.summary.count == 0 || nanos < self.summary.min {
            self.summary.min = nanos;
        }
        if self.summary.count == 0 || nanos > self.summary.max {
            self.summary.max = nanos;
        }
        self.summary.count = self.summary.count + 1;
        self.summary.total = self.summary.total + nanos as u128;
        proof {
            assert(self@.buckets =~= record(before, nanos as nat).buckets);
        }
    }

    /// What has been recorded so far, or `None` while there is no sample.
    pub fn report(&self) -> (r: Option<HistogramReport>)
        requires
            self.wf(),
        ensures
            r is None <==> self@.count == 0,
            r matches Some(report) ==> report@ == self@ && report.wf(),
    {
        if self.summary.count == 0 {
            None
        } else {
            Some(self.summary.clone())
        }
    }
}

} // verus!
