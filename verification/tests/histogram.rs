use snd::runner::histogram::{bucket_bounds, bucket_of, Histogram, BUCKETS};

#[test]
fn bucket_of_exact_values() {
    assert_eq!(bucket_of(0), 0);
    assert_eq!(bucket_of(1), 1);
    assert_eq!(bucket_of(31), 31);
    assert_eq!(bucket_of(32), 32);
    assert_eq!(bucket_of(33), 32);
    assert_eq!(bucket_of(34), 33);
    assert_eq!(bucket_of(63), 47);
    assert_eq!(bucket_of(64), 48);
    assert_eq!(bucket_of(2000), 127);
    assert_eq!(bucket_of(3000), 135);
    assert_eq!(bucket_of(u64::MAX), 975);
    assert_eq!(BUCKETS, 976);
}

#[test]
fn bucket_bounds_exact_values() {
    assert_eq!(bucket_bounds(0), (0, 0));
    assert_eq!(bucket_bounds(31), (31, 31));
    assert_eq!(bucket_bounds(32), (32, 33));
    assert_eq!(bucket_bounds(47), (62, 63));
    assert_eq!(bucket_bounds(48), (64, 67));
    assert_eq!(bucket_bounds(127), (1984, 2047));
    assert_eq!(bucket_bounds(975), (31u64 << 59, u64::MAX));
}

#[test]
fn buckets_cover_their_values_in_order() {
    let mut last_high = None;
    for i in 0..BUCKETS {
        let (low, high) = bucket_bounds(i);
        assert!(low <= high);
        assert_eq!(bucket_of(low), i);
        assert_eq!(bucket_of(high), i);
        if let Some(previous) = last_high {
            assert_eq!(low, previous + 1);
        }
        last_high = Some(high);
    }
    assert_eq!(last_high, Some(u64::MAX));
}

#[test]
fn bucket_width_is_a_sixteenth_at_most() {
    for v in [40u64, 1_000, 1_000_000, 123_456_789, 5_000_000_000, u64::MAX / 3] {
        let (low, high) = bucket_bounds(bucket_of(v));
        assert!(low <= v && v <= high);
        assert!((high - low + 1) * 16 <= low);
    }
}

#[test]
fn empty_histogram_has_no_report() {
    let mut h = Histogram::new();
    assert_eq!(h.count(), 0);
    assert!(h.report().is_none());
    h.add(0);
    assert_eq!(h.count(), 0);
    assert!(h.report().is_none());
}

#[test]
fn report_of_three_samples() {
    let mut h = Histogram::new();
    h.add(1000);
    h.add(3000);
    h.add(0);
    h.add(2000);
    let r = h.report().unwrap();
    assert_eq!(r.count(), 3);
    assert_eq!(r.min(), 1000);
    assert_eq!(r.max(), 3000);
    assert_eq!(r.mean(), 2000);
    assert_eq!(r.percent50(), 2047);
    assert_eq!(r.percent90(), 3000);
    assert_eq!(r.percent95(), 3000);
    assert_eq!(r.percent99(), 3000);
    assert_eq!(r.percentile(1), 1023);
    assert_eq!(r.percentile(100), 3000);
}

#[test]
fn percentiles_of_small_values_are_exact() {
    let mut h = Histogram::new();
    for v in 1..=20u64 {
        h.add(v);
    }
    let r = h.report().unwrap();
    assert_eq!(r.percent50(), 10);
    assert_eq!(r.percent90(), 18);
    assert_eq!(r.percent95(), 19);
    assert_eq!(r.percent99(), 20);
    assert_eq!(r.mean(), 10);
}

#[test]
fn merge_equals_the_histogram_of_all_samples() {
    let left = [1_200_000u64, 15, 980_000, 44_000_000, 3];
    let right = [2_500_000u64, 700, 700, 1_000_000_000];
    let mut a = Histogram::new();
    let mut b = Histogram::new();
    let mut all = Histogram::new();
    for v in left {
        a.add(v);
        all.add(v);
    }
    for v in right {
        b.add(v);
        all.add(v);
    }
    let merged = a.report().unwrap().add(b.report().unwrap());
    let whole = all.report().unwrap();
    assert_eq!(merged.count(), whole.count());
    assert_eq!(merged.count(), 9);
    assert_eq!(merged.min(), 3);
    assert_eq!(merged.max(), 1_000_000_000);
    assert_eq!(merged.mean(), whole.mean());
    for p in 1..=100u8 {
        assert_eq!(merged.percentile(p), whole.percentile(p));
    }
    let swapped = b.report().unwrap().add(a.report().unwrap());
    for p in 1..=100u8 {
        assert_eq!(swapped.percentile(p), whole.percentile(p));
    }
}

#[test]
fn percentile_is_within_a_bucket_of_the_sample() {
    let mut samples: Vec<u64> = (1..=1000u64).map(|i| i * 37_003 + 11).collect();
    let mut h = Histogram::new();
    for v in samples.iter() {
        h.add(*v);
    }
    samples.sort();
    let r = h.report().unwrap();
    for p in [50u8, 90, 95, 99] {
        let rank = (p as usize * samples.len() + 99) / 100;
        let exact = samples[rank - 1];
        let reported = r.percentile(p);
        assert!(reported >= exact);
        assert_eq!(bucket_of(reported), bucket_of(exact));
    }
}

#[test]
fn reports_fit_until_the_count_overflows() {
    let mut a = Histogram::new();
    a.add(5);
    let r = a.report().unwrap();
    assert!(r.fits_with(&r.clone()));
}

#[test]
fn percentiles_grow_and_stay_between_min_and_max() {
    let mut h = Histogram::new();
    for i in 1..=500u64 {
        h.add(i * i * 31 + 7);
    }
    let r = h.report().unwrap();
    let mut last = r.min();
    for p in 1..=100u8 {
        let value = r.percentile(p);
        assert!(last <= value);
        last = value;
    }
    assert!(last <= r.max());
    assert_eq!(r.percentile(100), r.max());
    let mut single = Histogram::new();
    single.add(1_000_003);
    let s = single.report().unwrap();
    assert_eq!(s.percent50(), 1_000_003);
    assert_eq!(s.percentile(1), 1_000_003);
}
