use metriki_core::histogram::{Histogram, RESERVOIR_SIZE};

#[test]
fn five_values_statistics() {
    let mut h = Histogram::new();
    for v in [1u64, 2, 3, 4, 5] {
        h.update(v);
    }
    let s = h.snapshot();
    assert_eq!(s.mean(), 3);
    assert_eq!(s.min(), 1);
    assert_eq!(s.max(), 5);
    assert_eq!(s.quantile(500), 3);
    assert_eq!(s.sum(), 15);
    assert_eq!(s.count(), 5);
}

#[test]
fn empty_histogram_gives_zeroes() {
    let h = Histogram::new();
    let s = h.snapshot();
    assert_eq!(s.count(), 0);
    assert_eq!(s.mean(), 0);
    assert_eq!(s.min(), 0);
    assert_eq!(s.max(), 0);
    assert_eq!(s.quantile(0), 0);
    assert_eq!(s.quantile(1000), 0);
    assert_eq!(s.size(), 0);
}

#[test]
fn quantile_interpolates() {
    let mut h = Histogram::new();
    for v in [10u64, 20] {
        h.update(v);
    }
    let s = h.snapshot();
    assert_eq!(s.quantile(0), 10);
    assert_eq!(s.quantile(250), 12);
    assert_eq!(s.quantile(500), 15);
    assert_eq!(s.quantile(1000), 20);
}

#[test]
fn snapshot_is_sorted() {
    let mut h = Histogram::new();
    for v in [5u64, 3, 9, 1, 3] {
        h.update(v);
    }
    let s = h.snapshot();
    assert_eq!(s.values(), &vec![1u64, 3, 3, 5, 9]);
}

#[test]
fn snapshot_does_not_change_after_updates() {
    let mut h = Histogram::new();
    for v in [1u64, 2, 3] {
        h.update(v);
    }
    let s = h.snapshot();
    for v in [100u64, 200, 0] {
        h.update(v);
    }
    assert_eq!(s.count(), 3);
    assert_eq!(s.sum(), 6);
    assert_eq!(s.min(), 1);
    assert_eq!(s.max(), 3);
    assert_eq!(s.mean(), 2);
    assert_eq!(s.values(), &vec![1u64, 2, 3]);
    assert_eq!(h.count(), 6);
}

#[test]
fn reservoir_keeps_the_most_recent() {
    let mut h = Histogram::new();
    let n = 2000u64;
    for v in 0..n {
        h.update(v);
    }
    let s = h.snapshot();
    assert_eq!(s.size(), RESERVOIR_SIZE);
    assert_eq!(s.values()[0], n - RESERVOIR_SIZE as u64);
    assert_eq!(s.count(), n);
    assert_eq!(s.min(), 0);
    assert_eq!(s.max(), n - 1);
    assert_eq!(s.quantile(0), n - RESERVOIR_SIZE as u64);
}

#[test]
fn large_values_do_not_overflow_the_sum() {
    let mut h = Histogram::new();
    h.update(u64::MAX);
    h.update(u64::MAX);
    let s = h.snapshot();
    assert_eq!(s.sum(), 2 * (u64::MAX as u128));
    assert_eq!(s.mean(), u64::MAX as u128);
    assert_eq!(s.quantile(500), u64::MAX);
}
