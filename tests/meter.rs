use metriki_core::meter::{Meter, M1_ALPHA};

#[test]
fn count_is_exact_over_many_marks() {
    let mut m = Meter::new(123);
    let mut t: u64 = 0;
    for i in 0..1000u64 {
        m.mark(t);
        t += i % 7 * 1000;
    }
    assert_eq!(m.count(), 1000);
    assert_eq!(m.start_time(), 123);
}

#[test]
fn count_is_exact_with_marks_at_one_instant() {
    let mut m = Meter::new(0);
    for _ in 0..50 {
        m.mark(0);
    }
    assert_eq!(m.count(), 50);
}

#[test]
fn rates_are_zero_before_the_first_tick() {
    let mut m = Meter::new(0);
    m.mark(100);
    assert_eq!(m.m1_rate(4999), 0);
    assert_eq!(m.m5_rate(4999), 0);
    assert_eq!(m.m15_rate(4999), 0);
}

#[test]
fn first_tick_seeds_the_rates() {
    let mut m = Meter::new(0);
    m.mark(100);
    // one event in five seconds: 0.2 events per second
    assert_eq!(m.m1_rate(5000), 200_000);
    assert_eq!(m.m5_rate(5000), 200_000);
    assert_eq!(m.m15_rate(5000), 200_000);
}

#[test]
fn idle_tick_decays_the_rate() {
    let mut m = Meter::new(0);
    m.mark(100);
    assert_eq!(M1_ALPHA, 79_955_585);
    // 200000 - ceil(79955585 * 200000 / 10^9) = 200000 - 15992
    assert_eq!(m.m1_rate(10_000), 184_008);
}

#[test]
fn idle_meter_decays_to_zero() {
    let mut m = Meter::new(0);
    for _ in 0..100 {
        m.mark(0);
    }
    assert_eq!(m.m1_rate(5000), 20_000_000);
    let far = 5000 + 5000 * 200_000;
    assert_eq!(m.m1_rate(far), 0);
    assert_eq!(m.m5_rate(far), 0);
    assert_eq!(m.m15_rate(far), 0);
    assert_eq!(m.count(), 100);
}

#[test]
fn rising_rate_moves_towards_observed() {
    let mut m = Meter::new(0);
    m.mark(0);
    assert_eq!(m.m1_rate(5000), 200_000);
    for _ in 0..10 {
        m.mark(6000);
    }
    // instant rate 2_000_000; 200000 + floor(79955585 * 1800000 / 10^9)
    assert_eq!(m.m1_rate(10_000), 200_000 + 143_920);
}
