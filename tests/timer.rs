use std::cell::Cell;

use metriki_core::timer::{Timer, TimerContextArc};

#[test]
fn test_drop_timer_context() {
    let mut timer = Timer::new(0);
    // traced block
    let t = timer.start(0);
    t.stop(&mut timer, 0);

    assert!(timer.rate().count() == 1);

    {
        let t = timer.start(0);
        t.stop(&mut timer, 10);
    }

    assert!(timer.rate().count() == 2);
}

#[test]
fn test_scoped_tiemr() {
    let mut timer = Timer::new(0);
    let now = Cell::new(0u64);
    let clock = || {
        let t = now.get();
        now.set(t + 10);
        t
    };

    timer.scoped(&clock, || {});
    assert!(timer.rate().count() == 1);
}

#[test]
fn session_started_and_stopped_records_once() {
    let mut timer = Timer::new(0);
    let ctx = timer.start(100);
    assert_eq!(ctx.start_at(), 100);
    ctx.stop(&mut timer, 112);
    assert_eq!(timer.rate().count(), 1);
    let snap = timer.latency();
    assert_eq!(snap.count(), 1);
    assert_eq!(snap.values(), &vec![12u64]);
}

#[test]
fn scoped_session_records_elapsed_time() {
    let mut timer = Timer::new(0);
    let now = Cell::new(1000u64);
    let clock = || {
        let t = now.get();
        now.set(t + 10);
        t
    };
    let r = timer.scoped(&clock, || 42u32);
    assert_eq!(r, 42);
    assert_eq!(timer.rate().count(), 1);
    let snap = timer.latency();
    assert_eq!(snap.count(), 1);
    assert!(snap.min() >= 10);
}

#[test]
fn scoped_session_with_early_exit_still_records() {
    let mut timer = Timer::new(0);
    let now = Cell::new(0u64);
    let clock = || {
        let t = now.get();
        now.set(t + 10);
        t
    };
    let r: Result<u32, u32> = timer.scoped(&clock, || {
        let failing: Result<u32, u32> = Err(7);
        let v = failing?;
        Ok(v + 1)
    });
    assert_eq!(r, Err(7));
    assert_eq!(timer.rate().count(), 1);
    assert_eq!(timer.latency().count(), 1);
    assert_eq!(timer.latency().max(), 10);
}

#[test]
fn detached_session_never_stopped_records_no_latency() {
    let mut timer = Timer::new(0);
    let ctx = TimerContextArc::start(&mut timer, 5);
    assert_eq!(ctx.start_at_time(), 5);
    assert_eq!(timer.rate().count(), 1);
    assert_eq!(timer.latency().count(), 0);
}

#[test]
fn detached_session_stopped_records_latency() {
    let mut timer = Timer::new(0);
    let ctx = TimerContextArc::start_at(&mut timer, 20, 25);
    ctx.stop(&mut timer, 50);
    assert_eq!(timer.rate().count(), 1);
    let snap = timer.latency();
    assert_eq!(snap.values(), &vec![30u64]);
}

#[test]
fn stop_before_start_records_zero() {
    let mut timer = Timer::new(0);
    let ctx = timer.start_at(50, 50);
    ctx.stop(&mut timer, 40);
    assert_eq!(timer.latency().values(), &vec![0u64]);
}

#[test]
fn timer_report_fields() {
    let mut timer = Timer::new(0);
    for (start, end) in [(0u64, 1u64), (0, 2), (0, 3), (0, 4), (0, 5)] {
        let ctx = timer.start(start);
        ctx.stop(&mut timer, end);
    }
    let r = timer.report(5000);
    assert_eq!(r.count, 5);
    assert_eq!(r.m1_rate, 1_000_000);
    assert_eq!(r.m5_rate, 1_000_000);
    assert_eq!(r.m15_rate, 1_000_000);
    assert_eq!(r.mean, 3);
    assert_eq!(r.min, 1);
    assert_eq!(r.max, 5);
    assert_eq!(r.p50, 3);
    assert_eq!(r.p75, 4);
    assert_eq!(r.p90, 4);
    assert_eq!(r.p99, 4);
    assert_eq!(r.p999, 4);
}
