use metriki_core::registry::{Metric, MetricKind, MetricSnapshot, MetricsRegistry, NameKindMismatch};

#[test]
fn lookup_twice_gives_the_same_metric() {
    let mut r = MetricsRegistry::new();
    let a = r.timer("t", 1).unwrap();
    let b = r.timer("t", 2).unwrap();
    assert_eq!(a, b);
    assert_eq!(r.len(), 1);
}

#[test]
fn mismatched_kind_fails_and_keeps_entry() {
    let mut r = MetricsRegistry::new();
    let h = r.histogram("x").unwrap();
    if let Metric::Histogram(hist) = r.metric_mut(h) {
        hist.update(7);
    }
    let e = r.timer("x", 0);
    assert_eq!(
        e,
        Err(NameKindMismatch { existing: MetricKind::Histogram, requested: MetricKind::Timer })
    );
    assert_eq!(r.len(), 1);
    match r.metric(h) {
        Metric::Histogram(hist) => assert_eq!(hist.count(), 1),
        _ => panic!("kind changed"),
    }
    assert_eq!(r.meter("x", 0), Err(NameKindMismatch {
        existing: MetricKind::Histogram,
        requested: MetricKind::Meter,
    }));
    assert!(r.counter("x").is_err());
    assert!(r.gauge("x").is_err());
}

#[test]
fn remove_entry_and_absent_name() {
    let mut r = MetricsRegistry::new();
    r.counter("a").unwrap();
    r.gauge("b").unwrap();
    assert!(r.remove("a"));
    assert!(!r.remove("a"));
    assert_eq!(r.len(), 1);
    assert_eq!(r.name(0), "b");
    assert_eq!(r.metric(0).kind(), MetricKind::Gauge);
    // the name is free again, for any kind
    assert_eq!(r.meter("a", 0), Ok(1));
}

#[test]
fn snapshots_of_every_kind() {
    let mut r = MetricsRegistry::new();
    let c = r.counter("c").unwrap();
    let g = r.gauge("g").unwrap();
    let m = r.meter("m", 0).unwrap();
    let h = r.histogram("h").unwrap();
    let t = r.timer("t", 0).unwrap();
    if let Metric::Counter(x) = r.metric_mut(c) {
        x.inc(3);
    }
    if let Metric::Gauge(x) = r.metric_mut(g) {
        x.set(-4);
    }
    if let Metric::Meter(x) = r.metric_mut(m) {
        x.mark(0);
    }
    if let Metric::Histogram(x) = r.metric_mut(h) {
        x.update(9);
    }
    if let Metric::Timer(x) = r.metric_mut(t) {
        let ctx = x.start(0);
        ctx.stop(x, 8);
    }
    let snaps = r.snapshots(5000);
    assert_eq!(snaps.len(), 5);
    let names: Vec<&str> = snaps.iter().map(|(n, _)| n.as_str()).collect();
    assert_eq!(names, vec!["c", "g", "m", "h", "t"]);
    match &snaps[0].1 {
        MetricSnapshot::Counter(v) => assert_eq!(*v, 3),
        _ => panic!("counter expected"),
    }
    match &snaps[1].1 {
        MetricSnapshot::Gauge(v) => assert_eq!(*v, -4),
        _ => panic!("gauge expected"),
    }
    match &snaps[2].1 {
        MetricSnapshot::Meter(v) => {
            assert_eq!(v.count, 1);
            assert_eq!(v.m1_rate, 200_000);
        }
        _ => panic!("meter expected"),
    }
    match &snaps[3].1 {
        MetricSnapshot::Histogram(s) => assert_eq!(s.values(), &vec![9u64]),
        _ => panic!("histogram expected"),
    }
    match &snaps[4].1 {
        MetricSnapshot::Timer(v) => {
            assert_eq!(v.count, 1);
            assert_eq!(v.max, 8);
            assert_eq!(v.p50, 8);
        }
        _ => panic!("timer expected"),
    }
}
