use vstd::prelude::*;
use crate::histogram::{Histogram, HistogramSnapshot, snapshot_matches};
use crate::meter::{Meter, MeterView};
use crate::timer::{Timer, TimerReport, TimerView, report_of};

verus! {

/// A counter that only goes up.
pub struct Counter {
    count: u64,
}

impl Counter {
    /// A counter at zero.
    pub fn new() -> (r: Counter)
        ensures
            r.value() == 0,
    {
        Counter { count: 0 }
    }

    pub closed spec fn value(&self) -> nat {
        self.count as nat
    }

    /// Adds `n`.
    pub fn inc(&mut self, n: u64)
        requires
            old(self).value() + n <= u64::MAX,
        ensures
            final(self).value() == old(self).value() + n,
    {
        self.count = self.count + n;
    }

    /// The current total.
    pub fn count(&self) -> (r: u64)
        ensures
            r == self.value(),
    {
        self.count
    }
}

/// A gauge: the last value it was set to.
pub struct Gauge {
    value: i64,
}

impl Gauge {
    /// A gauge at zero.
    pub fn new() -> (r: Gauge)
        ensures
            r.current() == 0,
    {
        Gauge { value: 0 }
    }

    pub closed spec fn current(&self) -> int {
        self.value as int
    }

    /// Sets the value.
    pub fn set(&mut self, v: i64)
        ensures
            final(self).current() == v,
    {
        self.value = v;
    }

    /// The value last set.
    pub fn value(&self) -> (r: i64)
        ensures
            r == self.current(),
    {
        self.value
    }
}

/// The kinds of metric a registry holds.
#[derive(PartialEq, Eq, Structural, Clone, Copy, Debug)]
pub enum MetricKind {
    Counter,
    Gauge,
    Meter,
    Histogram,
    Timer,
}

/// A metric of one of the kinds.
pub enum Metric {
    Counter(Counter),
    Gauge(Gauge),
    Meter(Meter),
    Histogram(Histogram),
    Timer(Timer),
}

impl Metric {
    pub open spec fn kind_spec(&self) -> MetricKind {
        match self {
            Metric::Counter(_) => MetricKind::Counter,
            Metric::Gauge(_) => MetricKind::Gauge,
            Metric::Meter(_) => MetricKind::Meter,
            Metric::Histogram(_) => MetricKind::Histogram,
            Metric::Timer(_) => MetricKind::Timer,
        }
    }

    /// The kind of this metric.
    pub fn kind(&self) -> (r: MetricKind)
        ensures
            r == self.kind_spec(),
    {
        match self {
            Metric::Counter(_) => MetricKind::Counter,
            Metric::Gauge(_) => MetricKind::Gauge,
            Metric::Meter(_) => MetricKind::Meter,
            Metric::Histogram(_) => MetricKind::Histogram,
            Metric::Timer(_) => MetricKind::Timer,
        }
    }

    pub open spec fn wf(&self) -> bool {
        match self {
            Metric::Meter(m) => m.wf(),
            Metric::Histogram(h) => h.wf(),
            Metric::Timer(t) => t.wf(),
            _ => true,
        }
    }

    /// A fresh metric of the given kind, created at wall-clock time
    /// `creation_time` (kept by meters and timers).
    pub fn create(kind: MetricKind, creation_time: u64) -> (r: Metric)
        ensures
            r.kind_spec() == kind,
            r.wf(),
            r.is_fresh(creation_time),
    {
        match kind {
            MetricKind::Counter => Metric::Counter(Counter::new()),
            MetricKind::Gauge => Metric::Gauge(Gauge::new()),
            MetricKind::Meter => Metric::Meter(Meter::new(creation_time)),
            MetricKind::Histogram => Metric::Histogram(Histogram::new()),
            MetricKind::Timer => Metric::Timer(Timer::new(creation_time)),
        }
    }

    /// Nothing has been recorded into the metric since its creation at
    /// `creation_time`.
    pub open spec fn is_fresh(&self, creation_time: u64) -> bool {
        match self {
            Metric::Counter(c) => c.value() == 0,
            Metric::Gauge(g) => g.current() == 0,
            Metric::Meter(m) => m@ == Meter::new_view(creation_time),
            Metric::Histogram(h) => h@ == Seq::<u64>::empty(),
            Metric::Timer(t) => t@.rate == Meter::new_view(creation_time) && t@.latency
                == Seq::<u64>::empty(),
        }
    }
}

/// The figures of a meter at one instant. Rates are in millionths of an event
/// per second.
#[derive(PartialEq, Eq, Structural, Clone, Copy, Debug)]
pub struct MeterReport {
    pub count: u64,
    pub m1_rate: u128,
    pub m5_rate: u128,
    pub m15_rate: u128,
}

/// The report of a meter whose view, caught up to the reporting instant, is `v`.
pub open spec fn meter_report_of(v: MeterView) -> MeterReport {
    MeterReport {
        count: v.count as u64,
        m1_rate: v.m1 as u128,
        m5_rate: v.m5 as u128,
        m15_rate: v.m15 as u128,
    }
}

/// The figures of one metric at one instant.
pub enum MetricSnapshot {
    Counter(u64),
    Gauge(i64),
    Meter(MeterReport),
    Histogram(HistogramSnapshot),
    Timer(TimerReport),
}

/// `s` is the snapshot of `before` at monotonic instant `now`, and `after` is
/// the metric once taking it has caught its rates up with `now`.
pub open spec fn snapshot_of(before: Metric, after: Metric, s: MetricSnapshot, now: u64) -> bool {
    match before {
        Metric::Counter(c) => after == before && s == MetricSnapshot::Counter(c.value() as u64),
        Metric::Gauge(g) => after == before && s == MetricSnapshot::Gauge(g.current() as i64),
        Metric::Meter(m) => match after {
            Metric::Meter(m2) => m2.wf() && m2@ == m@.caught_up(now as int) && s
                == MetricSnapshot::Meter(meter_report_of(m2@)),
            _ => false,
        },
        Metric::Histogram(h) => after == before && match s {
            MetricSnapshot::Histogram(hs) => snapshot_matches(hs@, h@),
            _ => false,
        },
        Metric::Timer(t) => match after {
            Metric::Timer(t2) => t2.wf() && t2@ == (TimerView {
                rate: t@.rate.caught_up(now as int),
                latency: t@.latency,
            }) && s == MetricSnapshot::Timer(report_of(t2@)),
            _ => false,
        },
    }
}

/// Takes the snapshot of one metric at monotonic instant `now`.
fn snapshot_metric(m: &mut Metric, now: u64) -> (s: MetricSnapshot)
    requires
        old(m).wf(),
    ensures
        final(m).wf(),
        snapshot_of(*old(m), *final(m), s, now),
{
    match m {
        Metric::Counter(c) => MetricSnapshot::Counter(c.count()),
        Metric::Gauge(g) => MetricSnapshot::Gauge(g.value()),
        Metric::Meter(mt) => {
            let ghost v = mt@;
            let m1_rate = mt.m1_rate(now);
            proof {
                crate::meter::lemma_caught_up_idempotent(v, now as int);
            }
            let m5_rate = mt.m5_rate(now);
            let m15_rate = mt.m15_rate(now);
            MetricSnapshot::Meter(MeterReport { count: mt.count(), m1_rate, m5_rate, m15_rate })
        },
        Metric::Histogram(h) => MetricSnapshot::Histogram(h.snapshot()),
        Metric::Timer(t) => MetricSnapshot::Timer(t.report(now)),
    }
}

/// A name is already bound to a metric of another kind.
#[derive(PartialEq, Eq, Structural, Clone, Copy, Debug)]
pub struct NameKindMismatch {
    /// The kind the name is bound to.
    pub existing: MetricKind,
    /// The kind that was asked for.
    pub requested: MetricKind,
}

/// The kinds bound to each name of a list of entries.
pub open spec fn kinds_of(entries: Seq<(Seq<char>, MetricKind)>) -> Map<Seq<char>, MetricKind> {
    Map::new(
        |n: Seq<char>| exists|i: int| 0 <= i < entries.len() && entries[i].0 == n,
        |n: Seq<char>|
            entries[choose|i: int| 0 <= i < entries.len() && entries[i].0 == n].1,
    )
}

/// A store of metrics by name, at most one per name.
pub struct MetricsRegistry {
    names: Vec<String>,
    metrics: Vec<Metric>,
}

impl MetricsRegistry {
    /// The names, in order of creation.
    pub closed spec fn names_spec(&self) -> Seq<Seq<char>> {
        self.names@.map_values(|s: String| s@)
    }

    /// The metrics, in the order of their names.
    pub closed spec fn metrics_spec(&self) -> Seq<Metric> {
        self.metrics@
    }

    pub closed spec fn wf(&self) -> bool {
        &&& self.names@.len() == self.metrics@.len()
        &&& forall|i: int, j: int|
            0 <= i < j < self.names@.len() ==> #[trigger] self.names@[i]@ != #[trigger] self.names@[j]@
        &&& forall|i: int| 0 <= i < self.metrics@.len() ==> #[trigger] self.metrics@[i].wf()
    }

    /// The position of `name`, if it is registered.
    pub open spec fn index_of(&self, name: Seq<char>) -> Option<int> {
        if exists|i: int| 0 <= i < self.names_spec().len() && self.names_spec()[i] == name {
            Some(choose|i: int| 0 <= i < self.names_spec().len() && self.names_spec()[i] == name)
        } else {
            None
        }
    }

    /// What get-or-create of `name` as `kind` does, from `self` to `after`
    /// with result `r`: an existing entry of that kind is handed back, one of
    /// another kind is an error, and a missing one is created at the end.
    /// Only the creation changes the registry.
    pub open spec fn get_or_create_post(
        &self,
        after: &MetricsRegistry,
        name: Seq<char>,
        kind: MetricKind,
        creation_time: u64,
        r: Result<usize, NameKindMismatch>,
    ) -> bool {
        match self.index_of(name) {
            Some(i) => {
                &&& after.names_spec() == self.names_spec()
                &&& after.metrics_spec() == self.metrics_spec()
                &&& if self.metrics_spec()[i].kind_spec() == kind {
                    r == Ok::<usize, NameKindMismatch>(i as usize)
                } else {
                    r == Err::<usize, NameKindMismatch>(
                        NameKindMismatch {
                            existing: self.metrics_spec()[i].kind_spec(),
                            requested: kind,
                        },
                    )
                }
            },
            None => {
                &&& r == Ok::<usize, NameKindMismatch>(self.names_spec().len() as usize)
                &&& after.names_spec() == self.names_spec().push(name)
                &&& after.metrics_spec().len() == self.metrics_spec().len() + 1
                &&& after.metrics_spec().drop_last() == self.metrics_spec()
                &&& after.metrics_spec().last().kind_spec() == kind
                &&& after.metrics_spec().last().is_fresh(creation_time)
            },
        }
    }

    /// An empty registry.
    pub fn new() -> (r: MetricsRegistry)
        ensures
            r.wf(),
            r.names_spec().len() == 0,
            r.metrics_spec().len() == 0,
    {
        let r = MetricsRegistry { names: Vec::new(), metrics: Vec::new() };
        assert(r.names_spec() =~= Seq::<Seq<char>>::empty());
        r
    }

    /// Number of registered metrics.
    pub fn len(&self) -> (r: usize)
        requires
            self.wf(),
        ensures
            r == self.names_spec().len(),
    {
        self.names.len()
    }

    fn get_or_create(&mut self, name: &str, kind: MetricKind, creation_time: u64) -> (r: Result<
        usize,
        NameKindMismatch,
    >)
        requires
            old(self).wf(),
            old(self).names_spec().len() < usize::MAX,
        ensures
            final(self).wf(),
            old(self).get_or_create_post(final(self), name@, kind, creation_time, r),
    {
        match self.find(name) {
            Some(i) => {
                proof {
                    let j = self.index_of(name@).unwrap();
                    assert(self.names_spec()[j] == name@);
                    assert(self.names_spec()[i as int] == self.names@[i as int]@);
                    assert(self.names_spec()[j] == self.names@[j]@);
                    assert(j == i);
                }
                let existing = self.metrics[i].kind();
                if existing == kind {
                    Ok(i)
                } else {
                    Err(NameKindMismatch { existing, requested: kind })
                }
            },
            None => {
                let ghost old_names = self.names_spec();
                let ghost old_metrics = self.metrics@;
                let n = self.names.len();
                self.names.push(name.to_owned());
                self.metrics.push(Metric::create(kind, creation_time));
                proof {
                    assert(self.names_spec() =~= old_names.push(name@));
                    assert(self.metrics@.drop_last() =~= old_metrics);
                    assert forall|i: int, j: int|
                        0 <= i < j < self.names@.len() implies #[trigger] self.names@[i]@
                        != #[trigger] self.names@[j]@ by {
                        if j == n {
                            assert(self.names_spec()[i] == old_names[i]);
                        }
                    }
                    assert forall|i: int| 0 <= i < self.metrics@.len() implies #[trigger] self.metrics@[i].wf() by {
                        if i < n {
                            assert(self.metrics@[i] == old_metrics[i]);
                        }
                    }
                }
                Ok(n)
            },
        }
    }

    /// The counter named `name`, created if missing.
    pub fn counter(&mut self, name: &str) -> (r: Result<usize, NameKindMismatch>)
        requires
            old(self).wf(),
            old(self).names_spec().len() < usize::MAX,
        ensures
            final(self).wf(),
            old(self).get_or_create_post(final(self), name@, MetricKind::Counter, 0, r),
    {
        self.get_or_create(name, MetricKind::Counter, 0)
    }

    /// The gauge named `name`, created if missing.
    pub fn gauge(&mut self, name: &str) -> (r: Result<usize, NameKindMismatch>)
        requires
            old(self).wf(),
            old(self).names_spec().len() < usize::MAX,
        ensures
            final(self).wf(),
            old(self).get_or_create_post(final(self), name@, MetricKind::Gauge, 0, r),
    {
        self.get_or_create(name, MetricKind::Gauge, 0)
    }

    /// The meter named `name`, created at wall-clock time `creation_time` if
    /// missing.
    pub fn meter(&mut self, name: &str, creation_time: u64) -> (r: Result<usize, NameKindMismatch>)
        requires
            old(self).wf(),
            old(self).names_spec().len() < usize::MAX,
        ensures
            final(self).wf(),
            old(self).get_or_create_post(final(self), name@, MetricKind::Meter, creation_time, r),
    {
        self.get_or_create(name, MetricKind::Meter, creation_time)
    }

    /// The histogram named `name`, created if missing.
    pub fn histogram(&mut self, name: &str) -> (r: Result<usize, NameKindMismatch>)
        requires
            old(self).wf(),
            old(self).names_spec().len() < usize::MAX,
        ensures
            final(self).wf(),
            old(self).get_or_create_post(final(self), name@, MetricKind::Histogram, 0, r),
    {
        self.get_or_create(name, MetricKind::Histogram, 0)
    }

    /// The timer named `name`, created at wall-clock time `creation_time` if
    /// missing.
    pub fn timer(&mut self, name: &str, creation_time: u64) -> (r: Result<usize, NameKindMismatch>)
        requires
            old(self).wf(),
            old(self).names_spec().len() < usize::MAX,
        ensures
            final(self).wf(),
            old(self).get_or_create_post(final(self), name@, MetricKind::Timer, creation_time, r),
    {
        self.get_or_create(name, MetricKind::Timer, creation_time)
    }

    /// Removes the metric named `name`, if there is one, and says whether there
    /// was. The metrics registered after it move down by one position.
    pub fn remove(&mut self, name: &str) -> (removed: bool)
        requires
            old(self).wf(),
        ensures
            final(self).wf(),
            removed == old(self).index_of(name@).is_some(),
            match old(self).index_of(name@) {
                Some(i) => final(self).names_spec() == old(self).names_spec().remove(i)
                    && final(self).metrics_spec() == old(self).metrics_spec().remove(i),
                None => final(self).names_spec() == old(self).names_spec()
                    && final(self).metrics_spec() == old(self).metrics_spec(),
            },
    {
        match self.find(name) {
            Some(i) => {
                proof {
                    let j = self.index_of(name@).unwrap();
                    assert(self.names_spec()[i as int] == self.names@[i as int]@);
                    assert(self.names_spec()[j] == self.names@[j]@);
                }
                let ghost old_names = self.names@;
                let ghost old_metrics = self.metrics@;
                self.names.remove(i);
                self.metrics.remove(i);
                proof {
                    assert(self.names_spec() =~= old_names.map_values(|s: String| s@).remove(
                        i as int,
                    ));
                    assert forall|a: int, b: int|
                        0 <= a < b < self.names@.len() implies #[trigger] self.names@[a]@
                        != #[trigger] self.names@[b]@ by {
                        let a0 = if a < i { a } else { a + 1 };
                        let b0 = if b < i { b } else { b + 1 };
                        assert(self.names@[a] == old_names[a0]);
                        assert(self.names@[b] == old_names[b0]);
                    }
                    assert forall|a: int| 0 <= a < self.metrics@.len() implies #[trigger] self.metrics@[a].wf() by {
                        let a0 = if a < i { a } else { a + 1 };
                        assert(self.metrics@[a] == old_metrics[a0]);
                    }
                }
                true
            },
            None => false,
        }
    }

    /// The name and snapshot of every metric at monotonic instant `now`, in
    /// order of position. Meters and timers catch their rates up with `now`.
    pub fn snapshots(&mut self, now: u64) -> (r: Vec<(String, MetricSnapshot)>)
        requires
            old(self).wf(),
        ensures
            final(self).wf(),
            final(self).names_spec() == old(self).names_spec(),
            final(self).metrics_spec().len() == old(self).metrics_spec().len(),
            r@.len() == old(self).names_spec().len(),
            forall|k: int|
                0 <= k < r@.len() ==> #[trigger] r@[k].0@ == old(self).names_spec()[k]
                    && snapshot_of(
                    old(self).metrics_spec()[k],
                    final(self).metrics_spec()[k],
                    r@[k].1,
                    now,
                ),
    {
        let ghost before = self.metrics@;
        let mut out: Vec<(String, MetricSnapshot)> = Vec::new();
        let n = self.metrics.len();
        let mut i: usize = 0;
        while i < n
            invariant
                0 <= i <= n,
                n == self.metrics@.len(),
                n == before.len(),
                self.names@.len() == n,
                self.names_spec() == old(self).names_spec(),
                before == old(self).metrics_spec(),
                out@.len() == i,
                forall|a: int, b: int|
                    0 <= a < b < self.names@.len() ==> #[trigger] self.names@[a]@
                        != #[trigger] self.names@[b]@,
                forall|k: int| 0 <= k < n ==> #[trigger] self.metrics@[k].wf(),
                forall|k: int| i <= k < n ==> #[trigger] self.metrics@[k] == before[k],
                forall|k: int|
                    0 <= k < i ==> #[trigger] out@[k].0@ == self.names_spec()[k] && snapshot_of(
                        before[k],
                        self.metrics@[k],
                        out@[k].1,
                        now,
                    ),
            decreases n - i,
        {
            let ghost prev = self.metrics@;
            let snap = snapshot_metric(&mut self.metrics[i], now);
            proof {
                assert(self.metrics@ == prev.update(i as int, self.metrics@[i as int]));
            }
            let name = self.names[i].clone();
            proof {
                assert(self.names_spec()[i as int] == self.names@[i as int]@);
            }
            out.push((name, snap));
            i = i + 1;
        }
        out
    }

    /// The metric at position `h`.
    pub fn metric(&self, h: usize) -> (r: &Metric)
        requires
            self.wf(),
            h < self.metrics_spec().len(),
        ensures
            *r == self.metrics_spec()[h as int],
            r.wf(),
    {
        &self.metrics[h]
    }

    /// The metric at position `h`, to record into. Its kind cannot change.
    pub fn metric_mut(&mut self, h: usize) -> (r: &mut Metric)
        requires
            old(self).wf(),
            h < old(self).metrics_spec().len(),
        ensures
            *r == old(self).metrics_spec()[h as int],
            r.wf(),
            final(self).names_spec() == old(self).names_spec(),
            final(self).metrics_spec() == old(self).metrics_spec().update(h as int, *final(r)),
            final(r).wf() ==> final(self).wf(),
    {
        &mut self.metrics[h]
    }

    /// The name at position `h`.
    pub fn name(&self, h: usize) -> (r: &String)
        requires
            self.wf(),
            h < self.names_spec().len(),
        ensures
            r@ == self.names_spec()[h as int],
    {
        &self.names[h]
    }

    /// The position of `name`, if it is registered.
    fn find(&self, name: &str) -> (r: Option<usize>)
        requires
            self.wf(),
        ensures
            r.is_none() ==> forall|i: int|
                0 <= i < self.names_spec().len() ==> self.names_spec()[i] != name@,
            r.is_some() ==> r.unwrap() < self.names_spec().len() && self.names_spec()[r.unwrap() as int]
                == name@,
    {
        let key = name.to_owned();
        let mut i: usize = 0;
        while i < self.names.len()
            invariant
                self.wf(),
                key@ == name@,
                0 <= i <= self.names@.len(),
                forall|k: int| 0 <= k < i ==> self.names@[k]@ != name@,
            decreases self.names@.len() - i,
        {
            if self.names[i] == key {
                return Some(i);
            }
            i = i + 1;
        }
        None
    }
}

/// Asking for a name that is bound to a metric of another kind fails and
/// leaves the registry as it was.
pub proof fn lemma_mismatch_leaves_registry(
    before: MetricsRegistry,
    after: MetricsRegistry,
    name: Seq<char>,
    kind: MetricKind,
    creation_time: u64,
    r: Result<usize, NameKindMismatch>,
)
    requires
        before.get_or_create_post(&after, name, kind, creation_time, r),
        before.index_of(name) is Some,
        before.metrics_spec()[before.index_of(name).unwrap()].kind_spec() != kind,
    ensures
        r is Err,
        r->Err_0.requested == kind,
        r->Err_0.existing == before.metrics_spec()[before.index_of(name).unwrap()].kind_spec(),
        after.names_spec() == before.names_spec(),
        after.metrics_spec() == before.metrics_spec(),
{
}

/// Two lookups of one name as one kind, the first of which creates it, hand
/// back the same metric: the second creates nothing.
pub proof fn lemma_single_instance(
    r0: MetricsRegistry,
    r1: MetricsRegistry,
    r2: MetricsRegistry,
    name: Seq<char>,
    kind: MetricKind,
    t1: u64,
    t2: u64,
    a: Result<usize, NameKindMismatch>,
    b: Result<usize, NameKindMismatch>,
)
    requires
        r1.wf(),
        r0.index_of(name) is None,
        r0.get_or_create_post(&r1, name, kind, t1, a),
        r1.get_or_create_post(&r2, name, kind, t2, b),
    ensures
        a is Ok,
        b == a,
        r2.names_spec() == r1.names_spec(),
        r2.metrics_spec() == r1.metrics_spec(),
{
    let n = r0.names_spec().len() as int;
    assert(r1.names_spec()[n] == name);
    let j = r1.index_of(name).unwrap();
    assert(r1.names_spec()[j] == r1.names@[j]@);
    assert(r1.names_spec()[n] == r1.names@[n]@);
    assert(j == n);
}

} // verus!
