use vstd::prelude::*;
use crate::histogram::{
    Histogram, HistogramSnapshot, mean_of, quantile_of, seq_max, seq_min, seq_sum,
    snapshot_matches, sorted_retained,
};
use crate::meter::{Meter, MeterView};

verus! {

/// Milliseconds from `start` to `end`; `0` when `end` comes first.
pub open spec fn elapsed_ms(start: u64, end: u64) -> u64 {
    if end >= start {
        (end - start) as u64
    } else {
        0
    }
}

/// What a timer holds: its rate meter and every latency it recorded.
pub struct TimerView {
    pub rate: MeterView,
    pub latency: Seq<u64>,
}

impl TimerView {
    /// The state after a session starts at monotonic instant `now`.
    pub open spec fn started(self, now: u64) -> TimerView {
        TimerView { rate: self.rate.marked(now as int), ..self }
    }

    /// The state after a session that began at `start_at` completes at `now`.
    pub open spec fn completed(self, start_at: u64, now: u64) -> TimerView {
        TimerView { latency: self.latency.push(elapsed_ms(start_at, now)), ..self }
    }

    /// Room is left for one more session.
    pub open spec fn has_room(self) -> bool {
        self.rate.count < u64::MAX && self.latency.len() < u64::MAX
    }
}

/// A timer: the rate at which sessions start and the distribution of their
/// latencies, in milliseconds.
pub struct Timer {
    rate: Meter,
    latency: Histogram,
}

impl View for Timer {
    type V = TimerView;

    closed spec fn view(&self) -> TimerView {
        TimerView { rate: self.rate@, latency: self.latency@ }
    }
}

/// The figures of a timer at one instant, in the order in which reporters
/// list them. Rates are in millionths of an event per second, latencies in
/// milliseconds, quantiles interpolated over the retained latencies.
pub struct TimerReport {
    pub count: u64,
    pub m1_rate: u128,
    pub m5_rate: u128,
    pub m15_rate: u128,
    pub mean: u128,
    pub max: u64,
    pub min: u64,
    pub p50: u64,
    pub p75: u64,
    pub p90: u64,
    pub p99: u64,
    pub p999: u64,
}

/// The report of a timer whose view, caught up to the reporting instant, is `t`.
pub open spec fn report_of(t: TimerView) -> TimerReport {
    let h = t.latency;
    let v = sorted_retained(h);
    TimerReport {
        count: t.rate.count as u64,
        m1_rate: t.rate.m1 as u128,
        m5_rate: t.rate.m5 as u128,
        m15_rate: t.rate.m15 as u128,
        mean: mean_of(h.len() as int, seq_sum(h)) as u128,
        max: seq_max(h),
        min: seq_min(h),
        p50: quantile_of(v, 500) as u64,
        p75: quantile_of(v, 750) as u64,
        p90: quantile_of(v, 900) as u64,
        p99: quantile_of(v, 990) as u64,
        p999: quantile_of(v, 999) as u64,
    }
}

/// A session bound to the scope that started it. It is completed once, by
/// `stop`, which consumes it.
pub struct TimerContext {
    start_at: u64,
}

/// A session that may travel to another thread or task. It records its
/// latency only when `stop` is called; a session never stopped leaves the
/// rate counted and no latency.
pub struct TimerContextArc {
    start_at: u64,
}

impl View for TimerContext {
    type V = u64;

    /// The monotonic instant at which the session began.
    closed spec fn view(&self) -> u64 {
        self.start_at
    }
}

impl View for TimerContextArc {
    type V = u64;

    /// The monotonic instant at which the session began.
    closed spec fn view(&self) -> u64 {
        self.start_at
    }
}

fn elapsed(start: u64, end: u64) -> (r: u64)
    ensures
        r == elapsed_ms(start, end),
{
    if end >= start {
        end - start
    } else {
        0
    }
}

impl Timer {
    pub closed spec fn wf(&self) -> bool {
        self.rate.wf() && self.latency.wf()
    }

    /// A timer created at wall-clock time `start_time`.
    pub fn new(start_time: u64) -> (r: Timer)
        ensures
            r.wf(),
            r@.rate == Meter::new_view(start_time),
            r@.latency == Seq::<u64>::empty(),
    {
        Timer { rate: Meter::new(start_time), latency: Histogram::new() }
    }

    /// Starts a session at monotonic instant `now`, marking the rate.
    pub fn start(&mut self, now: u64) -> (ctx: TimerContext)
        requires
            old(self).wf(),
            old(self)@.has_room(),
        ensures
            final(self).wf(),
            final(self)@ == old(self)@.started(now),
            ctx@ == now,
    {
        self.start_at(now, now)
    }

    /// Starts a session that began at `start_at`; the rate is marked at `now`.
    pub fn start_at(&mut self, start_at: u64, now: u64) -> (ctx: TimerContext)
        requires
            old(self).wf(),
            old(self)@.has_room(),
        ensures
            final(self).wf(),
            final(self)@ == old(self)@.started(now),
            ctx@ == start_at,
    {
        self.rate.mark(now);
        TimerContext { start_at }
    }

    fn record(&mut self, start_at: u64, now: u64)
        requires
            old(self).wf(),
            old(self)@.latency.len() < u64::MAX,
        ensures
            final(self).wf(),
            final(self)@ == old(self)@.completed(start_at, now),
    {
        let ms = elapsed(start_at, now);
        self.latency.update(ms);
    }

    /// Runs `f` as one session whose start and end are read from `clock`, and
    /// returns what `f` returned. The latency is recorded on every return of
    /// `f`.
    pub fn scoped<C, F, R>(&mut self, clock: &C, f: F) -> (r: R) where
        C: Fn() -> u64,
        F: FnOnce() -> R,

        requires
            old(self).wf(),
            old(self)@.has_room(),
            clock.requires(()),
            f.requires(()),
        ensures
            final(self).wf(),
            f.ensures((), r),
            exists|t0: u64, t1: u64|
                clock.ensures((), t0) && clock.ensures((), t1) && final(self)@ == old(
                    self,
                )@.started(t0).completed(t0, t1),
    {
        let t0 = clock();
        let ctx = self.start(t0);
        let result = f();
        let t1 = clock();
        ctx.stop(self, t1);
        result
    }

    /// The rate meter.
    pub fn rate(&self) -> (r: &Meter)
        ensures
            r@ == self@.rate,
    {
        &self.rate
    }

    /// The figures of the timer at monotonic instant `now`; the rates catch up
    /// with the ticks elapsed by then.
    pub fn report(&mut self, now: u64) -> (r: TimerReport)
        requires
            old(self).wf(),
        ensures
            final(self).wf(),
            final(self)@ == (TimerView {
                rate: old(self)@.rate.caught_up(now as int),
                latency: old(self)@.latency,
            }),
            r == report_of(final(self)@),
    {
        let m1_rate = self.rate.m1_rate(now);
        proof {
            crate::meter::lemma_caught_up_idempotent(old(self)@.rate, now as int);
        }
        let m5_rate = self.rate.m5_rate(now);
        let m15_rate = self.rate.m15_rate(now);
        let snap = self.latency.snapshot();
        TimerReport {
            count: self.rate.count(),
            m1_rate,
            m5_rate,
            m15_rate,
            mean: snap.mean(),
            max: snap.max(),
            min: snap.min(),
            p50: snap.quantile(500),
            p75: snap.quantile(750),
            p90: snap.quantile(900),
            p99: snap.quantile(990),
            p999: snap.quantile(999),
        }
    }

    /// Number of latencies recorded.
    pub fn latency_count(&self) -> (r: u64)
        requires
            self.wf(),
        ensures
            r == self@.latency.len(),
    {
        self.latency.count()
    }

    /// A snapshot of the latency distribution.
    pub fn latency(&self) -> (s: HistogramSnapshot)
        requires
            self.wf(),
        ensures
            snapshot_matches(s@, self@.latency),
    {
        self.latency.snapshot()
    }
}

impl TimerContext {
    /// Monotonic instant at which the session began.
    pub fn start_at(&self) -> (r: u64)
        ensures
            r == self@,
    {
        self.start_at
    }

    /// Completes the session at `now`, recording its latency into `timer`.
    pub fn stop(self, timer: &mut Timer, now: u64)
        requires
            old(timer).wf(),
            old(timer)@.latency.len() < u64::MAX,
        ensures
            final(timer).wf(),
            final(timer)@ == old(timer)@.completed(self@, now),
    {
        timer.record(self.start_at, now);
    }
}

impl TimerContextArc {
    /// Monotonic instant at which the session began.
    pub fn start_at_time(&self) -> (r: u64)
        ensures
            r == self@,
    {
        self.start_at
    }

    /// Starts a detached session on `timer` at monotonic instant `now`.
    pub fn start(timer: &mut Timer, now: u64) -> (ctx: TimerContextArc)
        requires
            old(timer).wf(),
            old(timer)@.has_room(),
        ensures
            final(timer).wf(),
            final(timer)@ == old(timer)@.started(now),
            ctx@ == now,
    {
        TimerContextArc::start_at(timer, now, now)
    }

    /// Starts a detached session that began at `start_at`; the rate is marked
    /// at `now`.
    pub fn start_at(timer: &mut Timer, start_at: u64, now: u64) -> (ctx: TimerContextArc)
        requires
            old(timer).wf(),
            old(timer)@.has_room(),
        ensures
            final(timer).wf(),
            final(timer)@ == old(timer)@.started(now),
            ctx@ == start_at,
    {
        timer.rate.mark(now);
        TimerContextArc { start_at }
    }

    /// Completes the session at `now`, recording its latency into `timer`.
    pub fn stop(&self, timer: &mut Timer, now: u64)
        requires
            old(timer).wf(),
            old(timer)@.latency.len() < u64::MAX,
        ensures
            final(timer).wf(),
            final(timer)@ == old(timer)@.completed(self@, now),
    {
        timer.record(self.start_at, now);
    }
}

/// A session that is started and then completed once counts one start and
/// records one latency, the time from its start to its completion.
pub proof fn lemma_session_records_once(t: TimerView, start_at: u64, now: u64, end: u64)
    ensures
        t.started(now).completed(start_at, end).rate.count == t.rate.count + 1,
        t.started(now).completed(start_at, end).latency.len() == t.latency.len() + 1,
        t.started(now).completed(start_at, end).latency.last() == elapsed_ms(start_at, end),
        end >= start_at ==> t.started(now).completed(start_at, end).latency.last() == end
            - start_at,
{
    crate::meter::lemma_ticked_moves_tick(t.rate, t.rate.ticks_until(now as int));
}

/// A session that is started and never completed counts one start and
/// records no latency.
pub proof fn lemma_unfinished_session(t: TimerView, now: u64)
    ensures
        t.started(now).rate.count == t.rate.count + 1,
        t.started(now).latency == t.latency,
{
    crate::meter::lemma_ticked_moves_tick(t.rate, t.rate.ticks_until(now as int));
}

} // verus!
