use vstd::prelude::*;

verus! {

/// Length of one tick of the rate accumulators, in milliseconds.
pub const TICK_INTERVAL_MS: u64 = 5000;

/// Rates are reported in millionths of an event per second.
pub const RATE_SCALE: u128 = 1000000;

/// Rate (in millionths of an event per second) contributed by one event seen
/// within one tick: one event per five seconds.
pub const RATE_PER_EVENT: u128 = 200000;

/// Smoothing constants are fractions of this number.
pub const ALPHA_SCALE: u128 = 1000000000;

/// `1 - exp(-5 / 60)`, the smoothing constant of the one-minute window.
pub const M1_ALPHA: u128 = 79955585;

/// `1 - exp(-5 / 300)`, the smoothing constant of the five-minute window.
pub const M5_ALPHA: u128 = 16528546;

/// `1 - exp(-5 / 900)`, the smoothing constant of the fifteen-minute window.
pub const M15_ALPHA: u128 = 5540152;

/// Largest rate a tick can observe: every possible event within one tick.
pub const MAX_RATE: u128 = 18446744073709551615 * 200000;

/// One step of an exponentially weighted moving average on integers: the rate
/// moves towards `inst` by the fraction `alpha / ALPHA_SCALE` of the distance,
/// rounded towards `inst` when falling, so that an idle rate reaches zero.
pub open spec fn ewma_step(rate: int, inst: int, alpha: int) -> int {
    if inst >= rate {
        rate + (alpha * (inst - rate)) / (ALPHA_SCALE as int)
    } else {
        rate - (alpha * (rate - inst) + ALPHA_SCALE - 1) / (ALPHA_SCALE as int)
    }
}

/// What a meter holds, as mathematical values.
pub struct MeterView {
    pub count: nat,
    pub uncounted: nat,
    pub start_time: nat,
    pub last_tick: int,
    pub m1: int,
    pub m5: int,
    pub m15: int,
    pub initialized: bool,
}

impl MeterView {
    /// The state after the tick that starts at `last_tick` has elapsed.
    pub open spec fn tick(self) -> MeterView {
        let inst = self.uncounted * RATE_PER_EVENT;
        if self.initialized {
            MeterView {
                uncounted: 0,
                last_tick: self.last_tick + TICK_INTERVAL_MS,
                m1: ewma_step(self.m1, inst, M1_ALPHA as int),
                m5: ewma_step(self.m5, inst, M5_ALPHA as int),
                m15: ewma_step(self.m15, inst, M15_ALPHA as int),
                ..self
            }
        } else if self.uncounted > 0 {
            MeterView {
                uncounted: 0,
                last_tick: self.last_tick + TICK_INTERVAL_MS,
                m1: inst,
                m5: inst,
                m15: inst,
                initialized: true,
                ..self
            }
        } else {
            MeterView { last_tick: self.last_tick + TICK_INTERVAL_MS, ..self }
        }
    }

    /// The state after `k` ticks.
    pub open spec fn ticked(self, k: nat) -> MeterView
        decreases k,
    {
        if k == 0 {
            self
        } else {
            self.ticked((k - 1) as nat).tick()
        }
    }

    /// Number of whole ticks between `last_tick` and `now`.
    pub open spec fn ticks_until(self, now: int) -> nat {
        if now > self.last_tick {
            ((now - self.last_tick) / (TICK_INTERVAL_MS as int)) as nat
        } else {
            0
        }
    }

    /// The state once every tick that has elapsed by `now` is accounted for.
    pub open spec fn caught_up(self, now: int) -> MeterView {
        self.ticked(self.ticks_until(now))
    }

    /// The state after one event recorded at `now`.
    pub open spec fn marked(self, now: int) -> MeterView {
        let c = self.caught_up(now);
        MeterView { count: c.count + 1, uncounted: c.uncounted + 1, ..c }
    }

    /// The state after events recorded at each instant of `times`, in order.
    pub open spec fn marked_all(self, times: Seq<u64>) -> MeterView
        decreases times.len(),
    {
        if times.len() == 0 {
            self
        } else {
            self.marked_all(times.drop_last()).marked(times.last() as int)
        }
    }

    /// No event is waiting and every rate is already at rest.
    pub open spec fn quiescent(self) -> bool {
        &&& self.uncounted == 0
        &&& (!self.initialized || (self.m1 == 0 && self.m5 == 0 && self.m15 == 0))
    }
}

/// A rate meter: an exact count of events and three decaying estimates of the
/// number of events per second, over one, five and fifteen minutes.
pub struct Meter {
    count: u64,
    uncounted: u64,
    start_time: u64,
    last_tick: u64,
    m1: u128,
    m5: u128,
    m15: u128,
    initialized: bool,
}

impl View for Meter {
    type V = MeterView;

    closed spec fn view(&self) -> MeterView {
        MeterView {
            count: self.count as nat,
            uncounted: self.uncounted as nat,
            start_time: self.start_time as nat,
            last_tick: self.last_tick as int,
            m1: self.m1 as int,
            m5: self.m5 as int,
            m15: self.m15 as int,
            initialized: self.initialized,
        }
    }
}

/// A step of the moving average stays between the old rate and the observed one.
pub proof fn lemma_ewma_between(rate: int, inst: int, alpha: int)
    requires
        0 <= alpha <= ALPHA_SCALE,
    ensures
        inst >= rate ==> rate <= ewma_step(rate, inst, alpha) <= inst,
        inst < rate ==> inst <= ewma_step(rate, inst, alpha) <= rate,
{
    let s = ALPHA_SCALE as int;
    if inst >= rate {
        let d = inst - rate;
        assert(alpha * d <= s * d) by (nonlinear_arith)
            requires
                0 <= alpha <= s,
                d >= 0,
        ;
        assert((alpha * d) / s <= d) by (nonlinear_arith)
            requires
                alpha * d <= s * d,
                s > 0,
                alpha * d >= 0,
        ;
        assert(0 <= (alpha * d) / s) by (nonlinear_arith)
            requires
                alpha * d >= 0,
                s > 0,
        ;
    } else {
        let d = rate - inst;
        assert(alpha * d <= s * d) by (nonlinear_arith)
            requires
                0 <= alpha <= s,
                d >= 0,
        ;
        assert(0 <= alpha * d) by (nonlinear_arith)
            requires
                0 <= alpha,
                d >= 0,
        ;
        assert((alpha * d + s - 1) / s <= d) by (nonlinear_arith)
            requires
                alpha * d <= s * d,
                s > 0,
                alpha * d >= 0,
        ;
        assert(0 <= (alpha * d + s - 1) / s) by (nonlinear_arith)
            requires
                alpha * d >= 0,
                s > 0,
        ;
    }
}

/// `k` ticks move `last_tick` by `k` intervals and leave the count alone.
pub proof fn lemma_ticked_moves_tick(v: MeterView, k: nat)
    ensures
        v.ticked(k).last_tick == v.last_tick + k * TICK_INTERVAL_MS,
        v.ticked(k).count == v.count,
        v.ticked(k).start_time == v.start_time,
    decreases k,
{
    if k > 0 {
        lemma_ticked_moves_tick(v, (k - 1) as nat);
    }
}

/// Ticks compose: `i` ticks and then `j` more are `i + j` ticks.
pub proof fn lemma_ticked_add(v: MeterView, i: nat, j: nat)
    ensures
        v.ticked(i).ticked(j) == v.ticked(i + j),
    decreases j,
{
    if j > 0 {
        lemma_ticked_add(v, i, (j - 1) as nat);
        assert((i + j - 1) as nat == i + (j - 1) as nat);
    }
}

/// Catching up twice at the same instant is catching up once.
pub proof fn lemma_caught_up_idempotent(v: MeterView, now: int)
    ensures
        v.caught_up(now).caught_up(now) == v.caught_up(now),
{
    let k = v.ticks_until(now);
    lemma_ticked_moves_tick(v, k);
    let c = v.caught_up(now);
    if now > v.last_tick {
        let t = TICK_INTERVAL_MS as int;
        let d = now - v.last_tick;
        assert(d - k * t < t) by (nonlinear_arith)
            requires
                k == d / t,
                t > 0,
                d > 0,
        ;
    }
    assert(c.ticks_until(now) == 0);
}

/// On a meter at rest, ticks only move `last_tick`.
pub proof fn lemma_quiescent_ticked(v: MeterView, k: nat)
    requires
        v.quiescent(),
    ensures
        v.ticked(k) == (MeterView { last_tick: v.last_tick + k * TICK_INTERVAL_MS, ..v }),
    decreases k,
{
    if k > 0 {
        lemma_quiescent_ticked(v, (k - 1) as nat);
        let p = v.ticked((k - 1) as nat);
        assert(p.quiescent());
        if p.initialized {
            assert(ewma_step(0, 0, M1_ALPHA as int) == 0);
            assert(ewma_step(0, 0, M5_ALPHA as int) == 0);
            assert(ewma_step(0, 0, M15_ALPHA as int) == 0);
        }
        assert(p.last_tick + TICK_INTERVAL_MS == v.last_tick + k * TICK_INTERVAL_MS) by (nonlinear_arith)
            requires
                p.last_tick == v.last_tick + (k - 1) * TICK_INTERVAL_MS,
        ;
    }
}

impl Meter {
    /// Internal consistency: the waiting events are among those counted, and
    /// no rate exceeds what a tick can observe.
    pub closed spec fn wf(&self) -> bool {
        &&& self.uncounted <= self.count
        &&& self.m1 <= MAX_RATE
        &&& self.m5 <= MAX_RATE
        &&& self.m15 <= MAX_RATE
    }

    /// The state of a meter just created at wall-clock time `start_time`.
    pub open spec fn new_view(start_time: u64) -> MeterView {
        MeterView {
            count: 0,
            uncounted: 0,
            start_time: start_time as nat,
            last_tick: 0,
            m1: 0,
            m5: 0,
            m15: 0,
            initialized: false,
        }
    }

    /// A meter created at wall-clock time `start_time`, whose first tick starts
    /// at the origin of the monotonic clock.
    pub fn new(start_time: u64) -> (r: Meter)
        ensures
            r.wf(),
            r@ == Meter::new_view(start_time),
    {
        Meter {
            count: 0,
            uncounted: 0,
            start_time,
            last_tick: 0,
            m1: 0,
            m5: 0,
            m15: 0,
            initialized: false,
        }
    }

    fn is_quiescent(&self) -> (r: bool)
        ensures
            r == self@.quiescent(),
    {
        self.uncounted == 0 && (!self.initialized || (self.m1 == 0 && self.m5 == 0 && self.m15
            == 0))
    }

    fn tick(&mut self)
        requires
            old(self).wf(),
            old(self).last_tick + TICK_INTERVAL_MS <= u64::MAX,
        ensures
            final(self).wf(),
            final(self)@ == old(self)@.tick(),
    {
        let inst: u128 = self.uncounted as u128 * RATE_PER_EVENT;
        if self.initialized {
            proof {
                lemma_ewma_between(self.m1 as int, inst as int, M1_ALPHA as int);
                lemma_ewma_between(self.m5 as int, inst as int, M5_ALPHA as int);
                lemma_ewma_between(self.m15 as int, inst as int, M15_ALPHA as int);
            }
            self.m1 = ewma(self.m1, inst, M1_ALPHA);
            self.m5 = ewma(self.m5, inst, M5_ALPHA);
            self.m15 = ewma(self.m15, inst, M15_ALPHA);
            self.uncounted = 0;
        } else if self.uncounted > 0 {
            self.m1 = inst;
            self.m5 = inst;
            self.m15 = inst;
            self.initialized = true;
            self.uncounted = 0;
        }
        self.last_tick = self.last_tick + TICK_INTERVAL_MS;
    }

    /// Accounts for every tick that has elapsed by `now`.
    fn tick_if_necessary(&mut self, now: u64)
        requires
            old(self).wf(),
        ensures
            final(self).wf(),
            final(self)@ == old(self)@.caught_up(now as int),
    {
        let ghost start = self@;
        if now > self.last_tick {
            let k: u64 = (now - self.last_tick) / TICK_INTERVAL_MS;
            assert(k * TICK_INTERVAL_MS <= now - start.last_tick) by (nonlinear_arith)
                requires
                    k == (now - start.last_tick) / (TICK_INTERVAL_MS as int),
                    now - start.last_tick > 0,
            ;
            let mut i: u64 = 0;
            while i < k
                invariant
                    0 <= i <= k,
                    k == start.ticks_until(now as int),
                    k * TICK_INTERVAL_MS <= now - start.last_tick,
                    self.wf(),
                    self@ == start.ticked(i as nat),
                decreases k - i,
            {
                proof {
                    lemma_ticked_moves_tick(start, i as nat);
                    assert(i * TICK_INTERVAL_MS + TICK_INTERVAL_MS <= k * TICK_INTERVAL_MS)
                        by (nonlinear_arith)
                        requires
                            i < k,
                    ;
                }
                if self.is_quiescent() {
                    let rest: u64 = k - i;
                    proof {
                        lemma_quiescent_ticked(self@, rest as nat);
                        lemma_ticked_add(start, i as nat, rest as nat);
                        assert(i * TICK_INTERVAL_MS + rest * TICK_INTERVAL_MS == k
                            * TICK_INTERVAL_MS) by (nonlinear_arith)
                            requires
                                rest == k - i,
                        ;
                    }
                    self.last_tick = self.last_tick + rest * TICK_INTERVAL_MS;
                    i = k;
                } else {
                    self.tick();
                    i = i + 1;
                }
            }
        }
    }

    /// Records one event at monotonic instant `now`.
    pub fn mark(&mut self, now: u64)
        requires
            old(self).wf(),
            old(self)@.count < u64::MAX,
        ensures
            final(self).wf(),
            final(self)@ == old(self)@.marked(now as int),
    {
        self.tick_if_necessary(now);
        proof {
            lemma_ticked_moves_tick(old(self)@, old(self)@.ticks_until(now as int));
        }
        self.count = self.count + 1;
        self.uncounted = self.uncounted + 1;
    }

    /// Number of events recorded since creation.
    pub fn count(&self) -> (r: u64)
        ensures
            r == self@.count,
    {
        self.count
    }

    /// Wall-clock time at which the meter was created.
    pub fn start_time(&self) -> (r: u64)
        ensures
            r == self@.start_time,
    {
        self.start_time
    }

    /// One-minute rate at `now`, in millionths of an event per second.
    pub fn m1_rate(&mut self, now: u64) -> (r: u128)
        requires
            old(self).wf(),
        ensures
            final(self).wf(),
            final(self)@ == old(self)@.caught_up(now as int),
            r == final(self)@.m1,
    {
        self.tick_if_necessary(now);
        self.m1
    }

    /// Five-minute rate at `now`, in millionths of an event per second.
    pub fn m5_rate(&mut self, now: u64) -> (r: u128)
        requires
            old(self).wf(),
        ensures
            final(self).wf(),
            final(self)@ == old(self)@.caught_up(now as int),
            r == final(self)@.m5,
    {
        self.tick_if_necessary(now);
        self.m5
    }

    /// Fifteen-minute rate at `now`, in millionths of an event per second.
    pub fn m15_rate(&mut self, now: u64) -> (r: u128)
        requires
            old(self).wf(),
        ensures
            final(self).wf(),
            final(self)@ == old(self)@.caught_up(now as int),
            r == final(self)@.m15,
    {
        self.tick_if_necessary(now);
        self.m15
    }
}

/// One step of the moving average on machine integers.
fn ewma(rate: u128, inst: u128, alpha: u128) -> (r: u128)
    requires
        rate <= MAX_RATE,
        inst <= MAX_RATE,
        alpha <= ALPHA_SCALE,
    ensures
        r == ewma_step(rate as int, inst as int, alpha as int),
{
    if inst >= rate {
        assert(alpha * (inst - rate) <= ALPHA_SCALE * MAX_RATE) by (nonlinear_arith)
            requires
                alpha <= ALPHA_SCALE,
                inst - rate <= MAX_RATE,
                inst >= rate,
        ;
        rate + (alpha * (inst - rate)) / ALPHA_SCALE
    } else {
        assert(alpha * (rate - inst) <= ALPHA_SCALE * MAX_RATE) by (nonlinear_arith)
            requires
                alpha <= ALPHA_SCALE,
                rate - inst <= MAX_RATE,
                rate >= inst,
        ;
        proof {
            lemma_ewma_between(rate as int, inst as int, alpha as int);
        }
        rate - (alpha * (rate - inst) + ALPHA_SCALE - 1) / ALPHA_SCALE
    }
}

/// However the events are spread over time, a meter counts each of them
/// exactly once.
pub proof fn lemma_count_is_exact(v: MeterView, times: Seq<u64>)
    ensures
        v.marked_all(times).count == v.count + times.len(),
    decreases times.len(),
{
    if times.len() > 0 {
        let p = v.marked_all(times.drop_last());
        lemma_count_is_exact(v, times.drop_last());
        lemma_ticked_moves_tick(p, p.ticks_until(times.last() as int));
    }
}

} // verus!
