use std::collections::VecDeque;
use vstd::prelude::*;

verus! {

/// Number of samples the reservoir keeps.
pub const RESERVOIR_SIZE: usize = 1028;

/// Quantiles are given in thousandths: `500` is the median.
pub const QUANTILE_SCALE: u64 = 1000;

/// Sum of a sequence of observations.
pub open spec fn seq_sum(s: Seq<u64>) -> int
    decreases s.len(),
{
    if s.len() == 0 {
        0
    } else {
        seq_sum(s.drop_last()) + s.last()
    }
}

/// Smallest observation of a non-empty sequence, `0` for an empty one.
pub open spec fn seq_min(s: Seq<u64>) -> u64
    decreases s.len(),
{
    if s.len() == 0 {
        0
    } else if s.len() == 1 {
        s[0]
    } else {
        let m = seq_min(s.drop_last());
        if s.last() < m {
            s.last()
        } else {
            m
        }
    }
}

/// Largest observation of a sequence, `0` for an empty one.
pub open spec fn seq_max(s: Seq<u64>) -> u64
    decreases s.len(),
{
    if s.len() == 0 {
        0
    } else {
        let m = seq_max(s.drop_last());
        if s.last() > m {
            s.last()
        } else {
            m
        }
    }
}

/// The observations that the reservoir keeps: the most recent ones, up to
/// its capacity.
pub open spec fn retained(h: Seq<u64>) -> Seq<u64> {
    if h.len() <= RESERVOIR_SIZE {
        h
    } else {
        h.subrange(h.len() - RESERVOIR_SIZE, h.len() as int)
    }
}

/// The sequence is in ascending order.
pub open spec fn sorted(s: Seq<u64>) -> bool {
    forall|i: int, j: int| 0 <= i <= j < s.len() ==> s[i] <= s[j]
}

/// The order in which snapshots list their values.
pub open spec fn ascending() -> spec_fn(u64, u64) -> bool {
    |a: u64, b: u64| a <= b
}

/// The retained observations of `h`, in ascending order.
pub open spec fn sorted_retained(h: Seq<u64>) -> Seq<u64> {
    retained(h).sort_by(ascending())
}

/// An ascending sequence holding the retained observations is the one
/// `sorted_retained` names.
proof fn lemma_sorted_retained(s: Seq<u64>, h: Seq<u64>)
    requires
        sorted(s),
        s.to_multiset() == retained(h).to_multiset(),
    ensures
        s == sorted_retained(h),
{
    let leq = ascending();
    assert(vstd::relations::total_ordering(leq));
    retained(h).lemma_sort_by_ensures(leq);
    assert(vstd::relations::sorted_by(s, leq));
    vstd::seq_lib::lemma_sorted_unique(s, sorted_retained(h), leq);
}

/// Integer mean, rounded down; `0` when nothing was observed.
pub open spec fn mean_of(count: int, sum: int) -> int {
    if count == 0 {
        0
    } else {
        sum / count
    }
}

/// The quantile `q` (in thousandths) of ascending `values`: linear
/// interpolation at rank `q * (n - 1)`, rounded down; `0` when empty.
pub open spec fn quantile_of(values: Seq<u64>, q: int) -> int {
    let n = values.len();
    if n == 0 {
        0
    } else {
        let pos = q * (n - 1);
        let lo = pos / (QUANTILE_SCALE as int);
        let frac = pos % (QUANTILE_SCALE as int);
        if lo + 1 < n {
            values[lo] + ((values[lo + 1] - values[lo]) * frac) / (QUANTILE_SCALE as int)
        } else {
            values[lo] as int
        }
    }
}

/// A histogram: exact count, sum and extrema of every observation, and a
/// reservoir of the most recent ones for quantiles.
pub struct Histogram {
    samples: VecDeque<u64>,
    count: u64,
    sum: u128,
    min: u64,
    max: u64,
    history: Ghost<Seq<u64>>,
}

impl View for Histogram {
    type V = Seq<u64>;

    /// Every observation, in the order of arrival.
    closed spec fn view(&self) -> Seq<u64> {
        self.history@
    }
}

/// What a snapshot holds, as mathematical values.
pub struct SnapshotView {
    pub values: Seq<u64>,
    pub count: nat,
    pub sum: int,
    pub min: int,
    pub max: int,
}

/// The snapshot of a histogram that has seen the observations `h`: the
/// retained ones in ascending order, and exact statistics over all of them.
pub open spec fn snapshot_matches(s: SnapshotView, h: Seq<u64>) -> bool {
    &&& s.values == sorted_retained(h)
    &&& s.count == h.len()
    &&& s.sum == seq_sum(h)
    &&& s.min == seq_min(h)
    &&& s.max == seq_max(h)
}

proof fn lemma_sum_bound(s: Seq<u64>)
    ensures
        0 <= seq_sum(s) <= s.len() * (u64::MAX as int),
    decreases s.len(),
{
    if s.len() > 0 {
        lemma_sum_bound(s.drop_last());
    }
}

impl Histogram {
    pub closed spec fn wf(&self) -> bool {
        &&& self.count == self.history@.len()
        &&& self.sum == seq_sum(self.history@)
        &&& self.min == seq_min(self.history@)
        &&& self.max == seq_max(self.history@)
        &&& self.samples@ == retained(self.history@)
    }

    /// An empty histogram.
    pub fn new() -> (r: Histogram)
        ensures
            r.wf(),
            r@ == Seq::<u64>::empty(),
    {
        Histogram {
            samples: VecDeque::new(),
            count: 0,
            sum: 0,
            min: 0,
            max: 0,
            history: Ghost(Seq::empty()),
        }
    }

    /// Records one observation.
    pub fn update(&mut self, value: u64)
        requires
            old(self).wf(),
            old(self)@.len() < u64::MAX,
        ensures
            final(self).wf(),
            final(self)@ == old(self)@.push(value),
    {
        let ghost h = self.history@;
        let ghost h2 = h.push(value);
        proof {
            lemma_sum_bound(h);
            assert(h.len() * (u64::MAX as int) + u64::MAX <= u128::MAX) by (nonlinear_arith)
                requires
                    h.len() < u64::MAX,
            ;
            assert(h2.drop_last() == h);
        }
        if self.count == 0 || value < self.min {
            self.min = value;
        }
        if self.count == 0 || value > self.max {
            self.max = value;
        }
        self.sum = self.sum + value as u128;
        self.count = self.count + 1;
        if self.samples.len() >= RESERVOIR_SIZE {
            self.samples.pop_front();
        }
        self.samples.push_back(value);
        self.history = Ghost(h2);
        assert(self.samples@ =~= retained(h2));
    }

    /// Number of observations so far.
    pub fn count(&self) -> (r: u64)
        requires
            self.wf(),
        ensures
            r == self@.len(),
    {
        self.count
    }

    /// An independent copy of the current statistics and retained samples.
    pub fn snapshot(&self) -> (s: HistogramSnapshot)
        requires
            self.wf(),
        ensures
            snapshot_matches(s@, self@),
    {
        let mut values: Vec<u64> = Vec::new();
        let n = self.samples.len();
        let mut i: usize = 0;
        assert(values@ =~= self.samples@.subrange(0, 0));
        while i < n
            invariant
                self.wf(),
                n == self.samples@.len(),
                0 <= i <= n,
                sorted(values@),
                values@.to_multiset() == self.samples@.subrange(0, i as int).to_multiset(),
            decreases n - i,
        {
            let x = self.samples[i];
            insert_sorted(&mut values, x);
            proof {
                let s = self.samples@;
                assert(s.subrange(0, i + 1) =~= s.subrange(0, i as int).push(x));
                vstd::seq_lib::to_multiset_build(s.subrange(0, i as int), x);
            }
            i = i + 1;
        }
        assert(self.samples@.subrange(0, n as int) =~= self.samples@);
        proof {
            lemma_sorted_retained(values@, self.history@);
        }
        HistogramSnapshot { values, count: self.count, sum: self.sum, min: self.min, max: self.max }
    }
}

/// Inserts `x` into ascending `v`, after the elements not greater than it.
fn insert_sorted(v: &mut Vec<u64>, x: u64)
    requires
        sorted(old(v)@),
    ensures
        sorted(final(v)@),
        final(v)@.to_multiset() == old(v)@.to_multiset().insert(x),
{
    let mut j: usize = 0;
    while j < v.len() && v[j] <= x
        invariant
            0 <= j <= v@.len(),
            forall|k: int| 0 <= k < j ==> v@[k] <= x,
        decreases v@.len() - j,
    {
        j = j + 1;
    }
    let ghost before = v@;
    v.insert(j, x);
    proof {
        vstd::seq_lib::to_multiset_insert(before, j as int, x);
        assert forall|a: int, b: int| 0 <= a <= b < v@.len() implies v@[a] <= v@[b] by {
            if b < j {
                assert(v@[a] == before[a]);
                assert(v@[b] == before[b]);
            } else if b == j {
                if a < j {
                    assert(v@[a] == before[a]);
                }
            } else {
                assert(v@[b] == before[b - 1]);
                if a < j {
                    assert(v@[a] == before[a]);
                } else if a > j {
                    assert(v@[a] == before[a - 1]);
                } else {
                    if b - 1 >= j && j < before.len() {
                        assert(before[j as int] > x);
                    }
                }
            }
        }
    }
}

/// A point-in-time copy of a histogram. Later updates of the histogram do not
/// reach it: it owns its values.
pub struct HistogramSnapshot {
    values: Vec<u64>,
    count: u64,
    sum: u128,
    min: u64,
    max: u64,
}

impl View for HistogramSnapshot {
    type V = SnapshotView;

    closed spec fn view(&self) -> SnapshotView {
        SnapshotView {
            values: self.values@,
            count: self.count as nat,
            sum: self.sum as int,
            min: self.min as int,
            max: self.max as int,
        }
    }
}

impl HistogramSnapshot {
    /// The values of a snapshot stay in ascending order.
    #[verifier::type_invariant]
    closed spec fn inv(&self) -> bool {
        sorted(self.values@)
    }

    /// Number of observations the histogram had seen.
    pub fn count(&self) -> (r: u64)
        ensures
            r == self@.count,
    {
        self.count
    }

    /// Sum of every observation.
    pub fn sum(&self) -> (r: u128)
        ensures
            r == self@.sum,
    {
        self.sum
    }

    /// Smallest observation, `0` when there was none.
    pub fn min(&self) -> (r: u64)
        ensures
            r == self@.min,
    {
        self.min
    }

    /// Largest observation, `0` when there was none.
    pub fn max(&self) -> (r: u64)
        ensures
            r == self@.max,
    {
        self.max
    }

    /// Mean of every observation, rounded down; `0` when there was none.
    pub fn mean(&self) -> (r: u128)
        ensures
            r == mean_of(self@.count as int, self@.sum),
    {
        if self.count == 0 {
            0
        } else {
            self.sum / (self.count as u128)
        }
    }

    /// The retained observations, in ascending order.
    pub fn values(&self) -> (r: &Vec<u64>)
        ensures
            r@ == self@.values,
    {
        &self.values
    }

    /// Number of retained observations.
    pub fn size(&self) -> (r: usize)
        ensures
            r == self@.values.len(),
    {
        self.values.len()
    }

    /// The quantile `q` of the retained observations, `q` in thousandths.
    pub fn quantile(&self, q: u64) -> (r: u64)
        requires
            q <= QUANTILE_SCALE,
        ensures
            r == quantile_of(self@.values, q as int),
    {
        proof {
            use_type_invariant(self);
        }
        let n = self.values.len();
        if n == 0 {
            return 0;
        }
        assert(q * (n - 1) <= QUANTILE_SCALE * (n - 1)) by (nonlinear_arith)
            requires
                q <= QUANTILE_SCALE,
                n >= 1,
        ;
        let pos: u128 = q as u128 * ((n - 1) as u128);
        let lo: u128 = pos / (QUANTILE_SCALE as u128);
        let frac: u128 = pos % (QUANTILE_SCALE as u128);
        assert(lo <= n - 1) by (nonlinear_arith)
            requires
                pos <= QUANTILE_SCALE * (n - 1),
                lo as int == pos as int / (QUANTILE_SCALE as int),
        ;
        let lo = lo as usize;
        if lo + 1 < n {
            let a = self.values[lo];
            let b = self.values[lo + 1];
            assert(a <= b);
            assert((b - a) * frac <= u64::MAX * QUANTILE_SCALE) by (nonlinear_arith)
                requires
                    frac < QUANTILE_SCALE,
                    b >= a,
                    b - a <= u64::MAX,
            ;
            let d: u128 = ((b - a) as u128 * frac) / (QUANTILE_SCALE as u128);
            assert(d <= b - a) by (nonlinear_arith)
                requires
                    d as int == ((b - a) * frac) as int / (QUANTILE_SCALE as int),
                    frac < QUANTILE_SCALE,
                    b >= a,
            ;
            a + d as u64
        } else {
            self.values[lo]
        }
    }
}

} // verus!
