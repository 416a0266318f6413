//! Latency statistics that the invoker keeps over the requests it served.

use vstd::prelude::*;

verus! {

/// The sum of the samples.
pub open spec fn sum(s: Seq<u128>) -> nat
    decreases s.len(),
{
    if s.len() == 0 {
        0
    } else {
        sum(s.drop_last()) + (s.last() as nat)
    }
}

/// The largest sample, 0 when there is none.
pub open spec fn running_max(s: Seq<u128>) -> u128
    decreases s.len(),
{
    if s.len() == 0 {
        0
    } else {
        let m = running_max(s.drop_last());
        if s.last() > m { s.last() } else { m }
    }
}

/// The tracked minimum: 0 stands for "none yet", so a sample replaces it
/// when it is smaller or when the minimum is still 0.
pub open spec fn running_min(s: Seq<u128>) -> u128
    decreases s.len(),
{
    if s.len() == 0 {
        0
    } else {
        let m = running_min(s.drop_last());
        if s.last() < m || m == 0 { s.last() } else { m }
    }
}

/// Count, total, largest and smallest latency of the requests served so
/// far, in microseconds.
#[derive(Debug, Clone, Copy)]
pub struct LatencyStats {
    pub count: i32,
    pub total: u128,
    pub max: u128,
    pub min: u128,
}

impl LatencyStats {
    /// Whether these statistics are those of the given samples, in order.
    pub open spec fn summarizes(self, samples: Seq<u128>) -> bool {
        &&& self.count == samples.len()
        &&& self.total == sum(samples)
        &&& self.max == running_max(samples)
        &&& self.min == running_min(samples)
    }

    /// No request served yet.
    pub fn new() -> (s: LatencyStats)
        ensures
            s.summarizes(Seq::<u128>::empty()),
            s.count == 0 && s.total == 0 && s.max == 0 && s.min == 0,
    {
        LatencyStats { count: 0, total: 0, max: 0, min: 0 }
    }

    /// Takes one more request's latency into account.
    pub fn record(&mut self, latency: u128)
        requires
            old(self).count < i32::MAX,
            old(self).total + latency <= u128::MAX,
        ensures
            final(self).count == old(self).count + 1,
            final(self).total == old(self).total + latency,
            final(self).max == if latency > old(self).max { latency } else { old(self).max },
            final(self).min == if latency < old(self).min || old(self).min == 0 {
                latency
            } else {
                old(self).min
            },
            forall|samples: Seq<u128>|
                old(self).summarizes(samples) ==> #[trigger] final(self).summarizes(samples.push(latency)),
    {
        self.count = self.count + 1;
        self.total = self.total + latency;
        if latency > self.max {
            self.max = latency;
        }
        if latency < self.min || self.min == 0 {
            self.min = latency;
        }
        assert forall|samples: Seq<u128>|
            old(self).summarizes(samples) implies #[trigger] self.summarizes(samples.push(latency)) by {
            assert(samples.push(latency).drop_last() =~= samples);
        }
    }

    /// The mean latency, rounded down.
    pub fn average(&self) -> (a: u128)
        requires
            self.count > 0,
        ensures
            a == self.total / (self.count as u128),
    {
        self.total / (self.count as u128)
    }
}

/// The tracked maximum is at least every sample, and is one of them when
/// there is one.
pub proof fn lemma_max_is_largest(stats: LatencyStats, samples: Seq<u128>)
    requires
        stats.summarizes(samples),
    ensures
        forall|i: int| 0 <= i < samples.len() ==> samples[i] <= stats.max,
        samples.len() > 0 ==> samples.contains(stats.max),
    decreases samples.len(),
{
    if samples.len() > 0 {
        let prev = samples.drop_last();
        let ps = LatencyStats {
            count: (stats.count - 1) as i32,
            total: (stats.total - samples.last()) as u128,
            max: running_max(prev),
            min: running_min(prev),
        };
        lemma_max_is_largest(ps, prev);
        assert forall|i: int| 0 <= i < samples.len() implies samples[i] <= stats.max by {
            if i < samples.len() - 1 {
                assert(samples[i] == prev[i]);
            }
        }
        if stats.max == samples.last() {
            assert(samples[samples.len() - 1] == stats.max);
        } else {
            let j = choose|j: int| 0 <= j < prev.len() && prev[j] == stats.max;
            assert(samples[j] == stats.max);
        }
    }
}

/// When every latency is positive, the tracked minimum is the true
/// minimum: at most every sample, and one of them when there is one.
pub proof fn lemma_min_is_smallest(stats: LatencyStats, samples: Seq<u128>)
    requires
        stats.summarizes(samples),
        forall|i: int| 0 <= i < samples.len() ==> samples[i] > 0,
    ensures
        forall|i: int| 0 <= i < samples.len() ==> stats.min <= samples[i],
        samples.len() > 0 ==> samples.contains(stats.min) && stats.min > 0,
    decreases samples.len(),
{
    if samples.len() > 0 {
        let prev = samples.drop_last();
        let ps = LatencyStats {
            count: (stats.count - 1) as i32,
            total: (stats.total - samples.last()) as u128,
            max: running_max(prev),
            min: running_min(prev),
        };
        assert forall|i: int| 0 <= i < prev.len() implies prev[i] > 0 by {
            assert(prev[i] == samples[i]);
        }
        lemma_min_is_smallest(ps, prev);
        assert(prev.len() == 0 ==> running_min(prev) == 0);
        assert forall|i: int| 0 <= i < samples.len() implies stats.min <= samples[i] by {
            if i < samples.len() - 1 {
                assert(samples[i] == prev[i]);
            }
        }
        if stats.min == samples.last() {
            assert(samples[samples.len() - 1] == stats.min);
        } else {
            let j = choose|j: int| 0 <= j < prev.len() && prev[j] == stats.min;
            assert(samples[j] == stats.min);
        }
    }
}

proof fn lemma_sum_bounds(samples: Seq<u128>, lo: u128, hi: u128)
    requires
        forall|i: int| 0 <= i < samples.len() ==> lo <= #[trigger] samples[i] <= hi,
    ensures
        samples.len() * lo <= sum(samples) <= samples.len() * hi,
    decreases samples.len(),
{
    if samples.len() > 0 {
        let prev = samples.drop_last();
        assert forall|i: int| 0 <= i < prev.len() implies lo <= #[trigger] prev[i] <= hi by {
            assert(prev[i] == samples[i]);
        }
        lemma_sum_bounds(prev, lo, hi);
        assert(lo <= samples[samples.len() - 1] <= hi);
        assert(samples.len() * lo == prev.len() * lo + lo) by (nonlinear_arith)
            requires samples.len() == prev.len() + 1;
        assert(samples.len() * hi == prev.len() * hi + hi) by (nonlinear_arith)
            requires samples.len() == prev.len() + 1;
    }
}

/// When every latency is positive, the mean lies between the tracked
/// minimum and the tracked maximum.
pub proof fn lemma_average_between(stats: LatencyStats, samples: Seq<u128>)
    requires
        stats.summarizes(samples),
        samples.len() > 0,
        forall|i: int| 0 <= i < samples.len() ==> samples[i] > 0,
    ensures
        stats.min <= stats.total / (stats.count as u128) <= stats.max,
{
    lemma_min_is_smallest(stats, samples);
    lemma_max_is_largest(stats, samples);
    lemma_sum_bounds(samples, stats.min, stats.max);
    let n = samples.len();
    let t = stats.total as int;
    assert(stats.count as u128 == n);
    assert(n * stats.min <= t <= n * stats.max);
    assert(stats.min <= t / (n as int) <= stats.max) by (nonlinear_arith)
        requires n > 0, n * stats.min <= t, t <= n * stats.max;
}

/// What a round reports after the requests with latencies `samples` (all
/// positive) were recorded one by one from `new()`: the request number is
/// the number of samples, the average is their sum divided by their
/// number, and the minimum and maximum are the smallest and largest
/// sample.
pub proof fn lemma_round_report(stats: LatencyStats, samples: Seq<u128>)
    requires
        stats.summarizes(samples),
        samples.len() > 0,
        forall|i: int| 0 <= i < samples.len() ==> samples[i] > 0,
    ensures
        stats.count == samples.len(),
        stats.total / (stats.count as u128) == sum(samples) / samples.len(),
        forall|i: int| 0 <= i < samples.len() ==> stats.min <= #[trigger] samples[i] && samples[i] <= stats.max,
        samples.contains(stats.min),
        samples.contains(stats.max),
        stats.min <= stats.total / (stats.count as u128) <= stats.max,
{
    lemma_min_is_smallest(stats, samples);
    lemma_max_is_largest(stats, samples);
    lemma_average_between(stats, samples);
}

} // verus!
