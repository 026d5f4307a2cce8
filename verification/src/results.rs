//! The record of one run and the samples it is made of.

use vstd::prelude::*;
use crate::stats::{
    lemma_statistics_within_bound, max_of, mean_of, min_of, percentile_of, scaled_ratio,
};
use crate::stats;

verus! {

/// Thousandths in which a throughput is counted, times the nanoseconds of a
/// second: a count of requests times this, over a window in nanoseconds, is
/// a rate in thousandths of a request per second.
pub const THROUGHPUT_SCALE: u64 = 1_000_000_000_000;

/// Hundredths of a percent in a whole.
pub const RATE_SCALE: u64 = 10_000;

/// One observed invocation of the operation.
#[derive(Clone, Copy, Debug, PartialEq, Eq)]
pub struct Sample {
    /// Elapsed wall-clock time of the invocation, in nanoseconds.
    pub latency: u128,
    /// Whether the invocation succeeded.
    pub success: bool,
}

/// Everything observed during one run.
///
/// `samples` are kept in the order in which they were collected. The two
/// time stamps bound the active window of the run, in nanoseconds on a
/// monotonic clock; they are unset until the run begins. `cpu_samples`
/// (hundredths of a percent) and `mem_samples` (bytes) are the readings
/// of the resource sampler, in sampling order.
#[derive(Clone, Debug, PartialEq, Eq)]
pub struct Results {
    pub samples: Vec<Sample>,
    pub start_time: Option<u128>,
    pub end_time: Option<u128>,
    pub cpu_samples: Vec<u32>,
    pub mem_samples: Vec<u64>,
}

/// What a [`Results`] holds, as mathematical sequences.
pub struct ResultsView {
    pub samples: Seq<Sample>,
    pub start_time: Option<u128>,
    pub end_time: Option<u128>,
    pub cpu_samples: Seq<u32>,
    pub mem_samples: Seq<u64>,
}

impl View for Results {
    type V = ResultsView;

    open spec fn view(&self) -> ResultsView {
        ResultsView {
            samples: self.samples@,
            start_time: self.start_time,
            end_time: self.end_time,
            cpu_samples: self.cpu_samples@,
            mem_samples: self.mem_samples@,
        }
    }
}

/// The figures reported at the end of a run.
///
/// Times are in nanoseconds, the throughput in thousandths of a request per
/// second, the error rate and the CPU load in hundredths of a percent,
/// memory in bytes.
#[derive(Clone, Copy, Debug, PartialEq, Eq)]
pub struct Summary {
    /// Length of the window.
    pub duration: u128,
    /// Samples collected, failed ones included.
    pub requests: usize,
    /// Successful requests per second.
    pub throughput: u128,
    /// Median successful latency.
    pub p50: u128,
    /// Successful latency at percent 90.
    pub p90: u128,
    /// Successful latency at percent 99.
    pub p99: u128,
    /// Mean successful latency.
    pub avg: u128,
    /// Smallest successful latency.
    pub min: u128,
    /// Largest successful latency.
    pub max: u128,
    /// Failed samples.
    pub errors: usize,
    /// Share of failed samples.
    pub error_rate: u32,
    /// Mean CPU load of the driving process.
    pub cpu_avg: u32,
    /// Mean resident memory of the driving process.
    pub mem_avg: u64,
    /// Largest resident memory of the driving process.
    pub mem_peak: u64,
}

/// The latencies of the successful samples, in the order of the samples.
pub open spec fn latencies_of(samples: Seq<Sample>) -> Seq<u128> {
    samples.filter(|s: Sample| s.success).map_values(|s: Sample| s.latency)
}

/// The number of successful samples.
pub open spec fn success_count_of(samples: Seq<Sample>) -> nat {
    samples.filter(|s: Sample| s.success).len()
}

/// The number of failed samples.
pub open spec fn error_count_of(samples: Seq<Sample>) -> nat {
    samples.filter(|s: Sample| !s.success).len()
}

impl ResultsView {
    /// The record of a run that has not begun.
    pub open spec fn empty() -> ResultsView {
        ResultsView {
            samples: Seq::empty(),
            start_time: None,
            end_time: None,
            cpu_samples: Seq::empty(),
            mem_samples: Seq::empty(),
        }
    }

    /// The window is well formed: the end is set only after the start, and
    /// does not precede it.
    pub open spec fn window_ordered(self) -> bool {
        match (self.start_time, self.end_time) {
            (Some(start), Some(end)) => start <= end,
            (None, Some(_)) => false,
            _ => true,
        }
    }

    /// The latencies of the successful samples, in the order of the samples.
    pub open spec fn latencies(self) -> Seq<u128> {
        latencies_of(self.samples)
    }

    /// The number of successful samples.
    pub open spec fn success_count(self) -> nat {
        success_count_of(self.samples)
    }

    /// The number of failed samples.
    pub open spec fn error_count(self) -> nat {
        error_count_of(self.samples)
    }

    /// The nearest-rank percentile `p` of the successful latencies.
    pub open spec fn percentile(self, p: nat) -> u128 {
        percentile_of(self.latencies(), p)
    }

    /// The mean of the successful latencies, rounded down.
    pub open spec fn avg_latency(self) -> nat {
        mean_of(self.latencies())
    }

    /// The smallest successful latency.
    pub open spec fn min_latency(self) -> u128 {
        min_of(self.latencies())
    }

    /// The largest successful latency.
    pub open spec fn max_latency(self) -> u128 {
        max_of(self.latencies())
    }

    /// The length of the window in nanoseconds: zero unless both ends are
    /// set and the end lies after the start.
    pub open spec fn window(self) -> nat {
        match (self.start_time, self.end_time) {
            (Some(start), Some(end)) => if end > start {
                (end - start) as nat
            } else {
                0
            },
            _ => 0,
        }
    }

    /// Successful requests per second, in thousandths, rounded down; zero
    /// where the window is empty or unset.
    pub open spec fn throughput(self) -> nat {
        scaled_ratio(self.success_count(), THROUGHPUT_SCALE as nat, self.window())
    }

    /// The share of failed samples, in hundredths of a percent, rounded
    /// down; zero where there are no samples.
    pub open spec fn error_rate(self) -> nat {
        scaled_ratio(self.error_count(), RATE_SCALE as nat, self.samples.len())
    }

    /// The mean CPU reading, rounded down; zero where there are none.
    pub open spec fn avg_cpu(self) -> nat {
        mean_of(self.cpu_samples.map_values(|x: u32| x as u128))
    }

    /// The mean memory reading, rounded down; zero where there are none.
    pub open spec fn avg_mem(self) -> nat {
        mean_of(self.mem_samples.map_values(|x: u64| x as u128))
    }

    /// The largest memory reading; zero where there are none.
    pub open spec fn peak_mem(self) -> nat {
        max_of(self.mem_samples.map_values(|x: u64| x as u128)) as nat
    }

    /// Everything that is reported of a run.
    pub open spec fn summary(self) -> Summary {
        Summary {
            duration: self.window() as u128,
            requests: self.samples.len() as usize,
            throughput: self.throughput() as u128,
            p50: self.percentile(50),
            p90: self.percentile(90),
            p99: self.percentile(99),
            avg: self.avg_latency() as u128,
            min: self.min_latency(),
            max: self.max_latency(),
            errors: self.error_count() as usize,
            error_rate: self.error_rate() as u32,
            cpu_avg: self.avg_cpu() as u32,
            mem_avg: self.avg_mem() as u64,
            mem_peak: self.peak_mem() as u64,
        }
    }
}

/// Every sample is either a success or an error, and none is both.
pub proof fn lemma_counts_partition(samples: Seq<Sample>)
    ensures
        success_count_of(samples) + error_count_of(samples) == samples.len(),
    decreases samples.len(),
{
    reveal(Seq::filter);
    if samples.len() > 0 {
        lemma_counts_partition(samples.drop_last());
    }
}

/// Without a successful sample every latency statistic is zero, and so is
/// the throughput.
pub proof fn lemma_no_success_all_zero(r: ResultsView)
    requires
        r.success_count() == 0,
    ensures
        forall|p: nat| r.percentile(p) == 0,
        r.avg_latency() == 0,
        r.min_latency() == 0,
        r.max_latency() == 0,
        r.throughput() == 0,
{
    assert(r.latencies().len() == 0);
    let window = r.window();
    if window > 0 {
        assert(0 * (THROUGHPUT_SCALE as nat) / window == 0) by (nonlinear_arith)
            requires
                window > 0,
        ;
    }
}

/// Of a record without samples every statistic of the samples is zero.
pub proof fn lemma_no_samples_all_zero(r: ResultsView)
    requires
        r.samples.len() == 0,
    ensures
        r.success_count() == 0,
        r.error_count() == 0,
        forall|p: nat| r.percentile(p) == 0,
        r.avg_latency() == 0,
        r.min_latency() == 0,
        r.max_latency() == 0,
        r.throughput() == 0,
        r.error_rate() == 0,
{
    lemma_counts_partition(r.samples);
    lemma_no_success_all_zero(r);
}

/// Where a sample succeeded, the percentile at 100 is the largest
/// successful latency.
pub proof fn lemma_percentile_100_is_max_latency(r: ResultsView)
    requires
        r.success_count() > 0,
    ensures
        r.percentile(100) == r.max_latency(),
{
    stats::lemma_percentile_100_is_max(r.latencies());
}

/// Over one set of samples a percentile does not decrease as the percent
/// grows.
pub proof fn lemma_percentile_monotonic(r: ResultsView, p: nat, q: nat)
    requires
        p <= q,
    ensures
        r.percentile(p) <= r.percentile(q),
{
    stats::lemma_percentile_monotonic(r.latencies(), p, q);
}

/// The statistics are functions of what the record holds and of nothing
/// else: two records with the same contents have the same statistics, so
/// computing them again on a record that has not changed gives the same.
pub proof fn lemma_statistics_depend_on_contents_only(a: Results, b: Results, p: nat)
    requires
        a.samples@ == b.samples@,
        a.start_time == b.start_time,
        a.end_time == b.end_time,
        a.cpu_samples@ == b.cpu_samples@,
        a.mem_samples@ == b.mem_samples@,
    ensures
        a@.summary() == b@.summary(),
        a@.percentile(p) == b@.percentile(p),
        a@.latencies() == b@.latencies(),
{
}

/// Only successful samples count towards the throughput: where every
/// sample failed, the errors are all the samples and the throughput is
/// zero.
pub proof fn lemma_all_failed(r: ResultsView)
    requires
        forall|i: int| 0 <= i < r.samples.len() ==> !(#[trigger] r.samples[i]).success,
    ensures
        r.error_count() == r.samples.len(),
        r.success_count() == 0,
        r.throughput() == 0,
    decreases r.samples.len(),
{
    reveal(Seq::filter);
    if r.samples.len() > 0 {
        let rest = ResultsView { samples: r.samples.drop_last(), ..r };
        assert forall|i: int| 0 <= i < rest.samples.len() implies !(
        #[trigger] rest.samples[i]).success by {
            assert(rest.samples[i] == r.samples[i]);
        }
        lemma_all_failed(rest);
        assert(!r.samples[r.samples.len() - 1].success);
    }
    lemma_counts_partition(r.samples);
    let window = r.window();
    if window > 0 {
        assert(0 * (THROUGHPUT_SCALE as nat) / window == 0) by (nonlinear_arith)
            requires
                window > 0,
        ;
    }
}

/// A latency is among the successful ones as often as there are successful
/// samples with it.
pub proof fn lemma_latencies_count(samples: Seq<Sample>, latency: u128)
    ensures
        latencies_of(samples).to_multiset().count(latency) == samples.to_multiset().count(
            Sample { latency, success: true },
        ),
    decreases samples.len(),
{
    let wanted = Sample { latency, success: true };
    let succeeded = |s: Sample| s.success;
    let latency_of = |s: Sample| s.latency;
    if samples.len() == 0 {
        reveal(Seq::filter);
        samples.to_multiset_ensures();
        latencies_of(samples).to_multiset_ensures();
        assert(samples.to_multiset().len() == 0);
        assert(latencies_of(samples).to_multiset().len() == 0);
    } else {
        let rest = samples.drop_last();
        let last = samples.last();
        lemma_latencies_count(rest, latency);
        assert(samples == rest.push(last));
        rest.lemma_filter_push(last, succeeded);
        rest.filter(succeeded).lemma_push_map_commute(latency_of, last);
        rest.to_multiset_ensures();
        latencies_of(rest).to_multiset_ensures();
        assert(samples.to_multiset() == rest.to_multiset().insert(last));
        if last.success {
            assert(latencies_of(samples) == latencies_of(rest).push(last.latency));
            assert(latencies_of(samples).to_multiset() == latencies_of(rest).to_multiset().insert(
                last.latency,
            ));
            assert(last.latency == latency <==> last == wanted);
        } else {
            assert(latencies_of(samples) == latencies_of(rest));
            assert(last != wanted);
        }
    }
}

/// The statistics do not depend on the order in which the samples
/// arrived: two records with the same samples, each as often in the one as
/// in the other, and the same window and readings, have the same statistics.
pub proof fn lemma_statistics_ignore_arrival_order(a: ResultsView, b: ResultsView)
    requires
        a.samples.to_multiset() == b.samples.to_multiset(),
        a.start_time == b.start_time,
        a.end_time == b.end_time,
        a.cpu_samples == b.cpu_samples,
        a.mem_samples == b.mem_samples,
    ensures
        a.success_count() == b.success_count(),
        a.error_count() == b.error_count(),
        forall|p: nat| a.percentile(p) == b.percentile(p),
        a.summary() == b.summary(),
{
    let x = a.latencies();
    let y = b.latencies();
    assert(x.to_multiset() =~= y.to_multiset()) by {
        assert forall|latency: u128|
            x.to_multiset().count(latency) == y.to_multiset().count(latency) by {
            lemma_latencies_count(a.samples, latency);
            lemma_latencies_count(b.samples, latency);
        }
    }
    stats::lemma_statistics_ignore_order(x, y);
    a.samples.to_multiset_ensures();
    b.samples.to_multiset_ensures();
    lemma_counts_partition(a.samples);
    lemma_counts_partition(b.samples);
}

impl Default for Results {
    fn default() -> (r: Results)
        ensures
            r@ == ResultsView::empty(),
    {
        Results {
            samples: Vec::new(),
            start_time: None,
            end_time: None,
            cpu_samples: Vec::new(),
            mem_samples: Vec::new(),
        }
    }
}

impl Results {
    /// An empty record: no samples, no readings, both time stamps unset.
    pub fn new() -> (r: Results)
        ensures
            r@ == ResultsView::empty(),
    {
        Results {
            samples: Vec::new(),
            start_time: None,
            end_time: None,
            cpu_samples: Vec::new(),
            mem_samples: Vec::new(),
        }
    }

    /// Appends one sample; nothing else changes.
    pub fn add_sample(&mut self, sample: Sample)
        ensures
            final(self)@ == (ResultsView {
                samples: old(self)@.samples.push(sample),
                ..old(self)@
            }),
    {
        self.samples.push(sample);
    }

    /// The number of successful samples.
    pub fn success_count(&self) -> (n: usize)
        ensures
            n == self@.success_count(),
            n + self@.error_count() == self@.samples.len(),
    {
        let mut n: usize = 0;
        let mut i: usize = 0;
        while i < self.samples.len()
            invariant
                i <= self.samples@.len(),
                n == success_count_of(self.samples@.take(i as int)),
                n <= i,
            decreases self.samples@.len() - i,
        {
            proof {
                let next = self.samples@.take(i as int + 1);
                assert(next == self.samples@.take(i as int).push(self.samples@[i as int]));
                self.samples@.take(i as int).lemma_filter_push(
                    self.samples@[i as int],
                    |s: Sample| s.success,
                );
            }
            if self.samples[i].success {
                n = n + 1;
            }
            i = i + 1;
        }
        proof {
            assert(self.samples@.take(i as int) == self.samples@);
            lemma_counts_partition(self.samples@);
        }
        n
    }

    /// The number of failed samples.
    pub fn error_count(&self) -> (n: usize)
        ensures
            n == self@.error_count(),
            self@.success_count() + n == self@.samples.len(),
    {
        let mut n: usize = 0;
        let mut i: usize = 0;
        while i < self.samples.len()
            invariant
                i <= self.samples@.len(),
                n == error_count_of(self.samples@.take(i as int)),
                n <= i,
            decreases self.samples@.len() - i,
        {
            proof {
                let next = self.samples@.take(i as int + 1);
                assert(next == self.samples@.take(i as int).push(self.samples@[i as int]));
                self.samples@.take(i as int).lemma_filter_push(
                    self.samples@[i as int],
                    |s: Sample| !s.success,
                );
            }
            if !self.samples[i].success {
                n = n + 1;
            }
            i = i + 1;
        }
        proof {
            assert(self.samples@.take(i as int) == self.samples@);
            lemma_counts_partition(self.samples@);
        }
        n
    }

    /// The latencies of the successful samples, in the order of the samples.
    pub fn latencies(&self) -> (v: Vec<u128>)
        ensures
            v@ == self@.latencies(),
    {
        let mut v: Vec<u128> = Vec::new();
        let mut i: usize = 0;
        while i < self.samples.len()
            invariant
                i <= self.samples@.len(),
                v@ == latencies_of(self.samples@.take(i as int)),
            decreases self.samples@.len() - i,
        {
            proof {
                let seen = self.samples@.take(i as int);
                let s = self.samples@[i as int];
                assert(self.samples@.take(i as int + 1) == seen.push(s));
                seen.lemma_filter_push(s, |s: Sample| s.success);
                seen.filter(|s: Sample| s.success).lemma_push_map_commute(
                    |s: Sample| s.latency,
                    s,
                );
            }
            if self.samples[i].success {
                v.push(self.samples[i].latency);
            }
            i = i + 1;
        }
        proof {
            assert(self.samples@.take(i as int) == self.samples@);
        }
        v
    }
    /// The nearest-rank percentile `p` of the successful latencies: the
    /// one at index `p * n / 100`, rounded down and no further than the
    /// last, of the `n` latencies in ascending order. Zero where no sample
    /// succeeded.
    pub fn percentile(&self, p: u32) -> (value: u128)
        ensures
            value == self@.percentile(p as nat),
    {
        stats::percentile(self.latencies(), p)
    }

    /// The mean of the successful latencies, rounded down; zero where no
    /// sample succeeded.
    pub fn avg_latency(&self) -> (value: u128)
        ensures
            value == self@.avg_latency(),
    {
        let latencies = self.latencies();
        stats::mean(&latencies)
    }

    /// The smallest successful latency; zero where no sample succeeded.
    pub fn min_latency(&self) -> (value: u128)
        ensures
            value == self@.min_latency(),
    {
        let latencies = self.latencies();
        stats::minimum(&latencies)
    }

    /// The largest successful latency; zero where no sample succeeded.
    pub fn max_latency(&self) -> (value: u128)
        ensures
            value == self@.max_latency(),
    {
        let latencies = self.latencies();
        stats::maximum(&latencies)
    }

    /// The length of the window in nanoseconds: zero unless both ends are
    /// set and the end lies after the start.
    pub fn window(&self) -> (value: u128)
        ensures
            value == self@.window(),
    {
        match (self.start_time, self.end_time) {
            (Some(start), Some(end)) => if end > start {
                end - start
            } else {
                0
            },
            _ => 0,
        }
    }

    /// Successful requests per second, in thousandths, rounded down; zero
    /// where the window is empty or unset.
    pub fn throughput(&self) -> (value: u128)
        ensures
            value == self@.throughput(),
    {
        stats::ratio(self.success_count(), THROUGHPUT_SCALE, self.window())
    }

    /// The share of failed samples, in hundredths of a percent, rounded
    /// down; zero where there are no samples.
    pub fn error_rate(&self) -> (value: u32)
        ensures
            value == self@.error_rate(),
            value <= RATE_SCALE,
    {
        let errors = self.error_count();
        let total = self.samples.len();
        let rate = stats::ratio(errors, RATE_SCALE, total as u128);
        assert(rate <= RATE_SCALE) by (nonlinear_arith)
            requires
                rate == scaled_ratio(errors as nat, RATE_SCALE as nat, total as nat),
                errors <= total,
        ;
        rate as u32
    }

    /// The mean CPU reading, rounded down; zero where there are none.
    pub fn avg_cpu(&self) -> (value: u32)
        ensures
            value == self@.avg_cpu(),
    {
        let wide = stats::widen(&self.cpu_samples);
        proof {
            assert(wide@ == self.cpu_samples@.map_values(|x: u32| x as u128));
            lemma_statistics_within_bound(wide@, u32::MAX as u128);
        }
        stats::mean(&wide) as u32
    }

    /// The memory readings, each in 128 bits, and none beyond 64.
    fn wide_mem(&self) -> (wide: Vec<u128>)
        ensures
            wide@ == self.mem_samples@.map_values(|x: u64| x as u128),
            mean_of(wide@) <= u64::MAX,
            max_of(wide@) <= u64::MAX,
    {
        let wide = stats::widen(&self.mem_samples);
        proof {
            assert(wide@ == self.mem_samples@.map_values(|x: u64| x as u128));
            lemma_statistics_within_bound(wide@, u64::MAX as u128);
        }
        wide
    }

    /// The mean memory reading, rounded down; zero where there are none.
    pub fn avg_mem(&self) -> (value: u64)
        ensures
            value == self@.avg_mem(),
    {
        let wide = self.wide_mem();
        stats::mean(&wide) as u64
    }

    /// The largest memory reading; zero where there are none.
    pub fn peak_mem(&self) -> (value: u64)
        ensures
            value == self@.peak_mem(),
    {
        let wide = self.wide_mem();
        stats::maximum(&wide) as u64
    }

    /// Everything that is reported of a run.
    pub fn summary(&self) -> (summary: Summary)
        ensures
            summary == self@.summary(),
    {
        Summary {
            duration: self.window(),
            requests: self.samples.len(),
            throughput: self.throughput(),
            p50: self.percentile(50),
            p90: self.percentile(90),
            p99: self.percentile(99),
            avg: self.avg_latency(),
            min: self.min_latency(),
            max: self.max_latency(),
            errors: self.error_count(),
            error_rate: self.error_rate(),
            cpu_avg: self.avg_cpu(),
            mem_avg: self.avg_mem(),
            mem_peak: self.peak_mem(),
        }
    }
}

} // verus!