use benchmark_client::results::{Results, Sample, Summary};
use benchmark_client::stats::{maximum, mean, minimum, percentile, ratio};

fn ms(n: u128) -> u128 {
    n * 1_000_000
}

fn record(samples: Vec<Sample>) -> Results {
    Results { samples, start_time: None, end_time: None, cpu_samples: vec![], mem_samples: vec![] }
}

fn ok(latency: u128) -> Sample {
    Sample { latency, success: true }
}

fn failed(latency: u128) -> Sample {
    Sample { latency, success: false }
}

fn mixed() -> Results {
    let mut r = record(vec![
        ok(ms(30)),
        failed(ms(500)),
        ok(ms(10)),
        ok(ms(20)),
        failed(ms(1)),
        ok(ms(40)),
    ]);
    r.start_time = Some(1_000);
    r.end_time = Some(1_000 + 2_000_000_000);
    r.cpu_samples = vec![1250, 1500, 1751];
    r.mem_samples = vec![10 * 1024 * 1024, 30 * 1024 * 1024, 20 * 1024 * 1024 + 1];
    r
}

#[test]
fn counts_add_up_to_the_number_of_samples() {
    let r = mixed();
    assert_eq!(r.success_count(), 4);
    assert_eq!(r.error_count(), 2);
    assert_eq!(r.success_count() + r.error_count(), r.samples.len());
    let none = Results::new();
    assert_eq!(none.success_count() + none.error_count(), 0);
    let all_failed = record(vec![failed(1), failed(2), failed(3)]);
    assert_eq!(all_failed.success_count(), 0);
    assert_eq!(all_failed.error_count(), 3);
}

#[test]
fn add_sample_appends_in_arrival_order() {
    let mut r = Results::new();
    r.add_sample(ok(3));
    r.add_sample(failed(1));
    r.add_sample(ok(2));
    assert_eq!(r.samples, vec![ok(3), failed(1), ok(2)]);
    assert_eq!(r.start_time, None);
    assert_eq!(r.end_time, None);
    assert!(r.cpu_samples.is_empty());
    assert!(r.mem_samples.is_empty());
}

#[test]
fn new_and_default_records_are_empty() {
    let r = Results::new();
    assert_eq!(r, Results::default());
    assert!(r.samples.is_empty());
    assert_eq!(r.start_time, None);
    assert_eq!(r.end_time, None);
}

#[test]
fn latencies_keep_successes_in_order() {
    assert_eq!(mixed().latencies(), vec![ms(30), ms(10), ms(20), ms(40)]);
    assert_eq!(Results::new().latencies(), Vec::<u128>::new());
    assert_eq!(record(vec![failed(9)]).latencies(), Vec::<u128>::new());
}

#[test]
fn percentile_is_nearest_rank_without_interpolation() {
    let r = mixed();
    // Ascending: 10, 20, 30, 40 ms; index is p * 4 / 100, rounded down.
    assert_eq!(r.percentile(0), ms(10));
    assert_eq!(r.percentile(24), ms(10));
    assert_eq!(r.percentile(25), ms(20));
    assert_eq!(r.percentile(49), ms(20));
    assert_eq!(r.percentile(50), ms(30));
    assert_eq!(r.percentile(74), ms(30));
    assert_eq!(r.percentile(75), ms(40));
    assert_eq!(r.percentile(90), ms(40));
    assert_eq!(r.percentile(99), ms(40));
    assert_eq!(r.percentile(100), ms(40));
}

#[test]
fn percentile_index_is_exact_where_binary_fractions_are_not() {
    // 57 percent of 100 values is index 57 exactly.
    let values: Vec<u128> = (0..100).rev().collect();
    assert_eq!(percentile(values.clone(), 57), 57);
    assert_eq!(percentile(values.clone(), 7), 7);
    assert_eq!(percentile(values.clone(), 99), 99);
    assert_eq!(percentile(values, 100), 99);
}

#[test]
fn percentile_beyond_100_is_clamped_to_the_last_value() {
    let r = mixed();
    assert_eq!(r.percentile(101), ms(40));
    assert_eq!(r.percentile(u32::MAX), ms(40));
    assert_eq!(percentile(vec![5], u32::MAX), 5);
}

#[test]
fn percentile_of_a_single_value_is_that_value() {
    let r = record(vec![ok(77)]);
    for p in [0, 1, 50, 99, 100] {
        assert_eq!(r.percentile(p), 77);
    }
}

#[test]
fn percentile_100_equals_max_latency() {
    let r = mixed();
    assert_eq!(r.percentile(100), r.max_latency());
    let one = record(vec![failed(1_000), ok(5)]);
    assert_eq!(one.percentile(100), 5);
    assert_eq!(one.max_latency(), 5);
}

#[test]
fn percentile_does_not_decrease_with_the_percent() {
    let latencies: [u128; 9] = [900, 5, 77, 77, 3, 1_000_000, 42, 8, 0];
    let r = record(latencies.iter().map(|l| ok(*l)).collect());
    let mut last = r.percentile(0);
    for p in 1..=120u32 {
        let next = r.percentile(p);
        assert!(last <= next, "percent {}", p);
        last = next;
    }
}

#[test]
fn percentile_sorts_what_it_is_given() {
    assert_eq!(percentile(vec![3, 1, 2], 0), 1);
    assert_eq!(percentile(vec![3, 1, 2], 34), 2);
    assert_eq!(percentile(vec![3, 1, 2], 100), 3);
    assert_eq!(percentile(vec![2, 2, 1, 2], 25), 2);
    assert_eq!(percentile(vec![], 50), 0);
}

#[test]
fn latency_reductions_of_a_mixed_record() {
    let r = mixed();
    assert_eq!(r.avg_latency(), ms(25));
    assert_eq!(r.min_latency(), ms(10));
    assert_eq!(r.max_latency(), ms(40));
}

#[test]
fn mean_rounds_down() {
    assert_eq!(mean(&vec![1, 2]), 1);
    assert_eq!(mean(&vec![1, 2, 4]), 2);
    assert_eq!(mean(&vec![7]), 7);
    assert_eq!(mean(&vec![0, 0, 0]), 0);
    assert_eq!(mean(&vec![]), 0);
}

#[test]
fn mean_of_huge_values_does_not_overflow() {
    assert_eq!(mean(&vec![u128::MAX, u128::MAX]), u128::MAX);
    assert_eq!(mean(&vec![u128::MAX, u128::MAX, u128::MAX]), u128::MAX);
    assert_eq!(mean(&vec![u128::MAX, 0]), u128::MAX / 2);
    assert_eq!(mean(&vec![u128::MAX, u128::MAX - 1]), u128::MAX - 1);
    assert_eq!(mean(&vec![u128::MAX, 1, 1]), u128::MAX / 3);
    assert_eq!(mean(&vec![u128::MAX, 2, 1]), u128::MAX / 3 + 1);
}

#[test]
fn extremes_of_values() {
    assert_eq!(minimum(&vec![4, 2, 9]), 2);
    assert_eq!(maximum(&vec![4, 2, 9]), 9);
    assert_eq!(minimum(&vec![]), 0);
    assert_eq!(maximum(&vec![]), 0);
    assert_eq!(minimum(&vec![u128::MAX]), u128::MAX);
    assert_eq!(maximum(&vec![0]), 0);
}

#[test]
fn ratio_is_scaled_and_rounded_down() {
    assert_eq!(ratio(1, 1000, 3), 333);
    assert_eq!(ratio(2, 1000, 3), 666);
    assert_eq!(ratio(0, 1000, 3), 0);
    assert_eq!(ratio(5, 1000, 0), 0);
    assert_eq!(ratio(usize::MAX, u64::MAX, 1), usize::MAX as u128 * u64::MAX as u128);
}

#[test]
fn statistics_of_an_empty_record_are_zero() {
    let r = Results::new();
    assert_eq!(r.avg_latency(), 0);
    assert_eq!(r.min_latency(), 0);
    assert_eq!(r.max_latency(), 0);
    assert_eq!(r.percentile(0), 0);
    assert_eq!(r.percentile(50), 0);
    assert_eq!(r.percentile(90), 0);
    assert_eq!(r.percentile(99), 0);
    assert_eq!(r.percentile(100), 0);
    assert_eq!(r.throughput(), 0);
    assert_eq!(r.error_rate(), 0);
    assert_eq!(r.avg_cpu(), 0);
    assert_eq!(r.avg_mem(), 0);
    assert_eq!(r.peak_mem(), 0);
    assert_eq!(r.window(), 0);
}

#[test]
fn empty_sample_set_scenario() {
    let mut r = Results::new();
    r.start_time = Some(0);
    r.end_time = Some(1_000_000_000);
    assert_eq!(r.avg_latency(), 0);
    assert_eq!(r.percentile(50), 0);
    assert_eq!(r.throughput(), 0);
}

#[test]
fn latency_statistics_without_a_success_are_zero() {
    let mut r = record(vec![failed(ms(3)), failed(ms(4))]);
    r.start_time = Some(0);
    r.end_time = Some(1_000_000_000);
    assert_eq!(r.avg_latency(), 0);
    assert_eq!(r.min_latency(), 0);
    assert_eq!(r.max_latency(), 0);
    assert_eq!(r.percentile(50), 0);
    assert_eq!(r.throughput(), 0);
    assert_eq!(r.error_rate(), 10_000);
}

#[test]
fn throughput_counts_successes_per_second_in_thousandths() {
    let r = mixed();
    // 4 successes in 2 s.
    assert_eq!(r.window(), 2_000_000_000);
    assert_eq!(r.throughput(), 2_000);
    let mut third = record(vec![ok(1)]);
    third.start_time = Some(0);
    third.end_time = Some(3_000_000_000);
    assert_eq!(third.throughput(), 333);
}

#[test]
fn throughput_is_zero_without_a_positive_window() {
    let mut r = record(vec![ok(1), ok(2)]);
    assert_eq!(r.throughput(), 0);
    r.start_time = Some(5);
    assert_eq!(r.throughput(), 0);
    r.end_time = Some(5);
    assert_eq!(r.window(), 0);
    assert_eq!(r.throughput(), 0);
    r.end_time = Some(4);
    assert_eq!(r.window(), 0);
    assert_eq!(r.throughput(), 0);
    r.start_time = None;
    assert_eq!(r.throughput(), 0);
    r.start_time = Some(3);
    assert_eq!(r.window(), 1);
    assert_eq!(r.throughput(), 2_000_000_000_000);
}

#[test]
fn error_rate_is_in_hundredths_of_a_percent() {
    assert_eq!(mixed().error_rate(), 3_333);
    assert_eq!(record(vec![ok(1)]).error_rate(), 0);
    assert_eq!(record(vec![failed(1)]).error_rate(), 10_000);
    assert_eq!(record(vec![failed(1), ok(1)]).error_rate(), 5_000);
    assert_eq!(Results::new().error_rate(), 0);
}

#[test]
fn resource_reductions() {
    let r = mixed();
    assert_eq!(r.avg_cpu(), 1500);
    assert_eq!(r.avg_mem(), 20 * 1024 * 1024);
    assert_eq!(r.peak_mem(), 30 * 1024 * 1024);
}

#[test]
fn resource_reductions_at_the_limits() {
    let mut r = Results::new();
    r.cpu_samples = vec![u32::MAX, u32::MAX, u32::MAX];
    r.mem_samples = vec![u64::MAX, u64::MAX];
    assert_eq!(r.avg_cpu(), u32::MAX);
    assert_eq!(r.avg_mem(), u64::MAX);
    assert_eq!(r.peak_mem(), u64::MAX);
}

#[test]
fn summary_holds_every_reported_figure() {
    let r = mixed();
    let expected = Summary {
        duration: 2_000_000_000,
        requests: 6,
        throughput: 2_000,
        p50: ms(30),
        p90: ms(40),
        p99: ms(40),
        avg: ms(25),
        min: ms(10),
        max: ms(40),
        errors: 2,
        error_rate: 3_333,
        cpu_avg: 1500,
        mem_avg: 20 * 1024 * 1024,
        mem_peak: 30 * 1024 * 1024,
    };
    assert_eq!(r.summary(), expected);
}

#[test]
fn statistics_computed_twice_are_identical() {
    let r = mixed();
    assert_eq!(r.summary(), r.summary());
    assert_eq!(r.latencies(), r.latencies());
    for p in [0, 50, 90, 99, 100] {
        assert_eq!(r.percentile(p), r.percentile(p));
    }
    let copy = r.clone();
    assert_eq!(r.summary(), copy.summary());
    assert_eq!(r, copy);
}

#[test]
fn statistics_do_not_depend_on_arrival_order() {
    let a = record(vec![ok(5), failed(9), ok(1), ok(3)]);
    let b = record(vec![ok(3), ok(1), ok(5), failed(9)]);
    assert_eq!(a.summary(), b.summary());
}
