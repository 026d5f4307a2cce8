use benchmark_client::results::{Results, Sample};
use benchmark_client::sampler::{Reading, Sampler, SamplerAction};
use benchmark_client::worker::{http_sample, StreamItem, StreamWorker, Worker};
use rand::rngs::StdRng;
use rand::SeedableRng;

fn keys(names: &[&str]) -> Vec<String> {
    names.iter().map(|n| n.to_string()).collect()
}

#[test]
fn a_worker_picks_keys_from_its_key_set() {
    let set = keys(&["0.0.1001", "0.0.1002", "0.0.1003", "0.0.1004"]);
    let mut worker = Worker::with_rng(set.clone(), StdRng::seed_from_u64(7));
    let mut seen = vec![0usize; set.len()];
    for _ in 0..400 {
        let key = worker.next(true).expect("a running worker with keys goes on");
        let at = set.iter().position(|k| *k == key).expect("the key is one of the set");
        seen[at] += 1;
    }
    assert!(seen.iter().all(|n| *n > 0), "every key is picked sooner or later: {:?}", seen);
    assert!(!worker.is_stopped());
}

#[test]
fn a_worker_with_one_key_always_picks_it() {
    let mut worker = Worker::with_rng(keys(&["only"]), StdRng::seed_from_u64(1));
    for _ in 0..50 {
        assert_eq!(worker.next(true), Some("only".to_string()));
    }
}

#[test]
fn a_worker_seeded_by_the_system_picks_from_its_key_set() {
    let set = keys(&["a", "b", "c"]);
    let mut worker = Worker::start(set.clone()).expect("the system hands out entropy");
    assert!(!worker.is_stopped());
    for _ in 0..30 {
        let key = worker.next(true).expect("a running worker with keys goes on");
        assert!(set.contains(&key));
    }
}

#[test]
fn a_worker_is_had_exactly_where_a_generator_was() {
    let set = keys(&["a", "b"]);
    assert!(Worker::seeded(set.clone(), None).is_none());
    let rng = StdRng::seed_from_u64(9);
    let mut worker = Worker::seeded(set.clone(), Some(rng)).expect("a generator was given");
    assert!(!worker.is_stopped());
    let key = worker.next(true).expect("a running worker with keys goes on");
    assert!(set.contains(&key));
}

#[test]
fn workers_have_generators_of_their_own() {
    let set: Vec<String> = (0..1000).map(|i| format!("key-{}", i)).collect();
    let mut a = Worker::start(set.clone()).expect("the system hands out entropy");
    let mut b = Worker::start(set).expect("the system hands out entropy");
    let picks_a: Vec<String> = (0..20).map(|_| a.next(true).unwrap()).collect();
    let picks_b: Vec<String> = (0..20).map(|_| b.next(true).unwrap()).collect();
    assert_ne!(picks_a, picks_b);
}

#[test]
fn a_worker_under_a_fixed_seed_is_reproducible() {
    let set: Vec<String> = (0..100).map(|i| format!("key-{}", i)).collect();
    let mut a = Worker::with_rng(set.clone(), StdRng::seed_from_u64(42));
    let mut b = Worker::with_rng(set, StdRng::seed_from_u64(42));
    for _ in 0..50 {
        assert_eq!(a.next(true), b.next(true));
    }
}

#[test]
fn a_worker_stops_when_the_flag_is_cleared_and_stays_stopped() {
    let mut worker = Worker::with_rng(keys(&["a", "b"]), StdRng::seed_from_u64(3));
    assert!(worker.next(true).is_some());
    assert_eq!(worker.next(false), None);
    assert!(worker.is_stopped());
    assert_eq!(worker.next(true), None);
    assert_eq!(worker.next(true), None);
    assert!(worker.is_stopped());
}

#[test]
fn a_worker_without_keys_contributes_nothing() {
    let mut worker = Worker::with_rng(Vec::new(), StdRng::seed_from_u64(3));
    assert!(!worker.is_stopped());
    assert_eq!(worker.next(true), None);
    assert!(worker.is_stopped());
}

#[test]
fn a_worker_stops_when_the_channel_refuses_a_sample() {
    let mut worker = Worker::with_rng(keys(&["a"]), StdRng::seed_from_u64(3));
    assert!(worker.next(true).is_some());
    worker.delivered(true);
    assert!(!worker.is_stopped());
    assert!(worker.next(true).is_some());
    worker.delivered(false);
    assert!(worker.is_stopped());
    assert_eq!(worker.next(true), None);
    worker.delivered(true);
    assert!(worker.is_stopped());
}

#[test]
fn a_stream_worker_measures_the_time_between_messages() {
    let mut worker = StreamWorker::new(1_000);
    assert!(worker.poll(true));
    assert_eq!(
        worker.observe(StreamItem::Message, 1_250),
        Some(Sample { latency: 250, success: true })
    );
    assert!(worker.poll(true));
    assert_eq!(
        worker.observe(StreamItem::Message, 1_251),
        Some(Sample { latency: 1, success: true })
    );
    assert_eq!(
        worker.observe(StreamItem::Message, 1_251),
        Some(Sample { latency: 0, success: true })
    );
    assert!(!worker.is_stopped());
}

#[test]
fn a_stream_worker_takes_a_clock_that_went_back_as_no_time() {
    let mut worker = StreamWorker::new(1_000);
    assert_eq!(
        worker.observe(StreamItem::Message, 900),
        Some(Sample { latency: 0, success: true })
    );
    assert_eq!(
        worker.observe(StreamItem::Message, 1_000),
        Some(Sample { latency: 100, success: true })
    );
}

#[test]
fn a_stream_worker_records_a_failure_and_goes_on() {
    let mut worker = StreamWorker::new(100);
    assert_eq!(
        worker.observe(StreamItem::Failure, 130),
        Some(Sample { latency: 30, success: false })
    );
    assert!(!worker.is_stopped());
    assert!(worker.poll(true));
    // The mark has moved to the failure.
    assert_eq!(
        worker.observe(StreamItem::Message, 150),
        Some(Sample { latency: 20, success: true })
    );
    assert_eq!(
        worker.observe(StreamItem::Failure, 150),
        Some(Sample { latency: 0, success: false })
    );
    assert_eq!(
        worker.observe(StreamItem::Failure, 140),
        Some(Sample { latency: 0, success: false })
    );
    assert!(!worker.is_stopped());
}

#[test]
fn a_stream_worker_stops_at_the_end_of_the_stream() {
    let mut worker = StreamWorker::new(0);
    assert_eq!(worker.observe(StreamItem::End, 5), None);
    assert!(worker.is_stopped());
    assert!(!worker.poll(true));
    assert_eq!(worker.observe(StreamItem::Message, 9), None);
    assert_eq!(worker.observe(StreamItem::Failure, 9), None);
    assert_eq!(worker.observe(StreamItem::End, 9), None);
    assert!(worker.is_stopped());
}

#[test]
fn a_stream_of_messages_and_one_failure_gives_a_sample_for_each() {
    let mut worker = StreamWorker::new(0);
    let mut results = Results::new();
    let mut now = 0u128;
    let items = [
        StreamItem::Message,
        StreamItem::Message,
        StreamItem::Message,
        StreamItem::Failure,
        StreamItem::End,
    ];
    for item in items {
        assert!(worker.poll(true));
        now += 10;
        if let Some(sample) = worker.observe(item, now) {
            results.add_sample(sample);
            worker.delivered(true);
        }
    }
    assert!(worker.is_stopped());
    assert_eq!(results.samples.len(), 4);
    assert_eq!(results.success_count(), 3);
    assert_eq!(results.error_count(), 1);
    assert_eq!(results.samples[3], Sample { latency: 10, success: false });
}

#[test]
fn a_stream_worker_stops_with_the_flag_or_the_channel() {
    let mut worker = StreamWorker::new(0);
    assert!(worker.poll(true));
    assert!(!worker.poll(false));
    assert!(!worker.poll(true));
    assert!(worker.is_stopped());

    let mut worker = StreamWorker::new(0);
    worker.delivered(true);
    assert!(worker.poll(true));
    worker.delivered(false);
    assert!(!worker.poll(true));
    assert_eq!(worker.observe(StreamItem::Message, 1), None);
}

#[test]
fn http_requests_succeed_on_2xx_only() {
    assert_eq!(http_sample(5, Some(200)), Sample { latency: 5, success: true });
    assert_eq!(http_sample(5, Some(204)), Sample { latency: 5, success: true });
    assert_eq!(http_sample(5, Some(299)), Sample { latency: 5, success: true });
    assert_eq!(http_sample(6, Some(199)), Sample { latency: 6, success: false });
    assert_eq!(http_sample(6, Some(300)), Sample { latency: 6, success: false });
    assert_eq!(http_sample(6, Some(404)), Sample { latency: 6, success: false });
    assert_eq!(http_sample(6, Some(500)), Sample { latency: 6, success: false });
    assert_eq!(http_sample(6, Some(0)), Sample { latency: 6, success: false });
    assert_eq!(http_sample(6, Some(u16::MAX)), Sample { latency: 6, success: false });
    assert_eq!(http_sample(7, None), Sample { latency: 7, success: false });
}

#[test]
fn the_sampler_ticks_while_the_flag_is_set() {
    let mut sampler = Sampler::new(100_000_000);
    assert_eq!(sampler.poll(true), SamplerAction::Wait { interval: 100_000_000 });
    sampler.record(Some(Reading { cpu: 120, mem: 1 << 20 }));
    assert_eq!(sampler.poll(true), SamplerAction::Wait { interval: 100_000_000 });
    sampler.record(None);
    assert_eq!(sampler.poll(true), SamplerAction::Wait { interval: 100_000_000 });
    sampler.record(Some(Reading { cpu: 80, mem: 2 << 20 }));
    assert_eq!(sampler.len(), 2);
    assert_eq!(sampler.poll(false), SamplerAction::Stop);
    assert_eq!(sampler.poll(true), SamplerAction::Stop);
    assert_eq!(
        sampler.into_readings(),
        vec![Reading { cpu: 120, mem: 1 << 20 }, Reading { cpu: 80, mem: 2 << 20 }]
    );
}

#[test]
fn the_sampler_keeps_a_reading_that_comes_after_the_stop() {
    let mut sampler = Sampler::new(5);
    assert_eq!(sampler.poll(true), SamplerAction::Wait { interval: 5 });
    assert_eq!(sampler.len(), 0);
    // The flag is cleared while the sampler waits for its tick.
    sampler.record(Some(Reading { cpu: 1, mem: 2 }));
    assert_eq!(sampler.poll(false), SamplerAction::Stop);
    assert_eq!(sampler.into_readings(), vec![Reading { cpu: 1, mem: 2 }]);
}
