use snd::runner::report::{ReportType, StatusStore};
use snd::runner::runner::{merge_results, share_of, IntervalCollector, Runner};
use snd::utils::arguments::Argument;
use snd::utils::utils::CpuModeError;
use snd::workers::Header;

fn pair(sent: u64, received: u64, duration: u64) -> (StatusStore, StatusStore) {
    let mut producer = StatusStore::new();
    for _ in 0..sent {
        producer.update_query(1);
    }
    producer.set_send_duration(duration);
    let mut consumer = StatusStore::new();
    for i in 0..received {
        consumer.update_response_from_header_at(&Header { id: i as u16, response_code: 0 }, i);
    }
    (producer, consumer)
}

#[test]
fn shares_keep_the_total() {
    for (total, parts) in [(100u64, 4usize), (10, 3), (2, 4), (0, 5), (7, 1), (u64::MAX, 7)] {
        let mut sum: u128 = 0;
        for index in 0..parts {
            let share = share_of(total, parts, index);
            if index > 0 {
                assert_eq!(share, total / parts as u64);
            }
            sum += share as u128;
        }
        assert_eq!(sum, total as u128);
    }
    assert_eq!(share_of(10, 3, 0), 4);
    assert_eq!(share_of(10, 3, 1), 3);
    assert_eq!(share_of(10, 3, 2), 3);
}

#[test]
fn runner_gives_each_core_its_share() {
    let mut a = Argument::default();
    a.qps = 100;
    a.max = 1001;
    a.client = 5;
    let runner = Runner::new_on(a, &vec![2, 5, 7]);
    assert_eq!(runner.worker_number(), 3);
    let shares: Vec<(u32, u64, usize, usize)> = (0..3)
        .map(|i| {
            let (args, core) = runner.worker(i);
            (args.qps, args.max, args.client, core)
        })
        .collect();
    assert_eq!(shares, vec![(34, 335, 3, 2), (33, 333, 1, 5), (33, 333, 1, 7)]);
    assert_eq!(runner.worker(1).0.domain, "google.com");
}

#[test]
fn runner_on_this_machine() {
    let mut a = Argument::default();
    a.bind_cpu = "0".to_string();
    let runner = Runner::new(a).unwrap();
    assert_eq!(runner.worker_number(), 1);
    assert_eq!(runner.worker(0).0.qps, 10);
    assert!(!runner.has_sums());
    let mut all = Argument::default();
    all.bind_cpu = "all".to_string();
    all.qps = 1000;
    all.max = 77;
    let spread = Runner::new(all).unwrap();
    assert!(spread.worker_number() >= 1);
    let mut qps = 0u64;
    let mut max = 0u64;
    let mut client = 0usize;
    for i in 0..spread.worker_number() {
        qps += spread.worker(i).0.qps as u64;
        max += spread.worker(i).0.max;
        client += spread.worker(i).0.client;
    }
    assert_eq!((qps, max, client), (1000, 77, 1));
    let mut b = Argument::default();
    b.bind_cpu = "nowhere".to_string();
    assert_eq!(Runner::new(b).err(), Some(CpuModeError::ParseNumber));
}

#[test]
fn merge_results_adds_all_workers() {
    let sums = merge_results(vec![pair(3, 2, 500), pair(4, 4, 900), pair(1, 0, 100)]).unwrap();
    assert_eq!(sums.0.query_total(), 8);
    assert_eq!(sums.0.send_duration(), Some(900));
    assert_eq!(sums.1.receive_total(), 6);
    assert_eq!(sums.1.last_update(), Some(3));
    let none = merge_results(vec![]).unwrap();
    assert_eq!(none.0.query_total(), 0);
    let mut full = StatusStore::new();
    full.set_query_total(u64::MAX);
    assert!(merge_results(vec![pair(1, 0, 1), (full, StatusStore::new())]).is_none());
}

#[test]
fn runner_collects_the_final_report() {
    let mut a = Argument::default();
    a.output = "out.yaml".to_string();
    let mut runner = Runner::new_on(a, &vec![0, 1]);
    assert!(runner.collect(vec![pair(3, 2, 2_000_000_000), pair(4, 4, 1_000_000_000)]));
    let mut full = StatusStore::new();
    full.set_receive_total(u64::MAX);
    assert!(!runner.collect(vec![pair(1, 1, 1), (StatusStore::new(), full)]));
}

#[test]
fn collector_reports_once_per_round() {
    let mut collector = IntervalCollector::new(2);
    assert!(collector.take(pair(10, 9, 1_000_000_000)).is_none());
    let report = collector.take(pair(5, 5, 2_000_000_000)).unwrap();
    let (kind, data) = report.report("stdout".to_string());
    assert_eq!(kind, ReportType::Basic);
    assert_eq!(data.basic.query_total, 15);
    assert_eq!(data.basic.response_total, 14);
    assert_eq!(data.basic.duration, 2_000_000_000);
    assert_eq!(data.basic.qps, 7);
    assert!(collector.take(pair(1, 1, 1)).is_none());
    assert!(collector.take(pair(1, 1, 1)).is_some());
}
