use snd::runner::cache::CacheError;
use snd::runner::limiter::RateDecision;
use snd::runner::producer::{PacketGeneratorStatus, QueryProducer};
use snd::utils::arguments::Argument;

const SECOND: u64 = 1_000_000_000;

fn settings() -> Argument {
    let mut a = Argument::default();
    a.domain = "example.com".to_string();
    a.qty = "A".to_string();
    a.qps = 0;
    a.max = 3;
    a.packet_id = 0;
    a
}

fn kind(status: &PacketGeneratorStatus) -> &'static str {
    match status {
        PacketGeneratorStatus::Success(_, _) => "success",
        PacketGeneratorStatus::Wait(_) => "wait",
        PacketGeneratorStatus::Stop => "stop",
    }
}

#[test]
fn producer_hands_out_packets_until_max() {
    let mut p = QueryProducer::new_at(&settings(), None, 10 * SECOND).unwrap();
    for i in 0..3u64 {
        assert!(p.can_retrieve());
        match p.retrieve_with(RateDecision::Disabled, 11 * SECOND, 0x4142) {
            PacketGeneratorStatus::Success(data, qtype) => {
                assert_eq!(qtype, 1);
                assert_eq!(&data[0..2], &[0x41, 0x42]);
            }
            other => panic!("unexpected {}", kind(&other)),
        }
        assert_eq!(p.counter(), i + 1);
        assert_eq!(p.store.query_total(), i + 1);
    }
    assert_eq!(kind(&p.retrieve_with(RateDecision::Ready, 12 * SECOND, 1)), "stop");
    assert_eq!(p.counter(), 3);
    assert_eq!(p.store.query_total(), 3);
    assert_eq!(p.store.send_duration(), Some(2 * SECOND));
    assert_eq!(p.store.query_count(1), Some(3));
}

#[test]
fn producer_waits_when_told_to() {
    let mut p = QueryProducer::new_at(&settings(), None, 0).unwrap();
    match p.retrieve_with(RateDecision::Wait(250), SECOND, 1) {
        PacketGeneratorStatus::Wait(nanos) => assert_eq!(nanos, 250),
        other => panic!("unexpected {}", kind(&other)),
    }
    assert_eq!(p.counter(), 0);
    assert_eq!(p.store.query_total(), 0);
}

#[test]
fn producer_stops_at_the_time_limit() {
    let mut a = settings();
    a.max = 0;
    a.until_stop = 2;
    let mut p = QueryProducer::new_at(&a, None, 100 * SECOND + 5).unwrap();
    assert_eq!(kind(&p.retrieve_with(RateDecision::Disabled, 101 * SECOND, 1)), "success");
    assert_eq!(kind(&p.retrieve_with(RateDecision::Disabled, 102 * SECOND - 1, 1)), "success");
    assert_eq!(kind(&p.retrieve_with(RateDecision::Disabled, 102 * SECOND + 4, 1)), "success");
    assert_eq!(kind(&p.retrieve_with(RateDecision::Disabled, 102 * SECOND + 5, 1)), "stop");
    assert_eq!(p.store.query_total(), 3);
    assert_eq!(p.store.send_duration(), Some(2 * SECOND));
    assert_eq!(kind(&p.retrieve_with(RateDecision::Wait(9), 103 * SECOND, 1)), "wait");
}

#[test]
fn retrieve_then_return_back_restores_counter_and_store() {
    let mut p = QueryProducer::new_at(&settings(), None, 0).unwrap();
    assert_eq!(kind(&p.retrieve_with(RateDecision::Disabled, 1, 1)), "success");
    let counter = p.counter();
    let total = p.store.query_total();
    let map = p.store.get_query();
    let duration = p.store.send_duration();
    assert_eq!(kind(&p.retrieve_with(RateDecision::Ready, 2, 2)), "success");
    assert_eq!(p.counter(), counter + 1);
    p.return_back();
    assert_eq!(p.counter(), counter);
    assert_eq!(p.store.query_total(), total);
    assert_eq!(p.store.get_query(), map);
    assert_eq!(p.store.send_duration(), duration);
    p.return_back();
    assert_eq!(p.counter(), counter);
    assert_eq!(kind(&p.retrieve_with(RateDecision::Wait(5), 3, 3)), "wait");
    p.return_back();
    assert_eq!(p.counter(), counter);
    assert_eq!(p.store.get_query(), map);
}

#[test]
fn return_back_removes_a_type_that_was_not_counted_before() {
    let mut p = QueryProducer::new_at(&settings(), None, 0).unwrap();
    assert!(p.store.get_query().is_empty());
    assert_eq!(kind(&p.retrieve()), "success");
    assert_eq!(p.store.query_count(1), Some(1));
    p.return_back();
    assert!(p.store.get_query().is_empty());
    assert_eq!(p.store.query_total(), 0);
    assert_eq!(p.counter(), 0);
}

#[test]
fn without_a_rate_the_producer_never_waits() {
    let mut a = settings();
    a.qps = 0;
    a.max = 2000;
    let mut p = QueryProducer::new(&a, None).unwrap();
    for _ in 0..2000 {
        assert_eq!(kind(&p.retrieve()), "success");
    }
    assert_eq!(kind(&p.retrieve()), "stop");
    assert_eq!(p.counter(), 2000);
}

#[test]
fn with_a_rate_the_producer_is_held_back() {
    let mut a = settings();
    a.qps = 5;
    a.max = 0;
    a.until_stop = 3600;
    let mut p = QueryProducer::new(&a, None).unwrap();
    let started = std::time::Instant::now();
    let mut handed_out = 0u64;
    let mut waits = 0u64;
    for _ in 0..2000 {
        match p.retrieve() {
            PacketGeneratorStatus::Success(_, _) => handed_out += 1,
            PacketGeneratorStatus::Wait(nanos) => {
                assert!(nanos <= SECOND);
                waits += 1;
            }
            PacketGeneratorStatus::Stop => panic!("stopped"),
        }
    }
    let seconds = started.elapsed().as_secs() + 1;
    assert!(handed_out >= 1);
    assert!(handed_out <= 5 * seconds + 1);
    assert!(waits > 0);
    assert_eq!(p.counter(), handed_out);
}

#[test]
fn producer_errors_are_those_of_the_cache() {
    let mut a = settings();
    a.qty = "nope".to_string();
    assert_eq!(QueryProducer::new(&a, None).err(), Some(CacheError::TypeParseError));
    let mut b = settings();
    b.file = "queries.txt".to_string();
    assert_eq!(QueryProducer::new_at(&b, None, 0).err(), Some(CacheError::FileReadError));
    let p = QueryProducer::new_at(&b, Some(b"example.com MX\n".as_slice()), 0).unwrap();
    assert_eq!(p.id_offset(), 0);
}

#[test]
fn producer_store_can_be_taken() {
    let mut p = QueryProducer::new_at(&settings(), None, 0).unwrap();
    let _ = p.retrieve_with(RateDecision::Disabled, 1, 1);
    p.set_send_duration(99);
    let copy = p.snapshot();
    assert_eq!(copy.query_total(), 1);
    assert_eq!(copy.send_duration(), Some(99));
    let store = p.into_store();
    assert_eq!(store.query_total(), 1);
}

#[test]
fn a_timed_run_lasts_its_time_from_the_start() {
    let mut a = settings();
    a.max = 0;
    a.until_stop = 2;
    let mut p = QueryProducer::new_at(&a, None, SECOND - 1).unwrap();
    assert_eq!(kind(&p.retrieve_with(RateDecision::Disabled, 2 * SECOND, 1)), "success");
    assert_eq!(kind(&p.retrieve_with(RateDecision::Disabled, 3 * SECOND - 2, 1)), "success");
    assert_eq!(kind(&p.retrieve_with(RateDecision::Disabled, 3 * SECOND - 1, 1)), "stop");
    let mut late = settings();
    late.max = 0;
    late.until_stop = u64::MAX;
    let mut q = QueryProducer::new_at(&late, None, 7).unwrap();
    assert_eq!(kind(&q.retrieve_with(RateDecision::Disabled, u64::MAX - 1, 1)), "success");
    assert_eq!(kind(&q.retrieve_with(RateDecision::Disabled, u64::MAX, 1)), "stop");
}

#[test]
fn the_limiter_is_made_for_the_rate_of_the_settings() {
    let mut a = settings();
    a.qps = 200;
    a.max = 0;
    a.until_stop = 3600;
    let mut p = QueryProducer::new(&a, None).unwrap();
    let started = std::time::Instant::now();
    let mut handed_out = 0u64;
    while started.elapsed() < std::time::Duration::from_millis(300) {
        if let PacketGeneratorStatus::Success(_, _) = p.retrieve() {
            handed_out += 1;
        }
    }
    let seconds = started.elapsed().as_secs() + 1;
    assert!(handed_out >= 10);
    assert!(handed_out <= 200 * seconds + 1);
}
