use snd::runner::consumer::ResponseConsumer;
use snd::workers::{Header, Message, MessageOrHeader};
use std::collections::HashMap;

#[test]
fn consumer_counts_headers_and_records_latency() {
    let mut c = ResponseConsumer::new();
    let first = MessageOrHeader::Header((Header { id: 11, response_code: 0 }, 1_000_000));
    let second = MessageOrHeader::Header((Header { id: 12, response_code: 3 }, 0));
    assert!(c.can_receive(&first));
    c.receive_at(&first, 5);
    c.receive_at(&second, 6);
    assert_eq!(c.store.receive_total(), 2);
    assert_eq!(c.store.last_update(), Some(6));
    let codes: HashMap<u8, u64> = [(0u8, 1u64), (3, 1)].into_iter().collect();
    assert_eq!(c.store.get_reply_code(), codes);
    assert_eq!(c.histogram.count(), 1);
    assert!(c.store.histogram_report().is_none());
    c.receive_at(&MessageOrHeader::End, 7);
    let report = c.store.histogram_report().unwrap();
    assert_eq!(report.count(), 1);
    assert_eq!(report.min(), 1_000_000);
    assert_eq!(report.max(), 1_000_000);
    assert_eq!(c.store.receive_total(), 2);
}

#[test]
fn consumer_counts_whole_messages() {
    let mut c = ResponseConsumer::new();
    let m = Message {
        header: Header { id: 1, response_code: 2 },
        queries: vec![1],
        answers: vec![1, 5],
        name_servers: vec![],
        additionals: vec![41],
    };
    c.receive(&MessageOrHeader::Message((m, 42)));
    assert_eq!(c.store.receive_total(), 1);
    let mut store = c.store.clone();
    let asked: HashMap<u16, u64> = [(1u16, 1u64)].into_iter().collect();
    assert_eq!(store.get_query(), asked);
    let answers: HashMap<u16, u64> = [(1u16, 1u64), (5, 1)].into_iter().collect();
    assert_eq!(c.store.get_answer(), answers);
    assert_eq!(c.histogram.count(), 1);
    assert!(c.store.last_update().unwrap() > 1_500_000_000_000_000_000);
}

#[test]
fn update_report_without_samples_leaves_no_histogram() {
    let mut c = ResponseConsumer::new();
    c.update_report();
    assert!(c.store.histogram_report().is_none());
    c.receive_at(&MessageOrHeader::Header((Header { id: 1, response_code: 0 }, 7)), 1);
    c.update_report();
    assert_eq!(c.store.histogram_report().unwrap().count(), 1);
}
