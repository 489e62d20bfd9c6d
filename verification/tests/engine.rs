use snd::runner::limiter::RateDecision;
use snd::runner::report::{BasicStats, ExtensionStats, RunnerReport};
use snd::utils::arguments::{Argument, DoHMethod, Protocol};
use snd::workers::doh::doh_request;
use snd::workers::engine::{
    receive_buffer_size, Directive, EventLoop, Interest, QUIESCENT_NANOS,
};
use snd::workers::tcp::SocketStatus;
use std::collections::HashMap;

const SECOND: u64 = 1_000_000_000;

fn settings() -> Argument {
    let mut a = Argument::default();
    a.domain = "example.com".to_string();
    a.qty = "A".to_string();
    a.qps = 0;
    a.max = 2;
    a.packet_id = 0;
    a
}

fn response(id: u16, flags: u8, rcode: u8) -> Vec<u8> {
    vec![(id >> 8) as u8, id as u8, 0x80 | flags, rcode, 0, 1, 0, 0, 0, 0, 0, 0]
}

fn send(w: &mut EventLoop, socket: usize, now: u64, id: u16) -> Vec<u8> {
    match w.on_writable_with(socket, RateDecision::Disabled, now, id) {
        Directive::Send(data) => data.to_vec(),
        other => panic!("unexpected {:?}", other),
    }
}

fn is_reregister(d: &Directive, interest: Interest) -> bool {
    matches!(d, Directive::Reregister(i) if *i == interest)
}

#[test]
fn one_query_and_its_response_over_udp() {
    let mut w = EventLoop::new_at(&settings(), None, 1, 10 * SECOND).unwrap();
    assert_eq!(w.interest(0), Interest::Write);
    let packet = send(&mut w, 0, 10 * SECOND, 0x0001);
    assert_eq!(&packet[0..2], &[0, 1]);
    assert_eq!(w.send_counter(), 0);
    assert!(is_reregister(&w.on_sent_at(SocketStatus::Success, 10 * SECOND + 5), Interest::Read));
    assert_eq!(w.send_counter(), 1);
    assert_eq!(w.interest(0), Interest::Read);
    let d = w.on_readable_at(0, &response(0x0001, 0, 3), 10 * SECOND + 2_000_005);
    assert!(is_reregister(&d, Interest::Write));
    assert_eq!(w.receive_counter(), 1);
    assert_eq!(w.parse_errors(), 0);
    assert_eq!(w.interest(0), Interest::Write);
    assert!(!w.should_exit_at(10 * SECOND + 3_000_000));
    let (producer, consumer) = w.finish();
    assert_eq!(producer.query_total(), 1);
    assert_eq!(producer.send_duration(), Some(5));
    assert_eq!(consumer.receive_total(), 1);
    let codes: HashMap<u8, u64> = [(3u8, 1u64)].into_iter().collect();
    assert_eq!(consumer.get_reply_code(), codes);
    let h = consumer.histogram_report().unwrap();
    assert_eq!(h.count(), 1);
    assert_eq!(h.min(), 2_000_000);
}

#[test]
fn unsampled_ids_have_no_latency() {
    let mut w = EventLoop::new_at(&settings(), None, 1, 0).unwrap();
    let _ = send(&mut w, 0, 1, 0x0002);
    let _ = w.on_sent_at(SocketStatus::Success, 2);
    let _ = w.on_readable_at(0, &response(0x0002, 0, 0), 900);
    let (_, consumer) = w.finish();
    assert_eq!(consumer.receive_total(), 1);
    assert!(consumer.histogram_report().is_none());
}

#[test]
fn the_worker_ends_once_it_has_all_responses() {
    let mut w = EventLoop::new_at(&settings(), None, 2, 0).unwrap();
    let _ = send(&mut w, 0, 1, 11);
    let _ = w.on_sent_at(SocketStatus::Success, 1);
    let _ = send(&mut w, 1, 2, 21);
    let _ = w.on_sent_at(SocketStatus::Success, 2);
    assert!(matches!(
        w.on_writable_with(0, RateDecision::Disabled, 3, 1),
        Directive::Nothing
    ));
    let _ = w.on_readable_at(1, &response(21, 0, 0), 3);
    assert!(!w.should_exit_at(4));
    assert!(matches!(
        w.on_writable_with(1, RateDecision::Disabled, 4, 1),
        Directive::Nothing
    ));
    let _ = w.on_readable_at(0, &response(11, 0, 0), 5);
    assert_eq!(w.receive_counter(), 2);
    assert!(w.should_exit_at(5));
}

#[test]
fn the_worker_ends_after_five_quiet_seconds() {
    let mut a = settings();
    a.max = 0;
    a.until_stop = 100;
    let mut w = EventLoop::new_at(&a, None, 1, 50 * SECOND).unwrap();
    let _ = send(&mut w, 0, 51 * SECOND, 1);
    let _ = w.on_sent_at(SocketStatus::Success, 51 * SECOND);
    assert!(!w.should_exit_at(51 * SECOND + QUIESCENT_NANOS));
    assert!(w.should_exit_at(51 * SECOND + QUIESCENT_NANOS + 1));
    assert!(!w.should_exit_at(40 * SECOND));
    assert_eq!(QUIESCENT_NANOS, 5 * SECOND);
}

#[test]
fn a_failed_send_does_not_count() {
    let mut w = EventLoop::new_at(&settings(), None, 1, 0).unwrap();
    let _ = send(&mut w, 0, 1, 1);
    assert!(is_reregister(&w.on_sent_at(SocketStatus::Failed, 2), Interest::Write));
    assert_eq!(w.send_counter(), 0);
    assert_eq!(w.interest(0), Interest::Write);
    let _ = send(&mut w, 0, 3, 1);
    assert!(is_reregister(&w.on_sent_at(SocketStatus::WouldBlock, 4), Interest::Write));
    let _ = send(&mut w, 0, 5, 1);
    let _ = w.on_sent_at(SocketStatus::Success, 6);
    let _ = w.on_readable_at(0, &response(1, 0, 0), 7_000);
    let (producer, consumer) = w.finish();
    assert_eq!(producer.query_total(), 1);
    assert_eq!(producer.get_query_checked(), 1);
    assert_eq!(consumer.receive_total(), 1);
    assert!(consumer.histogram_report().is_some());
}

trait QueryCount {
    fn get_query_checked(&self) -> u64;
}

impl QueryCount for snd::runner::report::StatusStore {
    fn get_query_checked(&self) -> u64 {
        self.query_count(1).unwrap_or(0)
    }
}

#[test]
fn events_for_the_wrong_state_are_ignored() {
    let mut w = EventLoop::new_at(&settings(), None, 1, 0).unwrap();
    assert!(matches!(w.on_readable_at(0, &response(1, 0, 0), 1), Directive::Nothing));
    assert!(matches!(w.on_readable_at(5, &response(1, 0, 0), 1), Directive::Nothing));
    assert!(matches!(w.on_sent_at(SocketStatus::Success, 1), Directive::Nothing));
    assert!(matches!(
        w.on_writable_with(3, RateDecision::Disabled, 1, 1),
        Directive::Nothing
    ));
    assert_eq!(w.receive_counter(), 0);
    assert_eq!(w.send_counter(), 0);
    let _ = send(&mut w, 0, 1, 1);
    let _ = w.on_sent_at(SocketStatus::Success, 1);
    assert!(matches!(
        w.on_writable_with(0, RateDecision::Disabled, 2, 1),
        Directive::Nothing
    ));
    assert_eq!(w.send_counter(), 1);
}

#[test]
fn waiting_rearms_the_socket() {
    let mut w = EventLoop::new_at(&settings(), None, 1, 0).unwrap();
    let d = w.on_writable_with(0, RateDecision::Wait(1000), 1, 1);
    assert!(is_reregister(&d, Interest::Write));
    assert_eq!(w.interest(0), Interest::Write);
}

#[test]
fn responses_that_cannot_be_read_count_as_parse_errors() {
    let mut w = EventLoop::new_at(&settings(), None, 1, 0).unwrap();
    let _ = send(&mut w, 0, 1, 1);
    let _ = w.on_sent_at(SocketStatus::Success, 1);
    let _ = w.on_readable_at(0, &[0, 1, 0x80], 2);
    assert_eq!(w.receive_counter(), 1);
    assert_eq!(w.parse_errors(), 1);
    let _ = send(&mut w, 0, 3, 1);
    let _ = w.on_sent_at(SocketStatus::Success, 3);
    let unknown_operation = response(1, 0x08, 0);
    let _ = w.on_readable_at(0, &unknown_operation, 4);
    assert_eq!(w.parse_errors(), 2);
    let (producer, consumer) = w.finish();
    assert_eq!(producer.query_total(), 2);
    assert_eq!(consumer.receive_total(), 2);
    assert_eq!(consumer.parse_error(), 2);
    assert!(consumer.get_reply_code().is_empty());
    let mut report = RunnerReport::new();
    report.set_producer_report(producer);
    report.set_consumer_report(consumer.clone());
    report.set_histogram_report(consumer);
    assert_eq!(BasicStats::new(&report).parse_error, 2);
}

#[test]
fn header_fields_are_read_from_the_wire() {
    let mut w = EventLoop::new_at(&settings(), None, 1, 0).unwrap();
    let _ = send(&mut w, 0, 1, 1);
    let _ = w.on_sent_at(SocketStatus::Success, 1);
    let mut bytes = response(1, 0x28, 0xf5);
    bytes.extend_from_slice(&[1, 2, 3]);
    let _ = w.on_readable_at(0, &bytes, 2);
    assert_eq!(w.parse_errors(), 0);
    let (_, consumer) = w.finish();
    let codes: HashMap<u8, u64> = [(5u8, 1u64)].into_iter().collect();
    assert_eq!(consumer.get_reply_code(), codes);
}

#[test]
fn stream_responses_are_framed() {
    let mut a = settings();
    a.protocol = Protocol::TCP;
    a.packet_id = 0x0b05;
    let mut w = EventLoop::new_at(&a, None, 1, 0).unwrap();
    let packet = send(&mut w, 0, 1, 0);
    assert_eq!(((packet[0] as usize) << 8) | packet[1] as usize, packet.len() - 2);
    assert_eq!(&packet[2..4], &[0x0b, 0x05]);
    let _ = w.on_sent_at(SocketStatus::Success, 1);
    let body = response(0x0b05, 0, 3);
    let mut framed = vec![0u8, body.len() as u8];
    framed.extend_from_slice(&body);
    assert!(matches!(w.on_readable_at(0, &framed[..1], 10), Directive::Nothing));
    assert!(matches!(w.on_readable_at(0, &framed[1..9], 20), Directive::Nothing));
    assert_eq!(w.receive_counter(), 0);
    assert_eq!(w.interest(0), Interest::Read);
    let d = w.on_readable_at(0, &framed[9..], 2_000);
    assert!(is_reregister(&d, Interest::Write));
    assert_eq!(w.receive_counter(), 1);
    let (_, consumer) = w.finish();
    let codes: HashMap<u8, u64> = [(3u8, 1u64)].into_iter().collect();
    assert_eq!(consumer.get_reply_code(), codes);
    assert_eq!(consumer.histogram_report().unwrap().min(), 1_999);
}

#[test]
fn whole_messages_are_read_where_asked_for() {
    let mut a = settings();
    a.check_all_message = true;
    let mut w = EventLoop::new_at(&a, None, 1, 0).unwrap();
    let packet = send(&mut w, 0, 1, 0x0015);
    let _ = w.on_sent_at(SocketStatus::Success, 1);
    let mut echo = packet.clone();
    echo[2] |= 0x80;
    echo[3] = (echo[3] & 0xf0) | 3;
    let _ = w.on_readable_at(0, &echo, 5);
    assert_eq!(w.parse_errors(), 0);
    let _ = send(&mut w, 0, 6, 0x0016);
    let _ = w.on_sent_at(SocketStatus::Success, 6);
    let _ = w.on_readable_at(0, &response(0x0016, 0, 0), 7);
    assert_eq!(w.parse_errors(), 1);
    let (_, mut consumer) = w.finish();
    assert_eq!(consumer.receive_total(), 2);
    let asked: HashMap<u16, u64> = [(1u16, 1u64)].into_iter().collect();
    assert_eq!(consumer.get_query(), asked);
    let codes: HashMap<u8, u64> = [(3u8, 1u64)].into_iter().collect();
    assert_eq!(consumer.get_reply_code(), codes);
}

#[test]
fn closed_sockets_end_the_worker() {
    let mut a = settings();
    a.max = 0;
    a.until_stop = 100;
    let mut w = EventLoop::new_at(&a, None, 2, 0).unwrap();
    let _ = send(&mut w, 0, 1, 1);
    w.on_closed(0);
    assert_eq!(w.interest(0), Interest::Closed);
    assert_eq!(w.send_counter(), 0);
    assert!(!w.should_exit_at(2));
    let _ = send(&mut w, 1, 2, 1);
    assert!(matches!(w.on_sent_at(SocketStatus::Close, 3), Directive::Nothing));
    assert_eq!(w.interest(1), Interest::Closed);
    assert!(w.should_exit_at(3));
    w.on_closed(7);
    let (producer, consumer) = w.finish();
    assert_eq!(producer.query_total(), 0);
    assert_eq!(consumer.receive_total(), 0);
    let none = EventLoop::new_at(&settings(), None, 0, 0).unwrap();
    assert!(none.should_exit_at(0));
}

#[test]
fn interval_reports_come_when_due() {
    let mut a = settings();
    a.output_interval = 1;
    a.max = 10;
    let mut w = EventLoop::new_at(&a, None, 1, 10 * SECOND).unwrap();
    assert!(w.interval_report_at(10 * SECOND + 5).is_none());
    let _ = send(&mut w, 0, 10 * SECOND + 6, 1);
    let _ = w.on_sent_at(SocketStatus::Success, 10 * SECOND + 7);
    let _ = w.on_readable_at(0, &response(1, 0, 0), 10 * SECOND + 1_007);
    let (producer, consumer) = w.interval_report_at(11 * SECOND).unwrap();
    assert_eq!(producer.query_total(), 1);
    assert_eq!(producer.send_duration(), Some(SECOND));
    assert_eq!(consumer.receive_total(), 1);
    assert_eq!(consumer.histogram_report().unwrap().count(), 1);
    assert!(consumer.receive_total() <= producer.query_total());
    assert!(w.interval_report_at(11 * SECOND + 1).is_none());
    assert!(w.interval_report_at(12 * SECOND).is_some());
    let mut quiet = EventLoop::new_at(&settings(), None, 1, 0).unwrap();
    assert!(quiet.interval_report_at(u64::MAX).is_none());
}

#[test]
fn received_never_exceeds_sent() {
    let mut a = settings();
    a.max = 50;
    let mut w = EventLoop::new_at(&a, None, 3, 0).unwrap();
    let mut now = 1u64;
    for round in 0..60u16 {
        for socket in 0..3usize {
            now += 10;
            let _ = w.on_readable_at(socket, &response(round, 0, 0), now);
            if let Directive::Send(_) = w.on_writable_with(socket, RateDecision::Disabled, now, round) {
                let outcome = if (round as usize + socket) % 4 == 0 {
                    SocketStatus::Failed
                } else {
                    SocketStatus::Success
                };
                let _ = w.on_sent_at(outcome, now);
            }
            assert!(w.receive_counter() <= w.send_counter());
        }
    }
    let errors = w.parse_errors();
    let (producer, consumer) = w.finish();
    assert!(consumer.receive_total() <= producer.query_total());
    assert!(producer.query_total() <= 50);
    assert!(producer.query_total() > 0);
    let by_code: u64 = consumer.get_reply_code().values().sum();
    assert_eq!(by_code + consumer.parse_error(), consumer.receive_total());
    assert_eq!(consumer.parse_error(), errors);
}

#[test]
fn the_loop_on_the_system_clock() {
    let mut w = EventLoop::new(&settings(), None, 1).unwrap();
    assert!(!w.should_exit());
    let packet = match w.on_writable(0) {
        Directive::Send(data) => data.to_vec(),
        other => panic!("unexpected {:?}", other),
    };
    assert!(is_reregister(&w.on_sent(SocketStatus::Success), Interest::Read));
    let id = ((packet[0] as u16) << 8) | packet[1] as u16;
    assert!(is_reregister(&w.on_readable(0, &response(id, 0, 0)), Interest::Write));
    assert!(w.interval_report().is_none());
    let (producer, consumer) = w.finish();
    assert_eq!(producer.query_total(), 1);
    assert_eq!(consumer.receive_total(), 1);
    assert!(consumer.last_update().unwrap() > 1_500_000_000_000_000_000);
}

#[test]
fn a_hundred_queries_at_a_hundred_per_second_all_answered() {
    let mut a = settings();
    a.qps = 100;
    a.max = 100;
    a.client = 1;
    let start = 1_000 * SECOND;
    let mut w = EventLoop::new_at(&a, None, 1, start).unwrap();
    for i in 0..100u64 {
        let now = start + i * 10_000_000;
        assert!(!w.should_exit_at(now));
        let id = (i * 10 + 1) as u16;
        let packet = match w.on_writable_with(0, RateDecision::Ready, now, id) {
            Directive::Send(data) => data.to_vec(),
            other => panic!("unexpected {:?}", other),
        };
        assert!(is_reregister(&w.on_sent_at(SocketStatus::Success, now), Interest::Read));
        let mut echo = packet[..12].to_vec();
        echo[2] |= 0x80;
        let d = w.on_readable_at(0, &echo, now + 1_000_000);
        assert!(is_reregister(&d, Interest::Write));
    }
    assert!(w.should_exit_at(start + SECOND));
    let (producer, consumer) = w.finish();
    let mut report = RunnerReport::new();
    report.set_producer_report(producer);
    report.set_consumer_report(consumer.clone());
    report.set_histogram_report(consumer);
    let basic = BasicStats::new(&report);
    assert_eq!(basic.query_total, 100);
    assert_eq!(basic.response_total, 100);
    assert_eq!(basic.parse_error, 0);
    assert_eq!(basic.duration, 990_000_000);
    assert_eq!(basic.qps, 101);
    assert_eq!(basic.response_code.len(), 1);
    assert_eq!(basic.response_code[0].key, "No Error");
    assert_eq!(basic.response_code[0].value, 100);
    assert!(basic.p99 < 10_000_000);
    assert!(basic.p99 >= 1_000_000);
    assert_eq!(basic.min_lantency, 1_000_000);
    assert_eq!(basic.max_lantency, 1_000_000);
}

#[test]
fn fifty_stream_queries_answered_with_no_such_domain() {
    let mut a = settings();
    a.protocol = Protocol::TCP;
    a.max = 50;
    a.domain = "a.test".to_string();
    a.qty = "AAAA".to_string();
    let mut w = EventLoop::new_at(&a, None, 1, 0).unwrap();
    let mut now = 0u64;
    while !w.should_exit_at(now) {
        now += 1_000;
        let packet = match w.on_writable_with(0, RateDecision::Disabled, now, 0x1111) {
            Directive::Send(data) => data.to_vec(),
            other => panic!("unexpected {:?}", other),
        };
        let _ = w.on_sent_at(SocketStatus::Success, now);
        let mut answer = vec![0u8, 12];
        answer.extend_from_slice(&packet[2..14]);
        answer[4] |= 0x80;
        answer[5] = (answer[5] & 0xf0) | 3;
        let d = w.on_readable_at(0, &answer, now + 500);
        assert!(is_reregister(&d, Interest::Write));
    }
    let (producer, consumer) = w.finish();
    let mut report = RunnerReport::new();
    report.set_producer_report(producer);
    report.set_consumer_report(consumer.clone());
    report.set_histogram_report(consumer);
    let basic = BasicStats::new(&report);
    assert_eq!(basic.query_total, 50);
    assert_eq!(basic.response_total, 50);
    assert_eq!(basic.response_code.len(), 1);
    assert_eq!(basic.response_code[0].key, "Non-Existent Domain");
    assert_eq!(basic.response_code[0].value, 50);
    let extension = ExtensionStats::new(&report);
    assert_eq!(extension.query_type.len(), 1);
    assert_eq!(extension.query_type[0].key, "AAAA");
    assert_eq!(extension.query_type[0].value, 50);
}

#[test]
fn five_queries_over_https_by_get() {
    let mut a = settings();
    a.protocol = Protocol::DOH;
    a.doh_server = "https://r/dns-query".to_string();
    a.doh_server_method = DoHMethod::Get;
    a.max = 5;
    let mut w = EventLoop::new_at(&a, None, 1, 0).unwrap();
    let mut now = 0u64;
    let mut requests = Vec::new();
    while !w.should_exit_at(now) {
        now += 1_000;
        let (request, packet) = match w.on_writable_with(0, RateDecision::Disabled, now, 0x2221) {
            Directive::Send(data) => (
                doh_request(a.doh_server_method, a.doh_server.as_str(), data),
                data.to_vec(),
            ),
            other => panic!("unexpected {:?}", other),
        };
        assert_eq!(request.method, DoHMethod::Get);
        assert!(request.body.is_empty());
        assert!(request.uri.starts_with("https://r/dns-query?dns="));
        let encoded = &request.uri["https://r/dns-query?dns=".len()..];
        assert!(encoded
            .bytes()
            .all(|b| b.is_ascii_alphanumeric() || b == b'-' || b == b'_'));
        assert_eq!(encoded.len(), (packet.len() * 4 + 2) / 3);
        requests.push(request.uri);
        let _ = w.on_sent_at(SocketStatus::Success, now);
        let mut answer = packet[..12].to_vec();
        answer[2] |= 0x80;
        let _ = w.on_readable_at(0, &answer, now + 10);
    }
    assert_eq!(requests.len(), 5);
    let (producer, consumer) = w.finish();
    assert_eq!(producer.query_total(), 5);
    assert_eq!(consumer.receive_total(), 5);
}

#[test]
fn datagram_buffer_by_mode() {
    let mut a = settings();
    a.edns_size = 1232;
    assert_eq!(receive_buffer_size(&a), 12);
    a.check_all_message = true;
    assert_eq!(receive_buffer_size(&a), 1232);
    a.edns_size = 4096;
    assert_eq!(receive_buffer_size(&a), 4096);
    a.edns_size = 0;
    assert_eq!(receive_buffer_size(&a), 12);
}

#[test]
fn interval_report_carries_the_parse_errors() {
    let mut a = settings();
    a.output_interval = 1;
    a.max = 10;
    let mut w = EventLoop::new_at(&a, None, 1, 0).unwrap();
    let _ = send(&mut w, 0, 1, 1);
    let _ = w.on_sent_at(SocketStatus::Success, 2);
    let _ = w.on_readable_at(0, &[9u8], 3);
    let (producer, consumer) = w.interval_report_at(SECOND).unwrap();
    assert_eq!(producer.query_total(), 1);
    assert_eq!(consumer.receive_total(), 1);
    assert_eq!(consumer.parse_error(), 1);
}
