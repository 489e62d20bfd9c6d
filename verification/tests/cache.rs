use snd::runner::cache::{Cache, CacheError};
use snd::utils::arguments::{Argument, Protocol};
use std::str::FromStr;
use trust_dns_client::op::Message;
use trust_dns_client::rr::{Name, RecordType};

#[test]
fn cache_test_cache() {
    let arg = Argument::default();
    let mut cache = Cache::new(&arg, None).unwrap();
    assert_eq!(cache.len(), 1);
    let (data, _qtype) = cache.build_message();
    let first = data.to_vec();
    match Message::from_vec(first.as_slice()) {
        Ok(v) => assert_eq!(v.query_count(), 1),
        _ => {
            assert!(false);
        }
    }
    let (data, _qtype) = cache.build_message();
    assert_eq!(data.len(), first.len());
}

#[test]
fn template_round_trip_udp() {
    let mut arg = Argument::default();
    arg.domain = "example.com".to_string();
    arg.qty = "AAAA".to_string();
    arg.packet_id = 0x1234;
    let mut cache = Cache::new(&arg, None).unwrap();
    let (data, qtype) = cache.build_message();
    assert_eq!(qtype, 28);
    assert!(data.len() >= 12);
    let message = Message::from_vec(data).unwrap();
    assert_eq!(message.id(), 0x1234);
    assert_eq!(message.queries().len(), 1);
    assert_eq!(message.queries()[0].query_type(), RecordType::AAAA);
    assert_eq!(
        message.queries()[0].name(),
        &Name::from_str("example.com").unwrap()
    );
    assert!(message.recursion_desired());
    assert!(!message.checking_disabled());
}

#[test]
fn template_round_trip_tcp_has_length_prefix() {
    let mut arg = Argument::default();
    arg.domain = "a.test".to_string();
    arg.qty = "A".to_string();
    arg.protocol = Protocol::TCP;
    arg.packet_id = 7;
    let mut cache = Cache::new(&arg, None).unwrap();
    assert_eq!(cache.offset(), 2);
    let (data, qtype) = cache.build_message();
    assert_eq!(qtype, 1);
    assert!(data.len() >= 14);
    let announced = (data[0] as usize) * 256 + data[1] as usize;
    assert_eq!(announced, data.len() - 2);
    assert_eq!(data[2], 0);
    assert_eq!(data[3], 7);
    let message = Message::from_vec(&data[2..]).unwrap();
    assert_eq!(message.id(), 7);
    assert_eq!(message.queries()[0].query_type(), RecordType::A);
    assert_eq!(message.queries()[0].name(), &Name::from_str("a.test").unwrap());
}

#[test]
fn packet_differs_from_domain_text() {
    let arg = Argument::default();
    let packet = Cache::build_packet(b"example.com", 1, &arg).unwrap();
    assert_ne!(packet.as_slice(), b"example.com".as_slice());
    assert_eq!(&packet[0..2], &[0u8, 0u8]);
    let message = Message::from_vec(&packet).unwrap();
    assert_eq!(message.queries()[0].query_type(), RecordType::A);
}

#[test]
fn flags_of_the_settings_reach_the_packet() {
    let mut arg = Argument::default();
    arg.disable_rd = true;
    arg.enable_cd = true;
    arg.enable_dnssec = true;
    arg.edns_size = 1232;
    let packet = Cache::build_packet(b"example.com", 1, &arg).unwrap();
    let message = Message::from_vec(&packet).unwrap();
    assert!(!message.recursion_desired());
    assert!(message.checking_disabled());
    let edns = message.extensions().as_ref().unwrap();
    assert_eq!(edns.max_payload(), 1232);
    assert!(edns.dnssec_ok());
}

#[test]
fn edns_can_be_switched_off() {
    let mut arg = Argument::default();
    arg.disable_edns = true;
    let packet = Cache::build_packet(b"example.com", 1, &arg).unwrap();
    let message = Message::from_vec(&packet).unwrap();
    assert!(message.extensions().is_none());
}

#[test]
fn random_ids_change_between_draws() {
    let mut arg = Argument::default();
    arg.packet_id = 0;
    let mut cache = Cache::new(&arg, None).unwrap();
    let mut ids = Vec::new();
    for _ in 0..32 {
        let (data, _) = cache.build_message();
        ids.push((data[0], data[1]));
    }
    assert!(ids.iter().any(|id| *id != ids[0]));
}

#[test]
fn fixed_id_stays_between_draws() {
    let mut arg = Argument::default();
    arg.packet_id = 0xbeef;
    let mut cache = Cache::new(&arg, None).unwrap();
    for _ in 0..8 {
        let (data, _) = cache.build_message();
        assert_eq!((data[0], data[1]), (0xbe, 0xef));
    }
}

#[test]
fn draw_touches_only_the_id() {
    let mut arg = Argument::default();
    arg.packet_id = 0;
    let mut cache = Cache::new(&arg, None).unwrap();
    let first = cache.build_message_with(0x0102).0.to_vec();
    let second = cache.build_message_with(0xa0b0).0.to_vec();
    assert_eq!(&first[0..2], &[0x01, 0x02]);
    assert_eq!(&second[0..2], &[0xa0, 0xb0]);
    assert_eq!(&first[2..], &second[2..]);
}

#[test]
fn query_file_gives_one_template_per_good_line() {
    let mut arg = Argument::default();
    arg.file = "queries.txt".to_string();
    arg.packet_id = 9;
    let content = b"example.com A\n\nexample.org\texample\n  example.net   MX  \r\nbad.example nope\nlast.example AAAA";
    let templates = Cache::new_from_file(&arg, content);
    let types: Vec<u16> = templates.iter().map(|t| t.1).collect();
    assert_eq!(types, vec![1, 15, 28]);
    let names: Vec<Name> = templates
        .iter()
        .map(|t| Message::from_vec(&t.0).unwrap().queries()[0].name().clone())
        .collect();
    assert_eq!(
        names,
        vec![
            Name::from_str("example.com").unwrap(),
            Name::from_str("example.net").unwrap(),
            Name::from_str("last.example").unwrap(),
        ]
    );
}

#[test]
fn query_file_type_defaults_to_a() {
    let mut arg = Argument::default();
    arg.file = "queries.txt".to_string();
    let templates = Cache::new_from_file(&arg, b"example.com\n");
    assert_eq!(templates.len(), 1);
    assert_eq!(templates[0].1, 1);
}

#[test]
fn cache_walks_the_file_in_turn() {
    let mut arg = Argument::default();
    arg.file = "queries.txt".to_string();
    arg.packet_id = 1;
    let content = b"a.example A\nb.example NS\nc.example MX\n";
    let mut cache = Cache::new(&arg, Some(content.as_slice())).unwrap();
    assert_eq!(cache.len(), 3);
    let mut seen = Vec::new();
    for _ in 0..6 {
        assert_eq!(cache.next_type(), {
            let t = cache.next_type();
            t
        });
        seen.push(cache.build_message().1);
    }
    assert_eq!(seen, vec![2, 15, 1, 2, 15, 1]);
}

#[test]
fn unknown_type_is_a_type_parse_error() {
    let mut arg = Argument::default();
    arg.qty = "NOPE".to_string();
    assert_eq!(
        Cache::new(&arg, None).err(),
        Some(CacheError::TypeParseError)
    );
    arg.qty = "a".to_string();
    assert_eq!(
        Cache::new(&arg, None).err(),
        Some(CacheError::TypeParseError)
    );
}

#[test]
fn bad_domain_is_a_domain_parse_error() {
    let mut arg = Argument::default();
    arg.qty = "A".to_string();
    arg.domain = format!("{}.example", "a".repeat(64));
    assert_eq!(
        Cache::new(&arg, None).err(),
        Some(CacheError::DomainParseError)
    );
    assert_eq!(
        Cache::new_from_argument(&arg).err(),
        Some(CacheError::DomainParseError)
    );
}

#[test]
fn missing_or_empty_file_is_a_file_read_error() {
    let mut arg = Argument::default();
    arg.file = "queries.txt".to_string();
    assert_eq!(
        Cache::new(&arg, None).err(),
        Some(CacheError::FileReadError)
    );
    assert_eq!(
        Cache::new(&arg, Some(b"\n  \n".as_slice())).err(),
        Some(CacheError::FileReadError)
    );
}
