use snd::utils::arguments::DoHMethod;
use snd::workers::doh::{can_encode, dns_message_media_type, doh_request};

#[test]
fn post_carries_the_packet_as_body() {
    let packet = [0u8, 1, 2, 255];
    let r = doh_request(DoHMethod::Post, "https://r/dns-query", &packet);
    assert_eq!(r.method, DoHMethod::Post);
    assert_eq!(r.uri, "https://r/dns-query");
    assert_eq!(r.body, packet.to_vec());
}

#[test]
fn get_carries_the_packet_in_base64url() {
    let r = doh_request(DoHMethod::Get, "https://r/dns-query", &[0u8, 1, 2]);
    assert_eq!(r.method, DoHMethod::Get);
    assert_eq!(r.uri, "https://r/dns-query?dns=AAEC");
    assert!(r.body.is_empty());
    let r = doh_request(DoHMethod::Get, "https://r/dns-query", &[0xfbu8, 0xff, 0xfe, 0x01]);
    assert_eq!(r.uri, "https://r/dns-query?dns=-__-AQ");
    let r = doh_request(DoHMethod::Get, "x", b"");
    assert_eq!(r.uri, "x?dns=");
}

#[test]
fn long_packets_have_requests_too() {
    let long = vec![0u8; 0x10000];
    assert!(can_encode(long.len()));
    let get = doh_request(DoHMethod::Get, "https://r/dns-query", &long);
    assert_eq!(get.uri.len(), "https://r/dns-query?dns=".len() + 87382);
    let post = doh_request(DoHMethod::Post, "https://r/dns-query", &long);
    assert_eq!(post.body.len(), 0x10000);
}

#[test]
fn the_machine_limits_what_can_be_encoded() {
    assert!(can_encode(0));
    assert!(can_encode(1));
    assert!(can_encode(usize::MAX / 4 * 3));
    assert!(can_encode(usize::MAX / 4 * 3 + 2));
    assert!(!can_encode(usize::MAX / 4 * 3 + 3));
    assert!(!can_encode(usize::MAX));
}

#[test]
fn media_type() {
    assert_eq!(dns_message_media_type(), "application/dns-message");
}
