use snd::utils::arguments::{
    parse_ip, parse_server, Argument, ArgumentError, DoHMethod, Protocol,
};
use snd::utils::utils::CpuModeError;

fn valid() -> Argument {
    let mut a = Argument::default();
    a.domain = "example.com".to_string();
    a.qty = "A".to_string();
    a.max = 100;
    a.bind_cpu = "0".to_string();
    a
}

#[test]
fn protocol_names() {
    assert_eq!(Protocol::from_text("UDP"), Some(Protocol::UDP));
    assert_eq!(Protocol::from_text("tcp"), Some(Protocol::TCP));
    assert_eq!(Protocol::from_text("DoH"), Some(Protocol::DOH));
    assert_eq!(Protocol::from_text("dot"), Some(Protocol::DOT));
    assert_eq!(Protocol::from_text("quic"), None);
    assert_eq!(Protocol::from_text(""), None);
    assert_eq!(Protocol::default(), Protocol::UDP);
    assert!(Protocol::TCP.length_prefixed());
    assert!(Protocol::DOT.length_prefixed());
    assert!(!Protocol::UDP.length_prefixed());
    assert!(!Protocol::DOH.length_prefixed());
}

#[test]
fn doh_method_names() {
    assert_eq!(DoHMethod::from_text("GET"), Some(DoHMethod::Get));
    assert_eq!(DoHMethod::from_text("post"), Some(DoHMethod::Post));
    assert_eq!(DoHMethod::from_text("PUT"), None);
    assert_eq!(DoHMethod::default(), DoHMethod::Get);
}

#[test]
fn default_settings() {
    let a = Argument::default();
    assert_eq!(a.server, "8.8.8.8");
    assert_eq!(a.port, 53);
    assert_eq!(a.qps, 10);
    assert_eq!(a.max, 100);
    assert_eq!(a.client, 1);
    assert_eq!(a.domain, "google.com");
    assert_eq!(a.qty, "NS");
    assert_eq!(a.bind_cpu, "random");
    assert_eq!(a.output, "stdout");
    assert_eq!(a.doh_server, "");
    assert_eq!(a.source, "0.0.0.0");
    let b = a.clone();
    assert_eq!(b.domain, a.domain);
    assert_eq!(b.max, a.max);
}

#[test]
fn valid_settings_pass() {
    let mut a = valid();
    assert_eq!(a.validate_with(false, 8, &vec![0, 1], 0), Ok(()));
    assert_eq!(a.client, 1);
    let mut b = valid();
    b.client = 0;
    assert_eq!(b.validate_with(false, 8, &vec![0, 1], 0), Ok(()));
    assert_eq!(b.client, 8);
    let mut c = valid();
    c.file = "queries.txt".to_string();
    c.domain = String::new();
    c.output = "Report.YAML".to_string();
    assert_eq!(c.validate_with(true, 8, &vec![0, 1], 0), Ok(()));
}

#[test]
fn missing_stop_condition_is_rejected() {
    let mut a = valid();
    a.max = 0;
    a.until_stop = 0;
    assert_eq!(
        a.validate_with(false, 8, &vec![0, 1], 0),
        Err(ArgumentError::MissingStopCondition)
    );
    let mut b = valid();
    b.max = 0;
    b.until_stop = 0;
    assert!(b.validate(false).is_err());
    let mut c = valid();
    c.max = 0;
    c.until_stop = 2;
    assert_eq!(c.validate_with(false, 8, &vec![0, 1], 0), Ok(()));
}

#[test]
fn each_reason_for_refusal() {
    let cores = vec![0usize, 1];
    let mut a = valid();
    a.domain = format!("{}.example", "a".repeat(64));
    assert_eq!(a.validate_with(false, 8, &cores, 0), Err(ArgumentError::DomainParse));
    let mut a = valid();
    a.qty = "NOPE".to_string();
    assert_eq!(a.validate_with(false, 8, &cores, 0), Err(ArgumentError::TypeParse));
    let mut a = valid();
    a.file = "queries.txt".to_string();
    assert_eq!(a.validate_with(false, 8, &cores, 0), Err(ArgumentError::FileNotFound));
    let mut a = valid();
    a.domain = String::new();
    assert_eq!(a.validate_with(false, 8, &cores, 0), Err(ArgumentError::MissingQuery));
    let mut a = valid();
    a.bind_cpu = "7".to_string();
    a.client = 0;
    assert_eq!(
        a.validate_with(false, 8, &cores, 0),
        Err(ArgumentError::CpuMode(CpuModeError::UnknownCore))
    );
    assert_eq!(a.client, 8);
    let mut a = valid();
    a.bind_cpu = "zero".to_string();
    assert_eq!(
        a.validate_with(false, 8, &cores, 0),
        Err(ArgumentError::CpuMode(CpuModeError::ParseNumber))
    );
    let mut a = valid();
    assert_eq!(
        a.validate_with(false, 8, &vec![], 0),
        Err(ArgumentError::CpuMode(CpuModeError::NoCores))
    );
    let mut a = valid();
    a.output = "report.txt".to_string();
    assert_eq!(a.validate_with(false, 8, &cores, 0), Err(ArgumentError::OutputTarget));
}

#[test]
fn validate_on_this_machine() {
    let mut a = valid();
    a.client = 0;
    assert_eq!(a.validate(false), Ok(()));
    assert!(a.client >= 1);
    let mut b = valid();
    b.bind_cpu = "all".to_string();
    assert_eq!(b.validate(false), Ok(()));
}

#[test]
fn server_is_an_address_or_a_name() {
    assert_eq!(parse_server("8.8.8.8"), Ok("8.8.8.8".to_string()));
    assert_eq!(parse_server("::1"), Ok("::1".to_string()));
    assert_eq!(parse_server("dns.example"), Ok("dns.example".to_string()));
    let long = format!("{}.example", "a".repeat(64));
    assert_eq!(parse_server(&long), Err(ArgumentError::ServerParse));
    assert_eq!(parse_ip("0.0.0.0"), Ok("0.0.0.0".to_string()));
    assert_eq!(parse_ip("fe80::1"), Ok("fe80::1".to_string()));
    assert_eq!(parse_ip("256.1.1.1"), Err(ArgumentError::SourceParse));
    assert_eq!(parse_ip("example.com"), Err(ArgumentError::SourceParse));
}

#[test]
fn names_parse_like_text() {
    assert_eq!("udp".parse::<Protocol>(), Ok(Protocol::UDP));
    assert_eq!("DOT".parse::<Protocol>(), Ok(Protocol::DOT));
    assert_eq!(
        "sctp".parse::<Protocol>(),
        Err("protocol sctp not valid".to_string())
    );
    assert_eq!("".parse::<Protocol>(), Err("protocol  not valid".to_string()));
    assert_eq!("Post".parse::<DoHMethod>(), Ok(DoHMethod::Post));
    assert_eq!("get".parse::<DoHMethod>(), Ok(DoHMethod::Get));
    assert_eq!(
        "HEAD".parse::<DoHMethod>(),
        Err("doh method HEAD not valid".to_string())
    );
}
