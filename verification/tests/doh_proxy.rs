use hickory_proto::op::{Message, ResponseCode};
use hickory_proto::rr::rdata::A;
use hickory_proto::rr::{Name, RData, Record};
use hickory_proto::serialize::binary::BinEncodable;
use homelab::doh::{
    accept_reply_body, cache_capacity, cache_key, cache_lifetime, calculate_ttl, check_reply_head, handler_step,
    is_https, Config, ConfigError, DnsResponse, DohError, Failover, HandlerAction, HandlerEvent,
};

fn record(name: &str, ttl: u32) -> Record {
    Record::from_rdata(Name::from_ascii(name).unwrap(), ttl, RData::A(A::new(127, 0, 0, 1)))
}

fn decoded(msg: &Message) -> DnsResponse {
    accept_reply_body(&msg.to_bytes().unwrap()).unwrap()
}

fn config(servers: &[&str]) -> Config {
    Config {
        listen_addr: "0.0.0.0:53".to_string(),
        doh_servers: servers.iter().map(|s| s.to_string()).collect(),
        timeout_secs: 5,
        cache_size: 10000,
        verbose: false,
    }
}

#[test]
fn calculate_ttl_uses_minimum_across_sections() {
    let mut msg = Message::new();
    msg.add_answer(record("a.example.", 600));
    msg.add_name_server(record("ns.example.", 120));
    assert_eq!(calculate_ttl(&decoded(&msg)), 120);
}

#[test]
fn calculate_ttl_caps_at_one_hour() {
    let mut msg = Message::new();
    msg.add_answer(record("a.example.", 86400));
    assert_eq!(calculate_ttl(&decoded(&msg)), 3600);
}

#[test]
fn calculate_ttl_default_when_no_records() {
    let msg = Message::new();
    assert_eq!(calculate_ttl(&decoded(&msg)), 300);
}

#[test]
fn calculate_ttl_ignores_additional_section() {
    let mut msg = Message::new();
    msg.add_answer(record("a.example.", 300));
    msg.add_additional(record(".", 0));
    assert_eq!(calculate_ttl(&decoded(&msg)), 300);
}

#[test]
fn decoded_reply_keeps_code_and_ttls() {
    let mut msg = Message::new();
    msg.set_response_code(ResponseCode::NXDomain);
    msg.add_answer(record("a.example.", 60));
    msg.add_answer(record("b.example.", 30));
    let d = decoded(&msg);
    assert_eq!(d.rcode, 3);
    assert_eq!(d.answer_ttls, vec![60, 30]);
    assert!(d.authority_ttls.is_empty());
    assert_eq!(d.message.answer_count(), 2);
}

#[test]
fn only_successful_replies_are_cached() {
    let mut ok = Message::new();
    ok.add_answer(record("a.example.", 300));
    assert_eq!(cache_lifetime(&decoded(&ok)), Some(300));
    let mut nx = Message::new();
    nx.set_response_code(ResponseCode::NXDomain);
    assert_eq!(cache_lifetime(&decoded(&nx)), Some(300));
    let mut fail = Message::new();
    fail.set_response_code(ResponseCode::ServFail);
    fail.add_answer(record("a.example.", 300));
    assert_eq!(cache_lifetime(&decoded(&fail)), None);
    let mut zero = Message::new();
    zero.add_answer(record("a.example.", 0));
    assert_eq!(cache_lifetime(&decoded(&zero)), None);
}

#[test]
fn reply_size_limit() {
    match accept_reply_body(&vec![0u8; 65536]) {
        Err(e) => {
            assert!(matches!(e, DohError::TooLarge { len: 65536 }));
            assert!(e.message().contains("too large"));
            assert_eq!(e.message(), "DoH response too large: 65536 bytes (max 65535)");
        }
        Ok(_) => panic!("an oversized reply was accepted"),
    }
    assert!(matches!(accept_reply_body(&[1u8, 2, 3]), Err(DohError::Decode(_))));
    assert!(matches!(check_reply_head(200, "OK", Some(65536)), Err(DohError::TooLarge { len: 65536 })));
    assert!(check_reply_head(200, "OK", Some(65535)).is_ok());
    assert!(check_reply_head(204, "No Content", None).is_ok());
}

#[test]
fn failed_status_names_the_code() {
    let e = check_reply_head(503, "Service Unavailable", Some(10)).unwrap_err();
    assert_eq!(e.message(), "DoH server returned status: 503 Service Unavailable");
    assert!(e.message().contains("503"));
    assert!(check_reply_head(302, "Found", None).is_err());
}

#[test]
fn servers_must_use_https() {
    assert!(config(&["https://1.1.1.1/dns-query", "HTTPS://8.8.8.8/dns-query"]).validate_doh_servers().is_ok());
    match config(&[]).validate_doh_servers() {
        Err(e) => {
            assert!(matches!(e, ConfigError::NoServers));
            assert_eq!(e.message(), "No DoH upstream servers provided. Use -s to specify at least one.");
        }
        Ok(()) => panic!("an empty list was accepted"),
    }
    match config(&["https://a/", "http://b/", "ftp://c/"]).validate_doh_servers() {
        Err(ConfigError::NotHttps(url)) => assert_eq!(url, "http://b/"),
        _ => panic!("a plain HTTP server was accepted"),
    }
    let e = ConfigError::NotHttps("http://x".to_string());
    assert_eq!(
        e.message(),
        "DoH server URL must use HTTPS: http://x\nHint: DNS-over-HTTPS requires TLS. Use a URL like https://1.1.1.1/dns-query"
    );
    assert!(is_https("https://x"));
    assert!(!is_https("HTTPS://x"));
    assert!(!is_https("http://x"));
}

#[test]
fn cache_key_lowercases_the_name() {
    assert_eq!(
        cache_key("WWW.Example.COM.", 1, 1, true),
        ("www.example.com.".to_string(), 1, 1, true)
    );
}

#[test]
fn failover_tries_each_server_once() {
    let mut f = Failover::new(1, 3);
    let mut order = Vec::new();
    while let Some(k) = f.next_server() {
        order.push(k);
        f.record_failure(DohError::Transport(format!("server {} down", k)));
    }
    assert_eq!(order, vec![1, 2, 0]);
    assert_eq!(f.into_error().message(), "server 0 down");
    let f = Failover::new(7, 3);
    assert_eq!(f.next_server(), Some(1));
    let empty = Failover::new(0, 0);
    assert_eq!(empty.next_server(), None);
    assert_eq!(empty.into_error().message(), "No DoH servers available");
}

#[test]
fn handler_decisions() {
    assert_eq!(handler_step(HandlerEvent::Received { has_query: false }), HandlerAction::ReplyError(1));
    assert_eq!(handler_step(HandlerEvent::Received { has_query: true }), HandlerAction::Forward);
    assert_eq!(handler_step(HandlerEvent::Upstream { ok: false }), HandlerAction::ReplyError(2));
    assert_eq!(handler_step(HandlerEvent::Upstream { ok: true }), HandlerAction::SendAnswer);
    assert_eq!(handler_step(HandlerEvent::Sent { ok: false }), HandlerAction::ReplyError(2));
    assert_eq!(handler_step(HandlerEvent::Sent { ok: true }), HandlerAction::Finish);
}

#[test]
fn largest_ttl_is_capped_not_defaulted() {
    let mut msg = Message::new();
    msg.add_answer(record("a.example.", u32::MAX));
    assert_eq!(calculate_ttl(&decoded(&msg)), 3600);
    let mut one = Message::new();
    one.add_name_server(record("ns.example.", 42));
    assert_eq!(calculate_ttl(&decoded(&one)), 42);
}

#[test]
fn cache_size_zero_disables_cache() {
    assert_eq!(cache_capacity(0), None);
    assert_eq!(cache_capacity(10000), Some(10000));
}
