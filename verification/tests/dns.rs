use easytier::clock::{Instant, NANOS_PER_SEC};
use easytier::dns::exit_dns_relay::{
    breaker_allows, breaker_record_failure, breaker_record_success, can_reach_tunnel_dns,
    describe_exit_nodes, frame_tcp_query, is_truncated, lookup_cache, non_aaaa_answers,
    response_ttl, select_online_exit_ip, store_cache, store_for, strip_aaaa_records,
    tcp_frame_len, ttl_of_message, BreakerState, DnsCache, DnsMessage, ExitDnsRelay, QueryStep,
    DNS_CACHE_MAX_ENTRIES,
};
use easytier::dns::exit_dns_server::{
    bind_error, dns_zone, refresh_zone, zone_key, zone_key_from, ExitDnsServer, ZoneHost,
};
use easytier::dns::forward_rpc::{
    fallback_upstreams, resolve_dns_via_exit_node, select_online_exit_node, upstream_error_text,
    upstream_name_servers, ExitNodeStatus, MagicDnsForwardService, ResolveDnsResponse,
    UpstreamFailure, UpstreamRelay,
};
use easytier::net::{IpAddr, Ipv4Addr, Ipv6Addr, SocketAddr};
use hickory_proto::op::Message;

fn at(secs: u64) -> Instant {
    Instant { nanos: secs * NANOS_PER_SEC }
}

/// The question `a.example. IN A` in wire format.
fn question() -> Vec<u8> {
    let mut q = vec![1, b'a', 7];
    q.extend_from_slice(b"example");
    q.extend_from_slice(&[0, 0, 1, 0, 1]);
    q
}

fn header(id: u16, flags: u16, answers: u16) -> Vec<u8> {
    let mut h = Vec::new();
    for n in [id, flags, 1, answers, 0, 0] {
        h.extend_from_slice(&n.to_be_bytes());
    }
    h
}

fn query(id: u16) -> Vec<u8> {
    let mut m = header(id, 0x0100, 0);
    m.extend_from_slice(&question());
    m
}

/// An answer: each record is a type, a time to live and its data.
fn response(id: u16, rcode: u16, records: &[(u16, u32, &[u8])]) -> Vec<u8> {
    let mut m = header(id, 0x8180 | rcode, records.len() as u16);
    m.extend_from_slice(&question());
    for (kind, ttl, data) in records {
        m.extend_from_slice(&[0xc0, 12]);
        m.extend_from_slice(&kind.to_be_bytes());
        m.extend_from_slice(&1u16.to_be_bytes());
        m.extend_from_slice(&ttl.to_be_bytes());
        m.extend_from_slice(&(data.len() as u16).to_be_bytes());
        m.extend_from_slice(data);
    }
    m
}

#[test]
fn the_breaker_pauses_after_three_failures() {
    let mut st = BreakerState::new();
    breaker_record_failure(&mut st, at(1));
    breaker_record_failure(&mut st, at(2));
    assert!(breaker_allows(&mut st, at(2)));
    breaker_record_failure(&mut st, at(3));
    assert!(!breaker_allows(&mut st, at(3)));
    assert!(!breaker_allows(&mut st, at(32)));
    assert!(breaker_allows(&mut st, at(33)));
    assert_eq!(st.consecutive_failures, 0);
    breaker_record_failure(&mut st, at(34));
    breaker_record_failure(&mut st, at(34));
    breaker_record_success(&mut st);
    breaker_record_failure(&mut st, at(35));
    assert!(breaker_allows(&mut st, at(35)));
}

#[test]
fn answers_are_kept_for_their_shortest_time() {
    let a: &[u8] = &[1, 2, 3, 4];
    assert_eq!(response_ttl(&response(1, 0, &[(1, 100, a), (1, 60, a)])), 60);
    assert_eq!(response_ttl(&response(1, 0, &[(1, 1, a)])), 5);
    assert_eq!(response_ttl(&response(1, 0, &[(1, 9_999, a)])), 300);
    assert_eq!(response_ttl(&response(1, 0, &[])), 30);
    assert_eq!(response_ttl(&response(1, 3, &[])), 0);
    assert_eq!(response_ttl(&response(1, 2, &[(1, 60, a)])), 0);
    assert_eq!(response_ttl(b"no message"), 30);

    let msg = DnsMessage { response_code: 0, answers: vec![(28, 70), (1, 80)] };
    assert_eq!(non_aaaa_answers(&msg), vec![1]);
    assert_eq!(ttl_of_message(&Some(msg)), 70);
    assert_eq!(ttl_of_message(&None), 30);
}

#[test]
fn ipv6_addresses_are_taken_out() {
    let a: &[u8] = &[1, 2, 3, 4];
    let aaaa: &[u8] = &[0x20, 1, 0, 0, 0, 0, 0, 0, 0, 0, 0, 0, 0, 0, 0, 1];
    let mixed = response(7, 0, &[(28, 60, aaaa), (1, 60, a), (28, 60, aaaa)]);
    let stripped = strip_aaaa_records(&mixed).unwrap();
    assert_ne!(stripped, mixed);
    let msg = Message::from_vec(&stripped).unwrap();
    assert_eq!(msg.id(), 7);
    assert_eq!(msg.answers().len(), 1);
    assert_eq!(u16::from(msg.answers()[0].record_type()), 1);
    assert_eq!(msg.answers()[0].ttl(), 60);
    assert_eq!(strip_aaaa_records(&response(7, 0, &[(1, 60, a)])), None);
    assert_eq!(strip_aaaa_records(&response(7, 0, &[])), None);
    assert_eq!(strip_aaaa_records(b"xx"), None);
    let only = strip_aaaa_records(&response(7, 0, &[(28, 60, aaaa)])).unwrap();
    assert!(Message::from_vec(&only).unwrap().answers().is_empty());
}

#[test]
fn stored_answers_are_found_under_any_id() {
    let mut cache = DnsCache::new();
    let a: &[u8] = &[1, 2, 3, 4];
    let answer = response(1, 0, &[(1, 60, a)]);
    assert_eq!(lookup_cache(&mut cache, &query(1), at(0)), None);
    store_cache(&mut cache, &query(1), &answer, at(10));
    let found = lookup_cache(&mut cache, &query(0xbeef), at(69)).unwrap();
    assert_eq!(&found[..2], &[0xbe, 0xef]);
    assert_eq!(&found[2..], &answer[2..]);
    assert_eq!(lookup_cache(&mut cache, &query(1), at(70)), None);
    assert!(cache.entries.is_empty());
    // errors are not kept
    store_cache(&mut cache, &query(1), &response(1, 3, &[]), at(10));
    assert_eq!(lookup_cache(&mut cache, &query(1), at(10)), None);
    // neither are answers without a header, nor those to queries without content
    store_for(&mut cache, &query(1), &[0; 11], 60, at(10));
    store_for(&mut cache, &[1, 2], &answer, 60, at(10));
    assert!(cache.entries.is_empty());
}

#[test]
fn a_full_cache_starts_anew() {
    let mut cache = DnsCache::new();
    let answer = response(1, 0, &[]);
    for i in 0..DNS_CACHE_MAX_ENTRIES as u32 {
        let mut q = vec![0, 0];
        q.extend_from_slice(&i.to_be_bytes());
        store_for(&mut cache, &q, &answer, 300, at(1));
    }
    assert_eq!(cache.entries.len(), 512);
    store_for(&mut cache, b"00another", &answer, 300, at(2));
    assert!(lookup_cache(&mut cache, b"11another", at(3)).is_some());
    assert!(cache.entries.len() <= 512);
}

#[test]
fn queries_go_to_the_exit_node_while_it_answers() {
    let mut relay = ExitDnsRelay::new();
    let a: &[u8] = &[1, 2, 3, 4];
    assert!(matches!(
        relay.resolve_external_query(false, &query(1), at(1)),
        QueryStep::UseLocal
    ));
    assert!(matches!(
        relay.resolve_external_query(true, &query(1), at(1)),
        QueryStep::AskExit
    ));
    let answer = response(1, 0, &[(1, 60, a)]);
    assert_eq!(
        relay.finish_query(&query(1), Some(answer.clone()), true, at(1)),
        Some(answer.clone())
    );
    match relay.resolve_external_query(true, &query(2), at(2)) {
        QueryStep::Answer(bytes) => assert_eq!(&bytes[2..], &answer[2..]),
        _ => panic!("the answer is known"),
    }
    for t in 100..103 {
        assert_eq!(relay.finish_query(&query(9), None, true, at(t)), None);
    }
    assert!(matches!(
        relay.resolve_external_query(true, &query(9), at(103)),
        QueryStep::UseLocal
    ));
    assert!(matches!(
        relay.resolve_external_query(true, &query(9), at(132)),
        QueryStep::AskExit
    ));
}

#[test]
fn without_ipv6_no_ipv6_address_is_given() {
    let mut relay = ExitDnsRelay::new();
    let a: &[u8] = &[1, 2, 3, 4];
    let aaaa: &[u8] = &[0; 16];
    let answer = response(1, 0, &[(28, 60, aaaa), (1, 60, a)]);
    let given = relay.finish_query(&query(1), Some(answer.clone()), false, at(1)).unwrap();
    assert_eq!(Message::from_vec(&given).unwrap().answers().len(), 1);
    let given = relay.finish_query(&query(1), Some(answer.clone()), true, at(1)).unwrap();
    assert_eq!(given, answer);
}

#[test]
fn exit_nodes_are_asked_over_ipv4() {
    let a = IpAddr::V4(Ipv4Addr::new(10, 0, 0, 1));
    let b = IpAddr::V4(Ipv4Addr::new(10, 0, 0, 2));
    let c = IpAddr::V6(Ipv6Addr { bits: 1 });
    assert_eq!(select_online_exit_ip(&vec![c, a, b], &vec![true, false, true]), Some(b));
    assert_eq!(select_online_exit_ip(&vec![a, b], &vec![false, false]), None);
    assert_eq!(
        describe_exit_nodes(&vec![a, b], &vec![true, false]),
        vec![(a, true), (b, false)]
    );
    assert!(can_reach_tunnel_dns("linux", "gnu"));
    assert!(!can_reach_tunnel_dns("android", ""));
    assert!(!can_reach_tunnel_dns("linux", "ohos"));
}

#[test]
fn frames_of_dns_over_tcp() {
    assert_eq!(frame_tcp_query(b"abc"), vec![0, 3, b'a', b'b', b'c']);
    assert_eq!(&frame_tcp_query(&vec![0; 300])[..2], &[1, 44]);
    assert_eq!(tcp_frame_len(1, 44), 300);
    assert!(is_truncated(&[0, 0, 0x83, 0]));
    assert!(!is_truncated(&[0, 0, 0x81, 0]));
    assert!(!is_truncated(&[0, 0, 0x83]));
}

#[test]
fn upstream_servers_are_tried_in_turn() {
    let own = SocketAddr::new_v4(Ipv4Addr::new(9, 9, 9, 9), 53);
    assert_eq!(upstream_name_servers(&vec![own]), vec![own]);
    assert_eq!(upstream_name_servers(&vec![]), fallback_upstreams());
    assert!(!fallback_upstreams().is_empty());
    assert_eq!(
        UpstreamRelay::new(vec![]).unwrap_err(),
        "no upstream dns server available"
    );
    let mut relay = UpstreamRelay::new(vec!["a:53".to_string(), "b:53".to_string()]).unwrap();
    assert_eq!(relay.next(), Some(0));
    relay.note_failure(UpstreamFailure::Failed("refused".to_string()));
    assert_eq!(
        relay.last_error,
        upstream_error_text("a:53", &UpstreamFailure::Failed("refused".to_string()))
    );
    assert_eq!(relay.next(), Some(1));
    relay.note_failure(UpstreamFailure::Timeout);
    assert_eq!(relay.next(), None);
    assert_eq!(relay.last_error, upstream_error_text("b:53", &UpstreamFailure::Timeout));
    assert!(relay.last_error.contains("b:53"));
}

#[test]
fn the_service_answers_or_says_why_not() {
    let service = MagicDnsForwardService;
    assert_eq!(service.refuse_query(b"").unwrap().error, "empty dns query");
    assert!(service.refuse_query(b"x").is_none());
    let ok = service.resolve_dns(Ok(vec![1, 2]));
    assert_eq!(resolve_dns_via_exit_node(Some(ok)), Some(vec![1, 2]));
    let failed = service.resolve_dns(Err("late".to_string()));
    assert_eq!(failed.error, "late");
    assert_eq!(resolve_dns_via_exit_node(Some(failed)), None);
    assert_eq!(resolve_dns_via_exit_node(None), None);
    let empty = ResolveDnsResponse { response: vec![], error: String::new() };
    assert_eq!(resolve_dns_via_exit_node(Some(empty)), None);
}

#[test]
fn the_first_exit_node_that_is_connected_is_asked() {
    let node = |peer_id: Option<u32>, has_peer: bool, directly_connected: bool| ExitNodeStatus {
        peer_id,
        has_peer,
        directly_connected,
    };
    assert_eq!(select_online_exit_node(&vec![]), None);
    assert_eq!(
        select_online_exit_node(&vec![node(None, true, true), node(Some(2), true, true)]),
        Some(2)
    );
    assert_eq!(select_online_exit_node(&vec![node(Some(1), false, false)]), None);
}

#[test]
fn the_server_of_the_exit_node() {
    assert_eq!(dns_zone(" \t"), "et.net.");
    assert_eq!(dns_zone("corp.example."), "corp.example.");
    assert_eq!(zone_key("ET.Net.").unwrap(), "et.net.");
    assert_eq!(zone_key_from("z", Err("bad".to_string())).unwrap_err(), "invalid zone z: bad");
    let long = "a".repeat(64);
    assert!(zone_key(&long).unwrap_err().starts_with("invalid zone a"));

    let tun = Ipv4Addr::new(10, 144, 144, 1);
    let server = ExitDnsServer::start("", tun, vec![]);
    assert_eq!(server.listen_addr(), SocketAddr::new_v4(tun, 53));
    assert_eq!(server.listen_text, "10.144.144.1:53");
    assert_eq!(
        server.excluded_forward_nameservers,
        vec![IpAddr::V4(tun), IpAddr::V4(Ipv4Addr::new(100, 100, 100, 101))]
    );
    assert_eq!(server.fallback_forward_upstreams, fallback_upstreams());
    assert_eq!(
        bind_error(&server, "in use"),
        "exit dns server failed to bind 10.144.144.1:53: in use"
    );
    let own = ZoneHost { hostname: "me".to_string(), ipv4_addr: Some(tun) };
    let other = ZoneHost { hostname: "you".to_string(), ipv4_addr: None };
    let hosts = refresh_zone(vec![other], own);
    assert_eq!(hosts.len(), 2);
    assert_eq!(hosts[1].hostname, "me");
}
