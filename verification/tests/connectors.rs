use easytier::clock::{Duration, Instant, NANOS_PER_MILLI, NANOS_PER_SEC};
use easytier::connector::backoff::{
    apply_backoff_jitter, backoff_base_delay, backoff_delay, BackoffTable,
    RECONN_BACKOFF_INITIAL_SECS, RECONN_BACKOFF_JITTER_PERCENT, RECONN_BACKOFF_MAX_SECS,
};
use easytier::connector::manual::{
    begin_stage, ip_version_name, ip_versions, is_tried_without_address, reconnect_timeout,
    reconnect_timeout_error, remaining_budget, stage_name, AttemptNote, ConnectorError,
    ConnectorStatus, ManualConnectorManager, ReconnectAttempt, ReconnectStage,
};
use easytier::net::{IpAddr, Ipv4Addr, Ipv6Addr};
use easytier::url::{PeerUrl, UrlHost};
use easytier::wireguard::connector::IpVersion;

#[test]
fn backoff_base_delay_follows_exponential_sequence_with_cap() {
    let seq: Vec<u64> = (1..=8).map(|n| backoff_base_delay(n).as_secs()).collect();
    assert_eq!(seq, vec![2, 4, 8, 16, 32, 60, 60, 60]);

    assert_eq!(
        backoff_base_delay(0),
        Duration::from_secs(RECONN_BACKOFF_INITIAL_SECS)
    );
    assert_eq!(
        backoff_base_delay(u32::MAX),
        Duration::from_secs(RECONN_BACKOFF_MAX_SECS)
    );
}

#[test]
fn backoff_jitter_stays_within_20_percent() {
    for fail_count in 1..=7 {
        let base = backoff_base_delay(fail_count);
        let base_ms = base.as_millis() as u64;
        let span_ms = base_ms * RECONN_BACKOFF_JITTER_PERCENT / 100;
        let low = base_ms - span_ms;
        let high = base_ms + span_ms;
        let mut hit_low = false;
        let mut hit_high = false;
        for jitter in 0..=(span_ms * 2 + 1) {
            let ms = apply_backoff_jitter(base, jitter).as_millis() as u64;
            assert!(
                ms >= low && ms <= high,
                "fail_count {} jitter {} out of range: {}",
                fail_count,
                jitter,
                ms
            );
            hit_low |= ms == low;
            hit_high |= ms == high;
        }
        assert!(hit_low && hit_high, "jitter range not fully covered");
    }

    assert_eq!(
        apply_backoff_jitter(Duration::from_millis(3), 7),
        Duration::from_millis(3)
    );
}

fn t0() -> Instant {
    Instant { nanos: 1_000 * NANOS_PER_SEC }
}

fn later(t: Instant, millis: u64) -> Instant {
    t.after(Duration::from_millis(millis))
}

#[test]
fn backoff_resets_after_success() {
    let mut table = BackoffTable::new();
    let url = PeerUrl::parse("wg://backoff-reset.example.com:11010").unwrap().text;
    let t0 = t0();

    let (n1, d1) = table.record_failure(&url, t0);
    let (n2, _) = table.record_failure(&url, later(t0, 3_000));
    let t2 = later(t0, 6_000);
    let (n3, _) = table.record_failure(&url, t2);
    assert_eq!((n1, n2, n3), (1, 2, 3));
    assert!(d1.nanos >= 1600 * NANOS_PER_MILLI && d1.nanos <= 2400 * NANOS_PER_MILLI);

    assert!(!table.should_attempt(&url, later(t2, 1)));
    assert!(table.should_attempt(&url, later(t2, backoff_base_delay(3).as_millis() * 2)));
    assert_eq!(table.pending(&url, t2).unwrap().0, 3);

    assert_eq!(table.record_success(&url), Some(3));
    assert_eq!(table.pending(&url, t2), None);
    assert!(table.should_attempt(&url, later(t2, 1)));
    assert_eq!(table.record_success(&url), None);

    let (n4, d4) = table.record_failure(&url, t2);
    assert_eq!(n4, 1);
    assert!(d4.nanos >= 1600 * NANOS_PER_MILLI && d4.nanos <= 2400 * NANOS_PER_MILLI);
}

#[test]
fn backoff_is_isolated_per_uri() {
    let mut table = BackoffTable::new();
    let a = PeerUrl::parse("wg://a.example.com:11010").unwrap().text;
    let b = PeerUrl::parse("wg://b.example.com:11010").unwrap().text;
    let c = PeerUrl::parse("wg://c.example.com:11010").unwrap().text;
    let t0 = t0();

    for _ in 0..5 {
        table.record_failure(&a, t0);
    }
    table.record_failure(&b, t0);

    assert_eq!(table.pending(&a, t0).unwrap().0, 5);
    assert_eq!(table.pending(&b, t0).unwrap().0, 1);

    let later = later(t0, 2500);
    assert!(!table.should_attempt(&a, later), "a 应仍在退避窗口内");
    assert!(table.should_attempt(&b, later), "b 不应受 a 的退避影响");

    assert!(table.should_attempt(&c, t0));
    assert_eq!(table.pending(&c, t0), None);

    let removed = table.prune(|url: &String| url != &b);
    assert_eq!(removed, 1);
    assert!(table.pending(&b, t0).is_none());
    assert_eq!(table.pending(&a, t0).unwrap().0, 5);
}

#[test]
fn jitter_has_exact_values() {
    // 2 s with a span of 400 ms: the jitter counts from the low end
    let base = Duration::from_secs(2);
    assert_eq!(apply_backoff_jitter(base, 0).as_millis(), 1600);
    assert_eq!(apply_backoff_jitter(base, 400).as_millis(), 2000);
    assert_eq!(apply_backoff_jitter(base, 800).as_millis(), 2400);
    assert_eq!(apply_backoff_jitter(base, 801).as_millis(), 1600);
    let delays: Vec<u64> = (0..50).map(|_| backoff_delay(7).as_millis()).collect();
    assert!(delays.iter().all(|d| (48_000..=72_000).contains(d)));
    assert!(delays.iter().any(|d| *d != delays[0]));
}

#[test]
fn pending_shows_the_rest_of_the_wait() {
    let mut table = BackoffTable::new();
    let (_, delay) = table.record_failure("tcp://a", t0());
    assert_eq!(table.pending("tcp://a", t0()), Some((1, delay)));
    assert_eq!(
        table.pending("tcp://a", later(t0(), 100)).unwrap().1.nanos,
        delay.nanos - 100 * NANOS_PER_MILLI
    );
    assert_eq!(table.pending("tcp://a", later(t0(), 10_000)).unwrap().1.nanos, 0);
}

#[test]
fn failed_attempts_wait_and_come_back() {
    let mut mgr = ManualConnectorManager::new();
    mgr.add_connector_by_url("tcp://b.example.com:1");
    mgr.add_connector_by_url("tcp://a.example.com:1");
    mgr.add_connector(&PeerUrl::parse("tcp://c.example.com:1").unwrap());
    let dead = mgr.collect_dead_conns(|url: &String| url.starts_with("tcp://c"));
    assert_eq!(dead, vec!["tcp://a.example.com:1", "tcp://b.example.com:1"]);
    assert!(mgr.may_begin(&dead, t0()));
    let tick = mgr.reconnect_tick(&dead, t0());
    assert_eq!(tick.attempts, dead);
    assert_eq!(tick.backoff_skipped, 0);
    assert!(mgr.collect_dead_conns(|_: &String| false).len() == 1);

    // a URL that is asked for again during its own attempt cannot be tried a second time
    mgr.add_connector_by_url("tcp://a.example.com:1");
    assert!(!mgr.may_begin(&vec!["tcp://a.example.com:1".to_string()], t0()));
    assert!(mgr.may_begin(&vec!["tcp://c.example.com:1".to_string()], t0()));
    let note = mgr.finish_reconnect("tcp://a.example.com:1", false, t0());
    assert!(matches!(note, AttemptNote::Delayed(1, d) if d.as_millis() >= 1600));
    let note = mgr.finish_reconnect("tcp://b.example.com:1", true, t0());
    assert!(matches!(note, AttemptNote::Reset(None)));

    let dead = mgr.collect_dead_conns(|_: &String| false);
    assert_eq!(dead.len(), 3);
    let tick = mgr.reconnect_tick(&dead, later(t0(), 1));
    assert_eq!(tick.attempts, vec!["tcp://b.example.com:1", "tcp://c.example.com:1"]);
    assert_eq!(tick.backoff_skipped, 1);
    mgr.finish_reconnect("tcp://b.example.com:1", true, t0());
    mgr.finish_reconnect("tcp://c.example.com:1", true, t0());
    let dead = mgr.collect_dead_conns(|_: &String| false);
    let tick = mgr.reconnect_tick(&dead, later(t0(), 3_000));
    assert_eq!(tick.attempts.len(), 3);
    let note = mgr.finish_reconnect("tcp://a.example.com:1", true, later(t0(), 3_000));
    assert!(matches!(note, AttemptNote::Reset(Some(1))));
}

#[test]
fn removed_connectors_leave_after_their_attempt() {
    let mut mgr = ManualConnectorManager::new();
    mgr.add_connector_by_url("tcp://a");
    mgr.add_connector_by_url("tcp://b");
    assert!(matches!(mgr.remove_connector("tcp://x"), Err(ConnectorError::NotFound)));
    let tick = mgr.reconnect_tick(&vec!["tcp://a".to_string()], t0());
    assert_eq!(tick.attempts, vec!["tcp://a"]);
    assert!(mgr.remove_connector("tcp://a").is_ok());
    assert!(mgr.remove_connector("tcp://b").is_ok());
    mgr.handle_remove_connector();
    assert!(mgr.collect_dead_conns(|_: &String| false).is_empty());
    let list = mgr.list_connectors(|_: &String| false);
    assert_eq!(list.len(), 1);
    assert_eq!(list[0].url, "tcp://a");
    assert!(matches!(list[0].status, ConnectorStatus::Connecting));
    mgr.finish_reconnect("tcp://a", true, t0());
    assert!(mgr.list_connectors(|_: &String| false).is_empty());

    mgr.add_connector_by_url("tcp://a");
    mgr.add_connector_by_url("tcp://b");
    mgr.clear_connectors();
    mgr.handle_remove_connector();
    assert!(mgr.list_connectors(|_: &String| true).is_empty());
}

#[test]
fn connectors_are_listed_with_their_status() {
    let mut mgr = ManualConnectorManager::new();
    for url in ["tcp://a", "tcp://b", "tcp://c"] {
        mgr.add_connector_by_url(url);
    }
    mgr.reconnect_tick(&vec!["tcp://b".to_string()], t0());
    let list = mgr.list_connectors(|url: &String| url == "tcp://a");
    assert_eq!(list.len(), 3);
    for c in &list {
        match c.url.as_str() {
            "tcp://a" => assert!(matches!(c.status, ConnectorStatus::Connected)),
            "tcp://b" => assert!(matches!(c.status, ConnectorStatus::Connecting)),
            _ => assert!(matches!(c.status, ConnectorStatus::Disconnected)),
        }
    }
}

#[test]
fn an_exhausted_budget_names_the_stage() {
    let started = t0();
    let err = begin_stage(
        ReconnectStage::Resolve,
        started,
        Duration::from_millis(1),
        later(started, 50),
    )
    .unwrap_err();
    assert_eq!(err, "resolve timeout after 50ms");
    assert!(err.contains("resolve timeout after"));
    assert_eq!(
        begin_stage(ReconnectStage::Connect, started, Duration::from_millis(50), later(started, 20))
            .unwrap(),
        Duration::from_millis(30)
    );
    assert_eq!(
        remaining_budget(started, Duration::from_millis(50), later(started, 50)),
        None
    );
    assert_eq!(
        reconnect_timeout_error(ReconnectStage::Handshake, Duration::from_millis(1500)),
        "handshake timeout after 1.5s"
    );
    assert_eq!(stage_name(ReconnectStage::Connect), "connect");
}

#[test]
fn durations_are_written_as_usual() {
    for (nanos, text) in [
        (0u64, "0ns"),
        (999, "999ns"),
        (1_000, "1µs"),
        (1_500_000, "1.5ms"),
        (2_000_000_000, "2s"),
        (2_000_000_001, "2.000000001s"),
        (60_250_000_000, "60.25s"),
    ] {
        assert_eq!(Duration { nanos }.to_text(), text);
        assert_eq!(format!("{:?}", std::time::Duration::from_nanos(nanos)), text);
    }
}

#[test]
fn schemes_have_their_timeouts() {
    for (url, secs) in [
        ("tcp://a.com:1", 2),
        ("ws://a.com:1", 20),
        ("wss://a.com:1", 20),
        ("http://a.com/x", 20),
        ("udp://a.com:1", 2),
    ] {
        let d = reconnect_timeout(&PeerUrl::parse(url).unwrap());
        assert_eq!(d.as_secs(), secs, "{}", url);
    }
}

#[test]
fn ip_versions_follow_the_addresses() {
    let url = PeerUrl::parse("tcp://a.com:1").unwrap();
    let a4 = IpAddr::V4(Ipv4Addr::new(1, 2, 3, 4));
    let a6 = IpAddr::V6(Ipv6Addr { bits: 1 });
    assert_eq!(ip_versions(&url, &vec![a4]), vec![IpVersion::V4]);
    assert_eq!(ip_versions(&url, &vec![a6, a4, a4]), vec![IpVersion::V4, IpVersion::V6]);
    let ring = PeerUrl::parse("ring://abc").unwrap();
    assert_eq!(ip_versions(&ring, &vec![]), vec![IpVersion::Both]);
    assert_eq!(ip_versions(&url, &vec![]), vec![]);
    assert_eq!(ip_version_name(IpVersion::V6), "V6");
    assert!(!is_tried_without_address(&url));
    assert!(is_tried_without_address(&PeerUrl::parse("ring://abc").unwrap()));
}

#[test]
fn an_attempt_ends_with_its_last_error() {
    let mut attempt = ReconnectAttempt::new(vec![IpVersion::V6, IpVersion::V4]);
    assert_eq!(attempt.next(), Some(IpVersion::V6));
    attempt.note_failure("first".to_string());
    assert_eq!(attempt.next(), Some(IpVersion::V4));
    attempt.note_failure("second".to_string());
    assert_eq!(attempt.next(), None);
    assert_eq!(attempt.error(), "second");
    assert_eq!(ReconnectAttempt::new(vec![]).error(), "cannot get ip from url");
}

#[test]
fn urls_are_taken_apart() {
    let url = PeerUrl::parse("wg://1.2.3.4:11011").unwrap();
    assert_eq!(url.text, "wg://1.2.3.4:11011");
    assert_eq!(url.scheme, "wg");
    assert_eq!(url.port, Some(11011));
    assert!(matches!(url.host, Some(UrlHost::Domain(ref d)) if d == "1.2.3.4"));
    let url = PeerUrl::parse("http://1.2.3.4:80/x").unwrap();
    assert_eq!(url.port, None);
    assert!(matches!(url.host, Some(UrlHost::V4(ip)) if ip == Ipv4Addr::new(1, 2, 3, 4)));
    let url = PeerUrl::parse("wg://[::1]:31015").unwrap();
    assert!(matches!(url.host, Some(UrlHost::V6(ip)) if ip.bits == 1));
    assert!(PeerUrl::parse("not a url").is_none());
    assert_eq!(PeerUrl::parse("HTTP://A.com").unwrap().text, "http://a.com/");
}
