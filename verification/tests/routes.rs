use easytier::clock::{Instant, NANOS_PER_SEC};
use easytier::ip_text::{ipv4_to_text, parse_ipv4};
use easytier::net::{IpAddr, Ipv4Addr, Ipv4Cidr, Ipv6Addr};
use easytier::peer_exclude::{brief_output, brief_text, linux, macos, windows, PhysicalDefaultRoute};
use easytier::proxy_cidrs::{
    any_exit_node_online, collect_proxy_cidrs, CidrSources, ProxyCidrsMonitor,
};
use easytier::route_exclude::{
    collect_peer_ipv4_targets, has_global_route, next_install, ExcludeRoutes, NextInstall,
};
use easytier::scan::{lines, parse_u32, split_once, trim, words};
use easytier::text::lossy_text;
use easytier::url::PeerUrl;

fn ip(a: u8, b: u8, c: u8, d: u8) -> Ipv4Addr {
    Ipv4Addr::new(a, b, c, d)
}

fn cidr(a: u8, b: u8, c: u8, d: u8, prefix_len: u8) -> Ipv4Cidr {
    Ipv4Cidr { address: ip(a, b, c, d), prefix_len }
}

#[test]
fn addresses_are_written_and_read() {
    for text in ["0.0.0.0", "255.255.255.255", "192.168.1.1", "8.8.4.4"] {
        assert_eq!(ipv4_to_text(parse_ipv4(text).unwrap()), text);
    }
    for text in ["", "1.2.3", "1.2.3.4.5", "256.1.1.1", "01.2.3.4", "1.2.3.4 ", "a.b.c.d", "1..2.3"]
    {
        assert_eq!(parse_ipv4(text), None, "{}", text);
    }
}

#[test]
fn texts_are_scanned() {
    assert_eq!(lines("a\r\nb\n\nc"), vec!["a", "b", "", "c"]);
    assert_eq!(lines("a\n"), vec!["a"]);
    assert_eq!(words(" a\t b\u{3000}c "), vec!["a", "b", "c"]);
    assert_eq!(trim("\u{a0} x y \n"), "x y");
    assert_eq!(split_once("a:b:c", ':'), Some(("a".to_string(), "b:c".to_string())));
    assert_eq!(split_once("abc", ':'), None);
    assert_eq!(parse_u32("4294967295", 10), Some(u32::MAX));
    assert_eq!(parse_u32("4294967296", 10), None);
    assert_eq!(parse_u32("+7", 10), Some(7));
    assert_eq!(parse_u32("", 10), None);
    assert_eq!(parse_u32("-1", 10), None);
    assert_eq!(parse_u32("FfFf", 16), Some(0xffff));
    assert_eq!(lossy_text(b"a\xffb"), "a\u{fffd}b");
    assert_eq!(brief_output(b"  x\n"), "x");
    assert_eq!(brief_text(&"y".repeat(300)).len(), 200);
}

const TABLE: &str = "Iface\tDestination\tGateway \tFlags\tRefCnt\tUse\tMetric\tMask\n\
tun0\t00000000\t00000000\t0001\t0\t0\t0\t00000000\n\
wlan0\t00000000\t0101A8C0\t0003\t0\t0\t600\t00000000\n\
eth0\t00000000\tFE01000A\t0003\t0\t0\t100\t00000000\n\
eth1\t00000000\t0102000A\t0003\t0\t0\t100\t00000000\n\
eth0\t0000000A\t00000000\t0001\t0\t0\t100\t000000FF\n\
short\t00000000\t0101A8C0\n";

#[test]
fn linux_default_routes() {
    assert_eq!(linux::parse_le_hex_ipv4("0101A8C0"), Some(ip(192, 168, 1, 1)));
    assert_eq!(linux::parse_le_hex_ipv4("xyz"), None);
    let routes = linux::parse_default_routes(TABLE);
    let names: Vec<&str> = routes.iter().map(|r| r.interface.as_str()).collect();
    assert_eq!(names, vec!["eth0", "eth1", "wlan0"]);
    let best = linux::get_physical_default_route(TABLE).unwrap();
    assert_eq!(best.gateway, ip(10, 0, 1, 254));
    assert_eq!(best.interface, "eth0");
    assert_eq!(best.interface_index, None);
    assert_eq!(
        linux::get_physical_default_route("header\n").unwrap_err(),
        "/proc/net/route 中没有带网关的默认路由，无法确定物理出口"
    );
    let odd = "h\neth0 00000000 0101A8C0 3 0 0 x\n";
    assert_eq!(linux::parse_default_routes(odd)[0].metric, 0);
}

fn gateway(interface: &str) -> PhysicalDefaultRoute {
    PhysicalDefaultRoute {
        gateway: ip(192, 168, 1, 1),
        interface: interface.to_string(),
        interface_index: None,
    }
}

#[test]
fn linux_commands() {
    let cmd = linux::add_host_route(ip(1, 2, 3, 4), &gateway("eth0"));
    assert_eq!(cmd.program, "ip");
    assert_eq!(
        cmd.args,
        vec!["route", "add", "1.2.3.4/32", "via", "192.168.1.1", "dev", "eth0"]
    );
    let cmd = linux::delete_host_route(ip(1, 2, 3, 4));
    assert_eq!(cmd.args, vec!["route", "del", "1.2.3.4/32"]);
    assert_eq!(linux::add_host_route_outcome(true, "x"), Ok(()));
    assert_eq!(linux::add_host_route_outcome(false, "RTNETLINK: File exists\n"), Ok(()));
    assert_eq!(
        linux::add_host_route_outcome(false, " denied\n"),
        Err("ip route add 失败: denied".to_string())
    );
    assert_eq!(
        linux::delete_host_route_outcome(false, "No such process"),
        Err("ip route del 失败: No such process".to_string())
    );
}

#[test]
fn macos_default_routes() {
    let out = "   route to: default\n    gateway: 192.168.1.1\n  interface: en0\n";
    let found = macos::parse_route_get_default(out).unwrap();
    assert_eq!(found, (ip(192, 168, 1, 1), "en0".to_string()));
    assert!(macos::parse_route_get_default("gateway: 1.2.3.4\ninterface: utun3\n").is_none());
    assert!(macos::parse_route_get_default("gateway: link#9\ninterface: en0\n").is_none());
    assert!(macos::is_tunnel_interface("ipsec0"));
    assert!(!macos::is_tunnel_interface("en0"));

    let table = "Destination Gateway Flags Netif\n\
default link#12 UCSg utun3\n\
default 10.9.9.9 UG tap0\n\
0.0.0.0 10.0.0.1 UGScg en1\n\
default 192.168.1.1 UGSc en0\n";
    assert_eq!(
        macos::parse_netstat_default_route(table),
        Some((ip(10, 0, 0, 1), "en1".to_string()))
    );
    assert_eq!(macos::parse_netstat_default_route("default 1.2.3.4 UG\n"), None);
    // 0.0.0.0 is no gateway
    assert!(macos::parse_route_get_default("gateway: 0.0.0.0\ninterface: en0\n").is_none());
    assert_eq!(
        macos::parse_netstat_default_route("default 0.0.0.0 UGSc en0\ndefault 9.8.7.6 UG en2\n"),
        Some((ip(9, 8, 7, 6), "en2".to_string()))
    );
    assert!(macos::after_netstat(true, "default 0.0.0.0 UGSc en0\n", "").is_err());
    assert!(matches!(macos::after_route_get(None), macos::AfterRouteGet::AskNetstat));
    assert!(matches!(
        macos::after_route_get(Some(out)),
        macos::AfterRouteGet::Found(route) if route.interface == "en0"
    ));
    assert_eq!(macos::after_netstat(true, table, "").unwrap().interface, "en1");
    assert_eq!(
        macos::after_netstat(true, "", "").unwrap_err(),
        "没有找到带网关的默认路由，无法确定物理出口"
    );
    assert_eq!(
        macos::after_netstat(false, table, "no").unwrap_err(),
        "netstat -rn -f inet 失败: no"
    );
}

#[test]
fn macos_commands() {
    let cmd = macos::add_host_route(ip(1, 2, 3, 4), &gateway("en0"));
    assert_eq!(cmd.program, "route");
    assert_eq!(cmd.args, vec!["-n", "add", "-host", "1.2.3.4", "192.168.1.1"]);
    assert_eq!(
        macos::delete_host_route(ip(1, 2, 3, 4)).args,
        vec!["-n", "delete", "-host", "1.2.3.4"]
    );
    assert_eq!(macos::add_host_route_outcome(false, "File exists"), Ok(()));
    assert_eq!(
        macos::delete_host_route_outcome(false, "x"),
        Err("route -n delete -host 失败: x".to_string())
    );
}

#[test]
fn windows_default_routes() {
    assert_eq!(windows::add_host_route_outcome(true, ""), Ok(()));
    assert_eq!(windows::add_host_route_outcome(false, "File exists"), Ok(()));
    let entry = |prefix_len: u8, gateway: Ipv4Addr, metric: u32, interface_index: u32| {
        windows::RouteTableEntry { prefix_len, gateway, metric, interface_index }
    };
    let best = windows::find_physical_default_route(&vec![
        entry(0, Ipv4Addr::unspecified(), 0, 1),
        entry(24, ip(10, 0, 0, 1), 0, 2),
        entry(0, ip(10, 0, 0, 1), 25, 3),
        entry(0, ip(10, 0, 0, 2), 5, 4),
        entry(0, ip(10, 0, 0, 3), 5, 5),
    ])
    .unwrap();
    assert_eq!(best.gateway, ip(10, 0, 0, 2));
    assert_eq!(best.interface, "if 4");
    assert_eq!(best.interface_index, Some(4));
    assert_eq!(
        windows::find_physical_default_route(&vec![]).unwrap_err(),
        "IPv4 路由表中没有带网关的默认路由，无法确定物理出口"
    );
    assert_eq!(
        windows::add_host_route(ip(1, 2, 3, 4), &best).args,
        vec!["add", "1.2.3.4", "mask", "255.255.255.255", "10.0.0.2", "metric", "1", "if", "4"]
    );
    assert_eq!(windows::add_host_route(ip(1, 2, 3, 4), &gateway("x")).args.len(), 7);
    assert_eq!(
        windows::delete_host_route(ip(1, 2, 3, 4)).args,
        vec!["delete", "1.2.3.4", "mask", "255.255.255.255"]
    );
    // that the route is there already is an error here
    assert_eq!(
        windows::add_host_route_outcome(false, "denied"),
        Err("route add 失败: denied".to_string())
    );
    assert_eq!(
        windows::delete_host_route_outcome(false, "x"),
        Err("route delete 失败: x".to_string())
    );
}

#[test]
fn global_routes_are_recognized() {
    assert!(!has_global_route(&None));
    assert!(!has_global_route(&Some(vec![cidr(10, 0, 0, 0, 8)])));
    assert!(has_global_route(&Some(vec![cidr(10, 0, 0, 0, 8), cidr(0, 0, 0, 0, 0)])));
}

#[test]
fn targets_are_the_addresses_of_the_peers() {
    let peers = vec![
        PeerUrl::parse("http://9.9.9.9:1").unwrap(),
        // only schemes of the web have addresses of their own; this host is resolved like a name
        PeerUrl::parse("tcp://1.2.3.4:1").unwrap(),
        PeerUrl::parse("tcp://peer.example.com:1").unwrap(),
        PeerUrl::parse("wg://[::1]:1").unwrap(),
    ];
    let resolved = vec![
        None,
        Some(vec![IpAddr::V4(ip(1, 2, 3, 4))]),
        Some(vec![
            IpAddr::V4(ip(5, 6, 7, 8)),
            IpAddr::V6(Ipv6Addr { bits: 1 }),
            IpAddr::V4(ip(1, 2, 3, 4)),
        ]),
        None,
    ];
    assert_eq!(
        collect_peer_ipv4_targets(&peers, &resolved),
        vec![ip(1, 2, 3, 4), ip(5, 6, 7, 8), ip(9, 9, 9, 9)]
    );
}

#[test]
fn host_routes_follow_the_targets() {
    let mut routes = ExcludeRoutes::new();
    let a = ip(1, 1, 1, 1);
    let b = ip(2, 2, 2, 2);
    let c = ip(3, 3, 3, 3);
    let via = gateway("eth0");
    let plan = routes.install_peer_exclude_routes(&vec![a, b], &via);
    assert!(plan.obsolete.is_empty());
    assert_eq!(plan.install.len(), 2);
    assert!(!plan.install[0].replace);
    let mut count = plan.reused;
    for step in &plan.install {
        count = routes.note_step(step, true, &via, count);
    }
    assert_eq!(count, 2);
    // installing again changes nothing
    let plan = routes.install_peer_exclude_routes(&vec![a, b], &via);
    assert_eq!((plan.obsolete.len(), plan.install.len(), plan.reused), (0, 0, 2));
    // a target that is not wanted any more goes, a new one comes
    let plan = routes.install_peer_exclude_routes(&vec![b, c], &via);
    assert_eq!(plan.obsolete, vec![a]);
    assert_eq!(plan.install.len(), 1);
    assert_eq!(plan.install[0].target, c);
    assert_eq!(plan.reused, 1);
    routes.note_installed(c, &via);
    // another way out: the routes are replaced
    let plan = routes.install_peer_exclude_routes(&vec![b, c], &gateway("wlan0"));
    assert_eq!(plan.install.len(), 2);
    assert!(plan.install.iter().all(|s| s.replace));
    assert!(!routes.has_target(b));
    routes.note_installed(b, &gateway("wlan0"));
    assert_eq!(routes.remove_peer_exclude_routes(), vec![b]);
    assert!(routes.remove_peer_exclude_routes().is_empty());
}

#[test]
fn failed_additions_are_not_on_record() {
    let mut routes = ExcludeRoutes::new();
    let via = gateway("eth0");
    let all = vec![ip(1, 1, 1, 1), ip(2, 2, 2, 2), ip(3, 3, 3, 3)];
    routes.install_peer_exclude_routes(&all, &via);
    routes.note_installed(all[1], &via);
    let plan = routes.install_peer_exclude_routes(&all, &via);
    assert_eq!((plan.reused, plan.install.len()), (1, 2));
    let mut count = plan.reused;
    count = routes.note_step(&plan.install[0], false, &via, count);
    count = routes.note_step(&plan.install[1], true, &via, count);
    assert_eq!(count, 2);
    assert!(!routes.has_target(all[0]) && routes.has_target(all[1]) && routes.has_target(all[2]));
    // the one that failed is tried again
    let plan = routes.install_peer_exclude_routes(&all, &via);
    assert_eq!((plan.reused, plan.install.len()), (2, 1));
    assert_eq!(plan.install[0].target, all[0]);
    // without a target nothing stays
    let plan = routes.install_peer_exclude_routes(&vec![], &via);
    assert_eq!(plan.obsolete, vec![all[1], all[2]]);
    assert!(routes.remove_peer_exclude_routes().is_empty());
}

#[test]
fn removed_routes_are_counted() {
    let mut routes = ExcludeRoutes::new();
    let via = gateway("eth0");
    for last in 1..=3 {
        routes.note_installed(ip(1, 1, 1, last), &via);
    }
    let mut removed = 0;
    for target in routes.remove_peer_exclude_routes() {
        removed = ExcludeRoutes::note_removed(target != ip(1, 1, 1, 2), removed);
    }
    assert_eq!(removed, 2);
    // what could not be deleted is off the record too
    assert!(routes.remove_peer_exclude_routes().is_empty());
}

#[test]
fn the_installation_goes_step_by_step() {
    let global = Some(vec![cidr(10, 0, 0, 0, 8), cidr(0, 0, 0, 0, 0)]);
    let none = Some(vec![]);
    let some = Some(vec![ip(1, 1, 1, 1)]);
    assert_eq!(next_install(&None, &some, Some(true)), NextInstall::Skip);
    assert_eq!(
        next_install(&Some(vec![cidr(10, 0, 0, 0, 8)]), &some, Some(true)),
        NextInstall::Skip
    );
    assert_eq!(next_install(&global, &None, None), NextInstall::ResolvePeers);
    assert_eq!(next_install(&global, &none, None), NextInstall::RemoveAll);
    assert_eq!(next_install(&global, &some, None), NextInstall::AskDefaultRoute);
    assert_eq!(next_install(&global, &some, Some(false)), NextInstall::Skip);
    assert_eq!(next_install(&global, &some, Some(true)), NextInstall::Install);
}

fn sources() -> CidrSources {
    CidrSources {
        routes: None,
        has_exit_nodes: false,
        exit_node_online: false,
        peer_cidrs: vec![cidr(10, 2, 0, 0, 16), cidr(10, 1, 0, 0, 16), cidr(10, 2, 0, 0, 16)],
        vpn_portal_cidr: Some(cidr(10, 3, 0, 0, 24)),
    }
}

#[test]
fn routed_blocks_are_collected() {
    assert_eq!(
        collect_proxy_cidrs(&sources()),
        vec![cidr(10, 1, 0, 0, 16), cidr(10, 2, 0, 0, 16), cidr(10, 3, 0, 0, 24)]
    );
    let mut s = sources();
    s.routes = Some(vec![cidr(0, 0, 0, 0, 0), cidr(10, 9, 0, 0, 16)]);
    assert_eq!(
        collect_proxy_cidrs(&s),
        vec![cidr(0, 0, 0, 0, 0), cidr(10, 9, 0, 0, 16)]
    );
    s.has_exit_nodes = true;
    assert_eq!(collect_proxy_cidrs(&s), vec![cidr(10, 9, 0, 0, 16)]);
    s.exit_node_online = true;
    assert_eq!(collect_proxy_cidrs(&s).len(), 2);
    assert!(any_exit_node_online(&vec![false, true]));
    assert!(!any_exit_node_online(&vec![]));
}

fn at(secs: u64) -> Instant {
    Instant { nanos: secs * NANOS_PER_SEC }
}

#[test]
fn changes_of_the_routes_are_reported() {
    let mut monitor = ProxyCidrsMonitor::new();
    assert!(monitor.look(at(1), None, at(1)));
    let diff = monitor.update(&sources()).unwrap();
    assert_eq!(diff.added.len(), 3);
    assert!(diff.removed.is_empty());
    assert!(!monitor.look(at(1), None, at(2)));
    assert!(monitor.update(&sources()).is_none());
    let mut fewer = sources();
    fewer.vpn_portal_cidr = None;
    assert!(monitor.look(at(3), None, at(3)));
    let diff = monitor.update(&fewer).unwrap();
    assert_eq!(diff.removed, vec![cidr(10, 3, 0, 0, 24)]);
    assert!(diff.added.is_empty());
    let (all, diff) = ProxyCidrsMonitor::diff_proxy_cidrs(&sources(), &vec![]);
    assert_eq!(all.len(), 3);
    assert_eq!(diff.added, all);
}

#[test]
fn a_flapping_exit_node_is_ignored() {
    let mut monitor = ProxyCidrsMonitor::new();
    assert_eq!(monitor.exit_state.exit_online, None);
    let t = at(1);
    assert!(monitor.look(t, Some(true), at(1)));
    assert_eq!(monitor.exit_state.exit_online, Some(true));
    // the other state has to last
    assert!(!monitor.look(t, Some(false), at(10)));
    assert!(!monitor.look(t, Some(false), at(14)));
    assert!(!monitor.look(t, Some(true), at(14)));
    assert!(!monitor.look(t, Some(false), at(15)));
    assert!(!monitor.look(t, Some(false), at(19)));
    assert!(monitor.look(t, Some(false), at(20)));
    assert_eq!(monitor.exit_state.exit_online, Some(false));
    assert!(!monitor.look(t, Some(false), at(21)));
}

#[test]
fn a_short_outage_keeps_the_global_route() {
    let global = cidr(0, 0, 0, 0, 0);
    let mut seen = sources();
    seen.routes = Some(vec![global]);
    seen.has_exit_nodes = true;
    seen.exit_node_online = true;
    let mut monitor = ProxyCidrsMonitor::new();
    assert!(monitor.look(at(1), Some(true), at(1)));
    assert_eq!(monitor.update(&seen).unwrap().added, vec![global]);

    // the routes of the peers change during an outage that is not over yet
    seen.exit_node_online = false;
    assert!(monitor.look(at(2), Some(false), at(2)));
    assert!(monitor.update(&seen).is_none());
    assert!(monitor.look(at(6), Some(false), at(6)));
    assert!(monitor.update(&seen).is_none());
    seen.exit_node_online = true;
    assert!(!monitor.look(at(6), Some(true), at(7)));

    // one that lasts withdraws it, and its end brings it back after the same time
    seen.exit_node_online = false;
    assert!(!monitor.look(at(6), Some(false), at(8)));
    assert!(monitor.look(at(6), Some(false), at(13)));
    assert_eq!(monitor.update(&seen).unwrap().removed, vec![global]);
    seen.exit_node_online = true;
    assert!(monitor.look(at(14), Some(true), at(14)));
    assert!(monitor.update(&seen).is_none());
    assert!(monitor.look(at(14), Some(true), at(19)));
    assert_eq!(monitor.update(&seen).unwrap().added, vec![global]);
}

#[test]
fn the_first_look_counts_at_once() {
    let global = cidr(0, 0, 0, 0, 0);
    let mut seen = sources();
    seen.routes = Some(vec![global, cidr(10, 9, 0, 0, 16)]);
    seen.has_exit_nodes = true;
    let mut monitor = ProxyCidrsMonitor::new();
    assert!(monitor.look(at(1), Some(false), at(1)));
    assert_eq!(monitor.update(&seen).unwrap().added, vec![cidr(10, 9, 0, 0, 16)]);
}
