use easytier::firewall::interface_rules::{
    add_interface_to_firewall_allowlist, add_protocol_firewall_rules,
    list_interface_firewall_rules, listed_rule_names, remove_interface_firewall_rules,
    RuleProtocol,
};
use easytier::firewall::port_rules::{
    add_exit_node_firewall_rules, add_inbound_port_firewall_rule,
    add_registered_exit_node_firewall_rules, collect_exit_node_port_rules,
    firewall_rule_instance_tag, instance_tag_of, listener_url_to_port_rule, on_one_line,
    register_firewall_global_ctx, remove_hyphens, retain_alive, sanitize_rule_name_component,
    summarize_netsh_output, summarize_texts, InstanceInfo, PortFirewallRule, RuleKind,
    DEFAULT_CTRL_PORT, DEFAULT_WG_PORT,
};
use easytier::firewall::program_rules::{
    add_self_to_firewall_allowlist, add_self_to_firewall_allowlist_with_ctx,
    do_add_self_to_firewall_allowlist, remove_all, AllowlistError,
};
use easytier::firewall::sockets::{
    find_interface_index, interface_count, set_ip_unicast_if, setup_socket_for_win, InterfaceInfo,
    UnicastIf,
};
use easytier::net::{IpAddr, Ipv4Addr, Ipv6Addr, SocketAddr};
use easytier::url::PeerUrl;

#[test]
fn test_add_self_to_firewall_allowlist() {
    let res = add_self_to_firewall_allowlist(&vec![], Some("C:\\easytier\\easytier-core.exe"));
    assert!(res.is_ok());
}

fn rule(is_udp: bool, port: u16, kind: RuleKind) -> PortFirewallRule {
    PortFirewallRule { is_udp, port, kind }
}

fn url(text: &str) -> PeerUrl {
    PeerUrl::parse(text).unwrap()
}

#[test]
fn test_collect_exit_node_port_rules() {
    assert_eq!(
        collect_exit_node_port_rules(&vec![]),
        vec![
            rule(true, DEFAULT_WG_PORT, RuleKind::Wg),
            rule(true, DEFAULT_CTRL_PORT, RuleKind::Ctrl),
            rule(false, DEFAULT_CTRL_PORT, RuleKind::Ctrl),
        ]
    );

    let listener_uris = vec![
        url("tcp://0.0.0.0:11010"),
        url("udp://0.0.0.0:11010"),
        url("udp://0.0.0.0:11010"),
        url("wg://0.0.0.0:21011"),
        url("ws://0.0.0.0:11011"),
    ];
    assert_eq!(
        collect_exit_node_port_rules(&listener_uris),
        vec![
            rule(false, 11010, RuleKind::Ctrl),
            rule(true, 11010, RuleKind::Ctrl),
            rule(true, 21011, RuleKind::Wg),
        ]
    );
}

#[test]
fn default_ports_are_those_of_the_schemes() {
    assert_eq!((DEFAULT_CTRL_PORT, DEFAULT_WG_PORT), (11010, 11011));
    assert_eq!(
        listener_url_to_port_rule(&url("wg://0.0.0.0")),
        Some(rule(true, 11011, RuleKind::Wg))
    );
    assert_eq!(
        listener_url_to_port_rule(&url("tcp://0.0.0.0")),
        Some(rule(false, 11010, RuleKind::Ctrl))
    );
    assert_eq!(listener_url_to_port_rule(&url("quic://0.0.0.0:1")), None);
    // only a listener for control connections: the usual port of the tunnel is added
    assert_eq!(
        collect_exit_node_port_rules(&vec![url("udp://0.0.0.0:11011")]),
        vec![rule(true, 11011, RuleKind::Ctrl)]
    );
    assert_eq!(
        collect_exit_node_port_rules(&vec![url("wg://0.0.0.0:1")]),
        vec![
            rule(true, 1, RuleKind::Wg),
            rule(true, 11010, RuleKind::Ctrl),
            rule(false, 11010, RuleKind::Ctrl),
        ]
    );
}

fn instance(exit_node: bool) -> InstanceInfo {
    InstanceInfo {
        id: 0x0123_4567_89ab_cdef_0123_4567_89ab_cdef,
        network_name: "net".to_string(),
        enable_exit_node: exit_node,
        listeners: vec![url("wg://0.0.0.0:21011"), url("tcp://0.0.0.0:5")],
    }
}

#[test]
fn exit_nodes_get_port_rules() {
    assert!(add_exit_node_firewall_rules(&instance(false)).is_empty());
    let rules = add_exit_node_firewall_rules(&instance(true));
    assert_eq!(rules.len(), 2);
    assert_eq!(
        rules[0].delete.as_ref().unwrap(),
        &vec![
            "advfirewall",
            "firewall",
            "delete",
            "rule",
            "name=EasyTier-0123456789abcdef0123456789abcdef-wg-udp"
        ]
    );
    assert_eq!(
        rules[0].add,
        vec![
            "advfirewall",
            "firewall",
            "add",
            "rule",
            "name=EasyTier-0123456789abcdef0123456789abcdef-wg-udp",
            "dir=in",
            "action=allow",
            "protocol=UDP",
            "localport=21011",
            "profile=any",
            "enable=yes"
        ]
    );
    assert_eq!(
        rules[1].add[4],
        "name=EasyTier-0123456789abcdef0123456789abcdef-ctrl-tcp"
    );
    assert_eq!(rules[1].add[7], "protocol=TCP");
    let all = add_registered_exit_node_firewall_rules(&vec![
        instance(true),
        instance(false),
        instance(true),
    ]);
    assert_eq!(all.len(), 4);
    assert!(add_registered_exit_node_firewall_rules(&vec![]).is_empty());
    assert_eq!(add_inbound_port_firewall_rule("x", false, 80).add[8], "localport=80");
}

#[test]
fn no_run_takes_away_an_earlier_rule() {
    let mut node = instance(true);
    node.listeners = vec![url("tcp://0.0.0.0:11010"), url("tcp://0.0.0.0:11020")];
    let mut other = instance(true);
    other.id = 7;
    // a rule of a former run, for a port that is not wanted any more
    let name = "name=EasyTier-0123456789abcdef0123456789abcdef-ctrl-tcp".to_string();
    let mut open: Vec<(String, String)> = vec![(name, "protocol=TCP localport=9".to_string())];
    for run in add_registered_exit_node_firewall_rules(&vec![node, other]) {
        if let Some(delete) = &run.delete {
            open.retain(|(name, _)| *name != delete[4]);
        }
        open.push((run.add[4].clone(), format!("{} {}", run.add[7], run.add[8])));
    }
    let ports: Vec<&str> = open.iter().map(|(_, port)| port.as_str()).collect();
    assert_eq!(
        ports,
        vec![
            "protocol=TCP localport=11010",
            "protocol=TCP localport=11020",
            "protocol=UDP localport=11011",
            "protocol=UDP localport=21011",
            "protocol=TCP localport=5",
        ]
    );
}

#[test]
fn the_instance_tag_is_its_uuid() {
    let mut info = instance(true);
    assert_eq!(firewall_rule_instance_tag(&info), "0123456789abcdef0123456789abcdef");
    info.id = 0;
    assert_eq!(firewall_rule_instance_tag(&info), "00000000000000000000000000000000");
    assert_eq!(instance_tag_of("", "my net/../-_.9"), "mynet..-_.9");
    assert_eq!(instance_tag_of("", "网络"), "default");
    assert_eq!(instance_tag_of("--", "n"), "n");
    assert_eq!(remove_hyphens("a-b--c"), "abc");
    assert_eq!(sanitize_rule_name_component(&"x".repeat(40)), "x".repeat(32));
    assert_eq!(sanitize_rule_name_component("a b\"c"), "abc");
}

#[test]
fn ended_instances_are_not_registered() {
    let mut registered: Vec<u64> = vec![];
    register_firewall_global_ctx(&mut registered, &vec![], 1);
    register_firewall_global_ctx(&mut registered, &vec![true], 2);
    register_firewall_global_ctx(&mut registered, &vec![true, true], 1);
    assert_eq!(registered, vec![1, 2]);
    register_firewall_global_ctx(&mut registered, &vec![false, true], 3);
    assert_eq!(registered, vec![2, 3]);
    retain_alive(&mut registered, &vec![true, false]);
    assert_eq!(registered, vec![2]);
}

#[test]
fn output_of_netsh_is_summarized() {
    assert_eq!(on_one_line("  a \r\n\t b  "), "a b");
    assert_eq!(summarize_texts(" Ok.\n\n", ""), "Ok.");
    assert_eq!(summarize_texts("", " no \n rule "), "no rule");
    assert_eq!(summarize_texts("a", "b"), "a b");
    assert_eq!(summarize_texts("", "\n"), "");
    assert_eq!(summarize_texts(&"é".repeat(300), "x"), "é".repeat(200));
    assert_eq!(summarize_netsh_output(b" a\xff b ", b"c"), "a\u{fffd} b c");
}

#[test]
fn rules_for_the_program() {
    let rule = do_add_self_to_firewall_allowlist("\\\\?\\C:\\x\\easytier.exe", true);
    assert_eq!(rule.name, "EasyTier C:\\x\\easytier.exe (Inbound)");
    assert_eq!(rule.description, "Allow EasyTier to do subnet proxy and kcp proxy");
    assert_eq!(rule.application, Some("C:\\x\\easytier.exe".to_string()));
    assert_eq!((rule.protocol, rule.inbound, rule.interface), (None, true, None));
    assert_eq!(rule.grouping, "EasyTier");
    assert_eq!(remove_all("aXXbXXXc", "XX"), "aXXbXXXc".replace("XX", ""));
    assert_eq!(remove_all("abc", "x"), "abc");

    let plan = add_self_to_firewall_allowlist_with_ctx(&instance(true), Some("p")).unwrap();
    assert_eq!(plan.port_rules.len(), 2);
    assert_eq!(plan.inbound.name, "EasyTier p (Inbound)");
    assert_eq!(plan.outbound.name, "EasyTier p (Outbound)");
    assert!(!plan.outbound.inbound);
    match add_self_to_firewall_allowlist(&vec![instance(true)], None) {
        Err(AllowlistError::NoExecutable { port_rules }) => assert_eq!(port_rules.len(), 2),
        Ok(_) => panic!("there is no path"),
    }
    match add_self_to_firewall_allowlist_with_ctx(&instance(false), None) {
        Err(AllowlistError::NoExecutable { port_rules }) => assert!(port_rules.is_empty()),
        Ok(_) => panic!("there is no path"),
    }
}

#[test]
fn rules_of_an_interface_are_added_listed_and_removed() {
    let interface = "test_interface";
    let mut present: Vec<String> = vec!["unrelated".to_string()];
    let added = add_interface_to_firewall_allowlist(interface);
    assert_eq!(added.len(), 8);
    for rule in &added {
        assert_eq!(rule.interface, Some(interface.to_string()));
        present.push(rule.name.clone());
    }
    assert_eq!(added[0].protocol, Some(6));
    assert_eq!(added[2].protocol, Some(17));
    assert_eq!(added[4].protocol, Some(1));
    assert_eq!(added[6].protocol, None);
    assert_eq!(added[0].description, "Allow TCP traffic on EasyTier interface test_interface");

    let look = |present: &Vec<String>| -> Vec<bool> {
        listed_rule_names(interface).iter().map(|n| present.contains(n)).collect()
    };
    let rules = list_interface_firewall_rules(interface, &look(&present));
    for protocol in ["TCP", "UDP", "ICMP", "ALL"] {
        for direction in ["Inbound", "Outbound"] {
            let name = format!("EasyTier {} - {} Protocol ({})", interface, protocol, direction);
            assert!(rules.contains(&name), "Missing required rule: {}", name);
        }
    }
    assert_eq!(rules.len(), 8);

    let removed = remove_interface_firewall_rules(interface);
    present.retain(|n| !removed.contains(n));
    assert_eq!(present, vec!["unrelated"]);
    assert!(list_interface_firewall_rules(interface, &look(&present)).is_empty());
    let (inbound, outbound) = add_protocol_firewall_rules("tun0", RuleProtocol::All);
    assert_eq!(inbound.name, "EasyTier tun0 - ALL Protocol (Inbound)");
    assert_eq!(outbound.name, "EasyTier tun0 - ALL Protocol (Outbound)");
    assert_eq!(
        listed_rule_names("tun0")[7],
        "EasyTier tun0 - ALL Protocol (Outbound)"
    );
}

fn interfaces() -> Result<Vec<InterfaceInfo>, String> {
    Ok(vec![
        InterfaceInfo { name: "Ethernet".to_string(), index: 0x0102_0304 },
        InterfaceInfo { name: "Wi-Fi".to_string(), index: 9 },
        InterfaceInfo { name: "Wi-Fi".to_string(), index: 10 },
    ])
}

#[test]
fn interfaces_are_found_by_name() {
    assert_eq!(interface_count(interfaces()), Ok(3));
    assert_eq!(
        interface_count(Err("denied".to_string())),
        Err("Failed to get interfaces. error: denied".to_string())
    );
    assert_eq!(find_interface_index(&interfaces(), "Wi-Fi"), Ok(9));
    assert_eq!(find_interface_index(&interfaces(), "tun"), Err("tun".to_string()));
    assert_eq!(
        find_interface_index(&Err("denied".to_string()), "tun"),
        Err("Failed to get interfaces. tun, error: denied".to_string())
    );
}

#[test]
fn sockets_are_bound_to_an_interface() {
    let a4 = SocketAddr::new_v4(Ipv4Addr::new(1, 2, 3, 4), 5);
    let a6 = SocketAddr { ip: IpAddr::V6(Ipv6Addr { bits: 1 }), port: 5, flowinfo: 0, scope_id: 0 };
    assert!(matches!(
        set_ip_unicast_if(&interfaces(), &a4, "Ethernet"),
        Ok(UnicastIf::V4([1, 2, 3, 4]))
    ));
    assert!(matches!(set_ip_unicast_if(&interfaces(), &a6, "Wi-Fi"), Ok(UnicastIf::V6(9))));
    assert!(matches!(set_ip_unicast_if(&interfaces(), &a6, "x"), Err(e) if e == "x"));
    let setup = setup_socket_for_win(&interfaces(), &a4, None, true);
    assert!(setup.disable_connection_reset && setup.unicast_if.is_none());
    let setup = setup_socket_for_win(&interfaces(), &a4, Some("Wi-Fi"), false);
    assert!(!setup.disable_connection_reset);
    assert!(matches!(setup.unicast_if, Some(Ok(UnicastIf::V4([0, 0, 0, 9])))));
}
