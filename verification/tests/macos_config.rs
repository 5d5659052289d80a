use easytier::darwin::{
    cidr_to_subnet_mask, outcome_of_texts, parse_default_route_interface, run_shell_cmd_capture,
    take_over_default_route_enabled, verify_or_take_over_default_route, DefaultRouteStep,
    MacIfConfiger,
};
use easytier::net::{Ipv4Addr, Ipv4Cidr};

#[test]
fn the_default_route_is_taken_over_only_on_demand() {
    for value in ["1", "true", "TRUE", "Yes", "yES"] {
        assert!(take_over_default_route_enabled(Some(value)), "{}", value);
    }
    for value in ["", "0", "no", "01", "1 ", "truE!"] {
        assert!(!take_over_default_route_enabled(Some(value)), "{}", value);
    }
    assert!(!take_over_default_route_enabled(None));
}

const OUTPUT: &str =
    "   route to: default\ndestination: default\r\n  interface:  en0 \n      flags: <UP>\ninterface: en9\n";

#[test]
fn the_interface_of_the_default_route_is_read() {
    assert_eq!(parse_default_route_interface(OUTPUT), Some("en0".to_string()));
    assert_eq!(parse_default_route_interface("interface:"), Some("".to_string()));
    assert_eq!(parse_default_route_interface("my interface: en0"), None);
    assert_eq!(parse_default_route_interface(""), None);
}

#[test]
fn a_route_without_effect_is_reported_or_changed() {
    assert!(matches!(
        verify_or_take_over_default_route("en0", OUTPUT, true),
        DefaultRouteStep::InEffect
    ));
    match verify_or_take_over_default_route("utun3", OUTPUT, false) {
        DefaultRouteStep::Warn { current, fix_cmd } => {
            assert_eq!(current, Some("en0".to_string()));
            assert_eq!(fix_cmd, "route -n change default -interface utun3");
        }
        other => panic!("the user is told: {:?}", other),
    }
    assert!(matches!(
        verify_or_take_over_default_route("utun3", "", true),
        DefaultRouteStep::TakeOver { fix_cmd } if fix_cmd == "route -n change default -interface utun3"
    ));
}

#[test]
fn output_of_shell_commands() {
    assert_eq!(run_shell_cmd_capture(true, b"out", b"err"), Ok("out".to_string()));
    assert_eq!(run_shell_cmd_capture(false, b"out", b"er\xff"), Err("outer\u{fffd}".to_string()));
    assert_eq!(outcome_of_texts(false, "a".to_string(), "b"), Err("ab".to_string()));
}

#[test]
fn netmasks() {
    for (prefix, mask) in [
        (0u8, Ipv4Addr::new(0, 0, 0, 0)),
        (1, Ipv4Addr::new(128, 0, 0, 0)),
        (8, Ipv4Addr::new(255, 0, 0, 0)),
        (20, Ipv4Addr::new(255, 255, 240, 0)),
        (31, Ipv4Addr::new(255, 255, 255, 254)),
        (32, Ipv4Addr::new(255, 255, 255, 255)),
    ] {
        assert_eq!(cidr_to_subnet_mask(prefix), mask);
    }
}

#[test]
fn commands_of_the_configurer() {
    let mac = MacIfConfiger {};
    let ip = Ipv4Addr::new(10, 1, 0, 0);
    let install = mac.add_ipv4_route("utun3", ip, 16, None);
    assert_eq!(
        install.command,
        "route -n add 10.1.0.0 -netmask 255.255.0.0 -interface utun3 -hopcount 7"
    );
    assert!(!install.verify);
    let install = mac.add_ipv4_route("utun3", Ipv4Addr::unspecified(), 0, Some(-3));
    assert_eq!(
        install.command,
        "route -n add 0.0.0.0 -netmask 0.0.0.0 -interface utun3 -hopcount -3"
    );
    assert!(install.verify);
    assert_eq!(
        mac.add_ipv4_route("u", ip, 32, Some(i32::MIN)).command,
        "route -n add 10.1.0.0 -netmask 255.255.255.255 -interface u -hopcount -2147483648"
    );
    assert_eq!(
        mac.remove_ipv4_route("utun3", ip, 24),
        "route -n delete 10.1.0.0 -netmask 255.255.255.0 -interface utun3"
    );
    assert_eq!(mac.add_ipv4_ip("utun3", ip, 24), "ifconfig utun3 10.1.0.0/24 10.1.0.0 up");
    assert_eq!(mac.set_link_status("utun3", true), "ifconfig utun3 up");
    assert_eq!(mac.set_link_status("utun3", false), "ifconfig utun3 down");
    assert_eq!(
        mac.remove_ip("utun3", Some(Ipv4Cidr { address: ip, prefix_len: 24 })),
        "ifconfig utun3 inet 10.1.0.0 delete"
    );
    assert_eq!(mac.remove_ip("utun3", None), "ifconfig utun3 inet delete");
    assert_eq!(mac.set_mtu("utun3", 1380), "ifconfig utun3 mtu 1380");
    assert_eq!(mac.add_ipv6_ip("utun3", "fd00::1", 64), "ifconfig utun3 inet6 fd00::1/64 add");
    assert_eq!(
        mac.remove_ipv6("utun3", Some("fd00::1")),
        Some("ifconfig utun3 inet6 fd00::1 delete".to_string())
    );
    assert_eq!(mac.remove_ipv6("utun3", None), None);
    assert_eq!(
        mac.add_ipv6_route("utun3", "fd00::", 8, None),
        "route -n add -inet6 fd00::/8 -interface utun3"
    );
    assert_eq!(
        mac.add_ipv6_route("utun3", "fd00::", 8, Some(5)),
        "route -n add -inet6 fd00::/8 -interface utun3 -hopcount 5"
    );
    assert_eq!(
        mac.remove_ipv6_route("utun3", "fd00::", 8),
        "route -n delete -inet6 fd00::/8 -interface utun3"
    );
}
