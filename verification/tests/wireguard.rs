use easytier::clock::{Instant, NANOS_PER_MILLI, NANOS_PER_SEC};
use easytier::net::{
    is_definitely_physical_addr, is_definitely_physical_addr_v4, IpAddr, Ipv4Addr, Ipv6Addr,
    SocketAddr,
};
use easytier::wireguard::config::{WgConfig, WgType};
use easytier::wireguard::connector::{BindPlan, IpVersion, NetworkAnswers, WgTunnelConnector};
use easytier::wireguard::handshake::{
    handshake_complete, HandshakeError, HandshakeWait, OnQuiet, WaitPacket,
};
use easytier::wireguard::listener::{WgPeer, WgTunnelListener};
use easytier::wireguard::obfs::{
    clamp_obfs_junk, clamp_obfs_u8, gen_default_flags, in_junk_range, Flags, WgObfsConfig,
    WG_COOKIE_REPLY_SIZE, WG_HANDSHAKE_INIT_SIZE, WG_HANDSHAKE_RESPONSE_SIZE,
};
use easytier::wireguard::packet::{
    datagram_for_peer, decode_wg_packet, encode_wg_packet, junk_packet_len, make_obfs_junk_packets,
    pad_wg_packet, read_wg_msg_type, wg_padding_len, JunkReason, WgDecodedPacket,
    WG_MSG_COOKIE_REPLY, WG_MSG_DATA, WG_MSG_HANDSHAKE_INIT, WG_MSG_HANDSHAKE_RESPONSE,
};
use easytier::wireguard::peer_data::{
    accept_inbound, after_tick, fill_ip_header, prepare_outbound, react_to_decapsulated,
    remove_ip_header, FromPeer, RoutineAction, RoutineStep, WgPeerData,
};
use easytier::wireguard::tunn::{has_exhausted_counter, TunnOutcome, WG_DATA_OVERHEAD, WG_QUEUE_DEPTH};

fn v4(a: u8, b: u8, c: u8, d: u8) -> IpAddr {
    IpAddr::V4(Ipv4Addr::new(a, b, c, d))
}

fn v6(high: u128, low: u128) -> IpAddr {
    IpAddr::V6(Ipv6Addr { bits: (high << 112) | low })
}

fn create_wg_config() -> (WgConfig, WgConfig) {
    let server = WgConfig::new_for_portal([7u8; 32], [9u8; 32]);
    let server_cfg = WgConfig { wg_type: WgType::InternalUse, ..server };
    let client_cfg = WgConfig {
        my_secret_key: server.peer_secret_key,
        my_public_key: server.peer_public_key,
        peer_secret_key: server.my_secret_key,
        peer_public_key: server.my_public_key,
        wg_type: WgType::InternalUse,
        obfs: None,
    };
    (server_cfg, client_cfg)
}

#[test]
fn physical_addr_classification() {
    let physical: Vec<IpAddr> = vec![
        v4(8, 8, 8, 8),
        v4(35, 74, 75, 198),
        v4(1, 1, 1, 1),
        // 2001:4860:4860::8888
        IpAddr::V6(Ipv6Addr { bits: 0x2001_4860_4860_0000_0000_0000_0000_8888 }),
    ];
    for ip in physical {
        assert!(is_definitely_physical_addr(&ip), "{:?} 应判定为物理地址", ip);
    }

    let not_physical: Vec<IpAddr> = vec![
        v4(10, 126, 126, 1),
        v4(100, 100, 100, 101),
        v4(192, 168, 1, 1),
        v4(172, 16, 0, 1),
        v4(127, 0, 0, 1),
        v4(169, 254, 1, 1),
        v6(0, 1),
        v6(0xfe80, 1),
        v6(0xfd00, 1),
    ];
    for ip in not_physical {
        assert!(!is_definitely_physical_addr(&ip), "{:?} 不应判定为物理地址", ip);
    }
}

#[test]
fn special_addresses_at_the_edges() {
    for (a, b, c, d, physical) in [
        (9u8, 255u8, 255u8, 255u8, true),
        (11, 0, 0, 0, true),
        (172, 15, 255, 255, true),
        (172, 31, 255, 255, false),
        (172, 32, 0, 0, true),
        (100, 63, 255, 255, true),
        (100, 64, 0, 0, false),
        (100, 127, 255, 255, false),
        (100, 128, 0, 0, true),
        (192, 0, 2, 1, false),
        (198, 51, 100, 7, false),
        (203, 0, 113, 9, false),
        (223, 255, 255, 255, true),
        (224, 0, 0, 1, false),
        (239, 255, 255, 255, false),
        (240, 0, 0, 0, true),
        (255, 255, 255, 255, false),
        (0, 0, 0, 0, false),
    ] {
        assert_eq!(is_definitely_physical_addr_v4(&Ipv4Addr::new(a, b, c, d)), physical);
    }
    // ::ffff:10.0.0.1 and ::ffff:8.8.8.8 stand for IPv4 addresses
    assert!(!is_definitely_physical_addr(&v6(0, 0xffff_0a00_0001)));
    assert!(is_definitely_physical_addr(&v6(0, 0xffff_0808_0808)));
    assert!(!is_definitely_physical_addr(&v6(0xff02, 1)));
    assert!(!is_definitely_physical_addr(&v6(0, 0)));
    assert!(is_definitely_physical_addr(&v6(0xfec0, 1)));
    assert!(!is_definitely_physical_addr(&v6(0xfc00, 1)));
}

#[test]
fn physical_dst_disables_iface_bind_without_global_ctx() {
    let connector = WgTunnelConnector::new(
        "wg://35.74.75.198:11011".to_string(),
        create_wg_config().0,
    );
    assert!(
        !connector.dst_is_in_virtual_network(&v4(35, 74, 75, 198), &None),
        "公网物理地址不应判定为虚拟网内地址"
    );
    assert!(
        connector.dst_is_in_virtual_network(&v4(10, 126, 126, 1), &None),
        "虚拟网地址应判定为虚拟网内地址"
    );
    let mut connector = connector;
    connector.set_bind_addrs(vec![SocketAddr::new_v4(Ipv4Addr::new(192, 168, 1, 5), 0)]);
    assert!(!connector.can_bind_for_physical_dst(0, &None));
}

fn binds(plan: BindPlan) -> Vec<SocketAddr> {
    match plan {
        BindPlan::Each(list) => list,
        BindPlan::AnyV6 => panic!("an IPv4 destination is reached over IPv4"),
    }
}

#[test]
fn physical_destinations_bind_to_physical_addresses() {
    let any = SocketAddr::new_v4(Ipv4Addr::unspecified(), 0);
    let lan = SocketAddr::new_v4(Ipv4Addr::new(192, 168, 1, 5), 0);
    let tun = SocketAddr::new_v4(Ipv4Addr::new(10, 126, 126, 2), 0);
    let dst = SocketAddr::new_v4(Ipv4Addr::new(35, 74, 75, 198), 11011);
    let mut connector =
        WgTunnelConnector::new("wg://35.74.75.198:11011".to_string(), create_wg_config().1);
    assert_eq!(connector.remote_url(), "wg://35.74.75.198:11011");
    assert_eq!(binds(connector.plan_connect(dst, &None)), vec![any]);

    connector.set_bind_addrs(vec![tun, lan]);
    assert_eq!(binds(connector.plan_connect(dst, &None)), vec![any]);
    let known = Some(NetworkAnswers {
        dst_in_same_network: false,
        bind_is_virtual: vec![true, false],
    });
    assert_eq!(binds(connector.plan_connect(dst, &known)), vec![lan]);
    let all_virtual = Some(NetworkAnswers {
        dst_in_same_network: false,
        bind_is_virtual: vec![true, true],
    });
    assert_eq!(binds(connector.plan_connect(dst, &all_virtual)), vec![any]);
    let inside = Some(NetworkAnswers {
        dst_in_same_network: true,
        bind_is_virtual: vec![true, false],
    });
    assert_eq!(binds(connector.plan_connect(dst, &inside)), vec![tun, lan]);

    let dst6 = SocketAddr {
        ip: v6(0x2001, 1),
        port: 11011,
        flowinfo: 0,
        scope_id: 0,
    };
    assert!(matches!(connector.plan_connect(dst6, &None), BindPlan::AnyV6));

    connector.set_ip_version(IpVersion::V4);
    connector.set_resolved_addr(dst);
    assert_eq!(connector.ip_version, IpVersion::V4);
    assert_eq!(connector.resolved_addr, Some(dst));
}

/// A message in wire format: its type as a little-endian number, then bytes that can be told apart.
fn fake_wg_packet(msg_type: u32, len: usize) -> Vec<u8> {
    assert!(len >= 4);
    let mut buf = vec![0u8; len];
    buf[..4].copy_from_slice(&msg_type.to_le_bytes());
    for (i, b) in buf.iter_mut().enumerate().skip(4) {
        *b = (i % 251) as u8;
    }
    buf
}

fn obfs_flags() -> Flags {
    gen_default_flags()
}

#[test]
fn wg_obfs_config_from_flags_default_clamp_and_junk_guard() {
    let mut flags = obfs_flags();
    assert!(
        WgObfsConfig::from_flags(&flags).is_none(),
        "未设置 wg_obfs 时必须返回 None（原生 WireGuard 透传）"
    );
    flags.wg_obfs = Some(false);
    assert!(
        WgObfsConfig::from_flags(&flags).is_none(),
        "wg_obfs=false 时必须返回 None"
    );

    flags.wg_obfs = Some(true);
    assert_eq!(
        WgObfsConfig::from_flags(&flags),
        Some(WgObfsConfig::builtin_default())
    );

    let d = WgObfsConfig::builtin_default();
    for len in [
        WG_HANDSHAKE_INIT_SIZE + d.s1 as usize,
        WG_HANDSHAKE_RESPONSE_SIZE + d.s2 as usize,
        WG_COOKIE_REPLY_SIZE + d.s3 as usize,
    ] {
        assert!(
            !(d.jmin as usize..=d.jmax as usize).contains(&len),
            "内置默认 junk 区间 [{}..{}] 不应包含握手包长度 {}",
            d.jmin,
            d.jmax,
            len
        );
    }

    let mut flags = obfs_flags();
    flags.wg_obfs = Some(true);
    flags.wg_obfs_s1 = Some(1);
    flags.wg_obfs_s2 = Some(2);
    flags.wg_obfs_s3 = Some(3);
    flags.wg_obfs_s4 = Some(4);
    flags.wg_obfs_jc = Some(0);
    flags.wg_obfs_jmin = Some(300);
    flags.wg_obfs_jmax = Some(400);
    let cfg = WgObfsConfig::from_flags(&flags).unwrap();
    assert_eq!(
        (cfg.s1, cfg.s2, cfg.s3, cfg.s4, cfg.jc, cfg.jmin, cfg.jmax),
        (1, 2, 3, 4, 0, 300, 400)
    );

    let mut flags = obfs_flags();
    flags.wg_obfs = Some(true);
    flags.wg_obfs_s1 = Some(1000);
    flags.wg_obfs_s2 = Some(1000);
    flags.wg_obfs_s3 = Some(1000);
    flags.wg_obfs_s4 = Some(1000);
    flags.wg_obfs_jc = Some(1000);
    flags.wg_obfs_jmin = Some(0);
    flags.wg_obfs_jmax = Some(100_000);
    let cfg = WgObfsConfig::from_flags(&flags).unwrap();
    assert_eq!((cfg.s1, cfg.s2, cfg.s3), (64, 64, 64), "s1..s3 上限 64");
    assert_eq!(cfg.s4, 32, "s4 上限 32");
    assert_eq!(
        (cfg.jmin, cfg.jmax),
        (64, 1024),
        "junk 长度限制在 64..=1024"
    );
    assert_eq!(cfg.jc, 0, "该区间与握手包长度重叠 → junk 关闭");
    assert_eq!(
        WgObfsConfig::from_flags(&flags),
        Some(cfg),
        "同输入必须得到同结果（两端参数一致的前提）"
    );

    let mut flags = obfs_flags();
    flags.wg_obfs = Some(true);
    flags.wg_obfs_s1 = Some(0);
    flags.wg_obfs_s2 = Some(0);
    flags.wg_obfs_s3 = Some(0);
    flags.wg_obfs_jc = Some(1000);
    flags.wg_obfs_jmin = Some(200);
    flags.wg_obfs_jmax = Some(300);
    let cfg = WgObfsConfig::from_flags(&flags).unwrap();
    assert_eq!(cfg.jc, 10, "jc 上限 10");
    assert_eq!(
        (cfg.s1, cfg.s2, cfg.s3),
        (0, 0, 0),
        "Some(0) = 该字段不填充"
    );

    let mut flags = obfs_flags();
    flags.wg_obfs = Some(true);
    flags.wg_obfs_jmin = Some(900);
    flags.wg_obfs_jmax = Some(100);
    let cfg = WgObfsConfig::from_flags(&flags).unwrap();
    assert_eq!((cfg.jmin, cfg.jmax), (900, 900));

    let mut flags = obfs_flags();
    flags.wg_obfs = Some(true);
    flags.wg_obfs_s3 = Some(19);
    flags.wg_obfs_jc = Some(4);
    flags.wg_obfs_jmin = Some(64);
    flags.wg_obfs_jmax = Some(100);
    let cfg = WgObfsConfig::from_flags(&flags).unwrap();
    assert_eq!(cfg.jc, 0, "junk 区间包含 64+s3 时必须关闭 junk");
    assert!(!cfg.junk_enabled());

    let mut flags = obfs_flags();
    flags.wg_obfs = Some(true);
    flags.wg_obfs_s1 = Some(37);
    flags.wg_obfs_s2 = Some(42);
    flags.wg_obfs_s3 = Some(19);
    flags.wg_obfs_jc = Some(4);
    flags.wg_obfs_jmin = Some(200);
    flags.wg_obfs_jmax = Some(260);
    let cfg = WgObfsConfig::from_flags(&flags).unwrap();
    assert_eq!(cfg.jc, 4);
    assert!(cfg.junk_enabled());
}

#[test]
fn obfs_values_are_clamped() {
    assert_eq!(clamp_obfs_u8(None, 64, 37), 37);
    assert_eq!(clamp_obfs_u8(Some(64), 64, 37), 64);
    assert_eq!(clamp_obfs_u8(Some(65), 64, 37), 64);
    assert_eq!(clamp_obfs_u8(Some(0), 64, 37), 0);
    assert_eq!(clamp_obfs_junk(None, 200), 200);
    assert_eq!(clamp_obfs_junk(Some(63), 200), 64);
    assert_eq!(clamp_obfs_junk(Some(1025), 200), 1024);
    assert_eq!(clamp_obfs_junk(Some(u32::MAX), 200), 1024);
    assert_eq!(clamp_obfs_junk(Some(700), 200), 700);
    assert!(in_junk_range(200, 200, 260));
    assert!(in_junk_range(260, 200, 260));
    assert!(!in_junk_range(199, 200, 260));
    assert!(!in_junk_range(261, 200, 260));
}

#[test]
fn wg_config_obfs_builder() {
    let (server_cfg, _) = create_wg_config();
    assert_eq!(server_cfg.obfs(), None, "默认必须是原生 WireGuard");
    let obfs = WgObfsConfig::builtin_default();
    assert_eq!(server_cfg.clone().with_obfs(Some(obfs)).obfs(), Some(obfs));
    assert_eq!(server_cfg.clone().with_obfs(None).obfs(), None);

    let mut flags = gen_default_flags();
    flags.wg_obfs = Some(true);
    let cfg = create_wg_config().0.with_obfs_from_flags(&flags);
    assert_eq!(cfg.obfs(), Some(WgObfsConfig::builtin_default()));
}

#[test]
fn keys_of_a_network_and_of_the_portal() {
    let cfg = WgConfig::new_from_network_identity([3u8; 32]);
    assert_eq!(cfg.my_secret_key(), &[3u8; 32][..]);
    assert_eq!(cfg.peer_secret_key(), &[3u8; 32][..]);
    assert_eq!(cfg.my_public_key(), cfg.peer_public_key());
    assert_ne!(cfg.my_public_key(), cfg.my_secret_key());
    assert_eq!(cfg.wg_type, WgType::InternalUse);

    let portal = WgConfig::new_for_portal([3u8; 32], [4u8; 32]);
    assert_eq!(portal.my_public_key(), cfg.my_public_key());
    assert_eq!(portal.peer_secret_key(), &[4u8; 32][..]);
    assert_ne!(portal.peer_public_key(), portal.my_public_key());
    assert_eq!(portal.wg_type, WgType::ExternalUse);
}

#[test]
fn x25519_public_key_of_a_known_secret() {
    // the first key pair of RFC 7748, section 6.1
    let secret: [u8; 32] = [
        0x77, 0x07, 0x6d, 0x0a, 0x73, 0x18, 0xa5, 0x7d, 0x3c, 0x16, 0xc1, 0x72, 0x51, 0xb2, 0x66,
        0x45, 0xdf, 0x4c, 0x2f, 0x87, 0xeb, 0xc0, 0x99, 0x2a, 0xb1, 0x77, 0xfb, 0xa5, 0x1d, 0xb9,
        0x2c, 0x2a,
    ];
    let public: [u8; 32] = [
        0x85, 0x20, 0xf0, 0x09, 0x89, 0x30, 0xa7, 0x54, 0x74, 0x8b, 0x7d, 0xdc, 0xb4, 0x3e, 0xf7,
        0x5a, 0x0d, 0xbf, 0x3a, 0x0d, 0x26, 0x38, 0x1a, 0xf4, 0xeb, 0xa4, 0xa9, 0x8e, 0xaa, 0x9b,
        0x4e, 0x6a,
    ];
    let cfg = WgConfig::new_from_network_identity(secret);
    assert_eq!(cfg.my_public_key(), &public[..]);
}

#[test]
fn wg_obfs_encode_decode_roundtrip() {
    let obfs = WgObfsConfig::builtin_default();
    for (msg_type, len) in [
        (WG_MSG_HANDSHAKE_INIT, WG_HANDSHAKE_INIT_SIZE),
        (WG_MSG_HANDSHAKE_RESPONSE, WG_HANDSHAKE_RESPONSE_SIZE),
        (WG_MSG_COOKIE_REPLY, WG_COOKIE_REPLY_SIZE),
        (WG_MSG_DATA, 96),
    ] {
        let plain = fake_wg_packet(msg_type, len);
        let encoded = encode_wg_packet(&plain, Some(obfs)).expect("开启混淆后必须编码");
        let pad = match msg_type {
            WG_MSG_HANDSHAKE_INIT => obfs.s1 as usize,
            WG_MSG_HANDSHAKE_RESPONSE => obfs.s2 as usize,
            WG_MSG_COOKIE_REPLY => obfs.s3 as usize,
            _ => obfs.s4 as usize,
        };
        assert_eq!(
            encoded.len(),
            len + pad,
            "msg_type={} 填充长度不对",
            msg_type
        );
        if msg_type != WG_MSG_DATA {
            assert_eq!(
                &encoded[pad..],
                &plain[..],
                "msg_type={} 前置填充出错",
                msg_type
            );
        } else {
            assert_eq!(&encoded[..len], &plain[..], "Data 尾部填充出错");
        }

        match decode_wg_packet(&encoded, Some(obfs), false) {
            WgDecodedPacket::Packet {
                msg_type: t,
                payload,
            } => {
                assert_eq!(t, msg_type);
                assert_eq!(payload, &plain[..], "msg_type={} 解码后应还原", msg_type);
            }
            WgDecodedPacket::Junk(reason) => {
                panic!("msg_type={} 不应被判为 junk: {:?}", msg_type, reason)
            }
        }
    }
}

#[test]
fn wg_obfs_disabled_is_passthrough() {
    let init = fake_wg_packet(WG_MSG_HANDSHAKE_INIT, WG_HANDSHAKE_INIT_SIZE);
    assert!(
        encode_wg_packet(&init, None).is_none(),
        "未开启混淆时必须原样发送"
    );
    match decode_wg_packet(&init, None, false) {
        WgDecodedPacket::Packet { msg_type, payload } => {
            assert_eq!(msg_type, WG_MSG_HANDSHAKE_INIT);
            assert_eq!(payload, &init[..], "未开启混淆时必须原样交给 boringtun");
        }
        WgDecodedPacket::Junk(reason) => panic!("未开启混淆时不应丢弃任何报文: {:?}", reason),
    }

    assert!(encode_wg_packet(&[9u8; 32], Some(WgObfsConfig::builtin_default())).is_none());
    assert!(encode_wg_packet(&[1u8, 2], Some(WgObfsConfig::builtin_default())).is_none());
}

#[test]
fn wg_obfs_decode_requires_len_and_type_match() {
    let obfs = WgObfsConfig::builtin_default();

    let fake = fake_wg_packet(WG_MSG_DATA, WG_HANDSHAKE_INIT_SIZE + obfs.s1 as usize);
    match decode_wg_packet(&fake, Some(obfs), false) {
        WgDecodedPacket::Packet { msg_type, payload } => {
            assert_eq!(msg_type, WG_MSG_DATA, "长度匹配但类型不匹配时不得判为 Init");
            assert_eq!(
                payload.len(),
                fake.len() - obfs.s4 as usize,
                "应走 Data 分支（剥尾部 s4）而不是剥头部 s1"
            );
            assert_eq!(payload, &fake[..fake.len() - obfs.s4 as usize]);
        }
        WgDecodedPacket::Junk(reason) => panic!("不应判为 junk: {:?}", reason),
    }

    let plain_init = fake_wg_packet(WG_MSG_HANDSHAKE_INIT, WG_HANDSHAKE_INIT_SIZE);
    match decode_wg_packet(&plain_init, Some(obfs), false) {
        WgDecodedPacket::Packet { payload, .. } => {
            assert_eq!(
                payload.len(),
                WG_HANDSHAKE_INIT_SIZE - obfs.s4 as usize,
                "长度不匹配时必须走 Data 分支（交由 boringtun 按长度拒绝）"
            );
        }
        WgDecodedPacket::Junk(reason) => panic!("不应判为 junk: {:?}", reason),
    }

    assert!(matches!(
        decode_wg_packet(&[0u8; 8], Some(obfs), true),
        WgDecodedPacket::Junk(_)
    ));
    assert!(matches!(
        decode_wg_packet(&[0u8; 8], Some(obfs), true),
        WgDecodedPacket::Junk(JunkReason::TooShort)
    ));
}

#[test]
fn wg_obfs_junk_only_dropped_before_session_established() {
    let obfs = WgObfsConfig::builtin_default();

    let junk_len = obfs.jmin as usize + 5;
    let junk = vec![0xa5u8; junk_len];
    assert!(matches!(
        decode_wg_packet(&junk, Some(obfs), false),
        WgDecodedPacket::Junk(_)
    ));
    assert!(matches!(
        decode_wg_packet(&junk, Some(obfs), false),
        WgDecodedPacket::Junk(JunkReason::BeforeSession)
    ));

    match decode_wg_packet(&junk, Some(obfs), true) {
        WgDecodedPacket::Packet { payload, .. } => {
            assert_eq!(payload.len(), junk_len - obfs.s4 as usize);
        }
        WgDecodedPacket::Junk(reason) => panic!("会话建立后不应再按 junk 丢弃: {:?}", reason),
    }

    let plain = fake_wg_packet(WG_MSG_DATA, obfs.jmin as usize - obfs.s4 as usize);
    let encoded = encode_wg_packet(&plain, Some(obfs)).unwrap();
    assert_eq!(encoded.len(), obfs.jmin as usize);
    assert!(matches!(
        decode_wg_packet(&encoded, Some(obfs), false),
        WgDecodedPacket::Junk(_)
    ));
    match decode_wg_packet(&encoded, Some(obfs), true) {
        WgDecodedPacket::Packet { msg_type, payload } => {
            assert_eq!(msg_type, WG_MSG_DATA);
            assert_eq!(payload, &plain[..]);
        }
        WgDecodedPacket::Junk(reason) => panic!("会话建立后必须按 Data 处理: {:?}", reason),
    }
}

#[test]
fn message_types_are_little_endian() {
    assert_eq!(read_wg_msg_type(&[1, 2, 3]), None);
    assert_eq!(read_wg_msg_type(&[1, 2, 3, 4]), Some(0x0403_0201));
    assert_eq!(read_wg_msg_type(&[4, 0, 0, 0, 9]), Some(4));
}

#[test]
fn padding_goes_before_handshakes_and_behind_data() {
    let obfs = WgObfsConfig::builtin_default();
    let init = fake_wg_packet(WG_MSG_HANDSHAKE_INIT, 148);
    let data = fake_wg_packet(WG_MSG_DATA, 40);
    assert_eq!(wg_padding_len(&init, Some(obfs)), 37);
    assert_eq!(wg_padding_len(&data, Some(obfs)), 11);
    assert_eq!(wg_padding_len(&data, None), 0);
    let pad = vec![0xeeu8; 3];
    let padded_init = pad_wg_packet(&init, &pad);
    assert_eq!(&padded_init[..3], &pad[..]);
    assert_eq!(&padded_init[3..], &init[..]);
    let padded_data = pad_wg_packet(&data, &pad);
    assert_eq!(&padded_data[..40], &data[..]);
    assert_eq!(&padded_data[40..], &pad[..]);
    assert_eq!(datagram_for_peer(&data, None), data);
    assert_eq!(datagram_for_peer(&data, Some(obfs)).len(), 51);
}

#[test]
fn padding_and_junk_are_random() {
    let obfs = WgObfsConfig::builtin_default();
    let init = fake_wg_packet(WG_MSG_HANDSHAKE_INIT, 148);
    let a = encode_wg_packet(&init, Some(obfs)).unwrap();
    let b = encode_wg_packet(&init, Some(obfs)).unwrap();
    assert_ne!(a, b);
    assert!(a[..37].iter().any(|x| *x != 0));

    let packets = make_obfs_junk_packets(&obfs);
    assert_eq!(packets.len(), 4);
    for p in &packets {
        assert!((200..=260).contains(&p.len()));
        assert!(p.iter().any(|x| *x != 0));
    }
    assert!(make_obfs_junk_packets(&WgObfsConfig { jc: 0, ..obfs }).is_empty());
    let lens: Vec<usize> = (0..100)
        .map(|_| make_obfs_junk_packets(&WgObfsConfig { jc: 1, ..obfs })[0].len())
        .collect();
    assert!(lens.iter().any(|l| *l != lens[0]));
    assert_eq!(junk_packet_len(&obfs, 0), 200);
    assert_eq!(junk_packet_len(&obfs, 60), 260);
    assert_eq!(junk_packet_len(&obfs, 61), 200);
    assert_eq!(junk_packet_len(&WgObfsConfig { jmin: 90, jmax: 90, ..obfs }, 77), 90);
}

#[test]
fn the_ip_header_of_a_message() {
    let mut packet = vec![0xffu8; 24];
    fill_ip_header(&mut packet, 4);
    assert_eq!(
        packet,
        vec![
            0x45, 0, 0, 24, 0, 0, 0, 0, 64, 0, 0, 0, 0, 0, 0, 0, 0, 0, 0, 0, 0xff, 0xff, 0xff, 0xff
        ]
    );
    let mut long = vec![0u8; 20];
    fill_ip_header(&mut long, 0x1_0000);
    assert_eq!(&long[2..4], &[0, 20]);
    assert_eq!(remove_ip_header(&packet, true), &[0xffu8; 4][..]);
    let v6_packet = vec![1u8; 42];
    assert_eq!(remove_ip_header(&v6_packet, false), &[1u8, 1][..]);
}

#[test]
fn messages_survive_both_ends() {
    let mut message = vec![0u8; 20];
    message.extend_from_slice(b"payload");
    let sent = prepare_outbound(WgType::InternalUse, message.clone(), 7);
    assert_eq!(sent[0], 0x45);
    assert_eq!(accept_inbound(WgType::InternalUse, sent), Some(message));
    let raw = vec![0x45u8, 1, 2];
    assert_eq!(prepare_outbound(WgType::ExternalUse, raw.clone(), 0), raw);
    assert_eq!(accept_inbound(WgType::ExternalUse, raw.clone()), Some(raw.clone()));
    assert_eq!(accept_inbound(WgType::InternalUse, raw), None);
    assert_eq!(accept_inbound(WgType::InternalUse, vec![]), None);
    assert_eq!(accept_inbound(WgType::InternalUse, vec![0x60; 39]), None);
    assert_eq!(accept_inbound(WgType::InternalUse, vec![0x60; 41]).unwrap().len(), 21);
}

#[test]
fn reactions_to_the_engine() {
    let t = WgType::ExternalUse;
    assert!(matches!(
        react_to_decapsulated(t, WG_MSG_HANDSHAKE_INIT, TunnOutcome::ToNetwork(vec![5])),
        FromPeer::Reply(p) if p == vec![5]
    ));
    let forward = react_to_decapsulated(t, WG_MSG_DATA, TunnOutcome::ToTunnelV4(vec![0x45, 7]));
    assert!(forward.data_accepted());
    assert!(matches!(forward, FromPeer::Forward(p) if p == vec![0x45, 7]));
    let forward6 = react_to_decapsulated(t, WG_MSG_DATA, TunnOutcome::ToTunnelV6(vec![0x60]));
    assert!(forward6.data_accepted());
    assert!(react_to_decapsulated(t, WG_MSG_DATA, TunnOutcome::Done).data_accepted());
    assert!(!react_to_decapsulated(t, WG_MSG_COOKIE_REPLY, TunnOutcome::Done).data_accepted());
    assert!(!react_to_decapsulated(t, WG_MSG_DATA, TunnOutcome::Failed { expired: false })
        .data_accepted());
    assert!(matches!(
        react_to_decapsulated(WgType::InternalUse, WG_MSG_DATA, TunnOutcome::ToTunnelV4(vec![0x45])),
        FromPeer::Malformed
    ));

    assert!(matches!(
        after_tick(TunnOutcome::ToNetwork(vec![1])),
        RoutineStep::Act(RoutineAction::Send(packet)) if packet == vec![1]
    ));
    assert!(matches!(
        after_tick(TunnOutcome::Failed { expired: false }),
        RoutineStep::Act(RoutineAction::Report)
    ));
    assert!(matches!(after_tick(TunnOutcome::Failed { expired: true }), RoutineStep::Restart));
    for quiet in [TunnOutcome::Done, TunnOutcome::ToTunnelV4(vec![]), TunnOutcome::ToTunnelV6(vec![])]
    {
        assert!(matches!(
            after_tick(quiet),
            RoutineStep::Act(RoutineAction::Sleep(d)) if d.nanos == 250 * NANOS_PER_MILLI
        ));
    }
}

fn message(content: &[u8]) -> Vec<u8> {
    let mut packet = vec![0u8; 20];
    packet.extend_from_slice(content);
    packet
}

fn handshake(server: &mut WgPeerData, client: &mut WgPeerData) {
    let init = client.create_handshake_init(false).unwrap();
    let wire = client.datagram(&init);
    let response = match server.handle_one_packet_from_peer(&wire) {
        FromPeer::Reply(packet) => server.datagram(&packet),
        other => panic!("an initiation is answered: {:?}", other),
    };
    let keepalive = match client.handle_wait_datagram(&response) {
        WaitPacket::Reply { packet, handshake } => {
            assert!(handshake_complete(handshake, true, client.is_session_established()));
            client.datagram(&packet)
        }
        other => panic!("a response is answered: {:?}", other),
    };
    assert!(!server.is_session_established());
    let done = server.handle_one_packet_from_peer(&keepalive);
    assert!(done.data_accepted());
    assert!(server.is_session_established());
}

#[test]
fn packets_go_through_the_tunnel() {
    let (server_cfg, client_cfg) = create_wg_config();
    for obfs in [None, Some(WgObfsConfig::builtin_default())] {
        let mut server = WgPeerData::new(&server_cfg.with_obfs(obfs));
        let mut client = WgPeerData::new(&client_cfg.with_obfs(obfs));
        handshake(&mut server, &mut client);

        let packet = message(b"hello over the tunnel");
        let sealed = client.handle_one_packet_from_me(packet.clone(), 21).unwrap();
        assert_eq!(sealed.len(), packet.len() + 32);
        let wire = client.datagram(&sealed);
        match server.handle_one_packet_from_peer(&wire) {
            FromPeer::Forward(bytes) => assert_eq!(bytes, packet),
            other => panic!("a data packet is forwarded: {:?}", other),
        }
        // the same datagram again is refused
        assert!(!server.handle_one_packet_from_peer(&wire).data_accepted());
        let back = server.handle_one_packet_from_me(message(b"and back"), 8).unwrap();
        let wire = server.datagram(&back);
        match client.handle_one_packet_from_peer(&wire) {
            FromPeer::Forward(bytes) => assert_eq!(bytes, message(b"and back")),
            other => panic!("a data packet is forwarded: {:?}", other),
        }
        assert!(matches!(client.routine_step(), RoutineAction::Sleep(_)));
    }
}

#[test]
fn packets_wait_for_the_session() {
    let (server_cfg, client_cfg) = create_wg_config();
    let mut server = WgPeerData::new(&server_cfg);
    let mut client = WgPeerData::new(&client_cfg);
    let init = client.handle_one_packet_from_me(message(b"early"), 5).unwrap();
    assert_eq!(init.len(), WG_HANDSHAKE_INIT_SIZE);
    assert!(client.handle_one_packet_from_me(message(b"later"), 5).is_none());
    assert!(client.create_handshake_init(false).is_none());
    assert!(!client.is_session_established());
    let response = match server.handle_one_packet_from_peer(&init) {
        FromPeer::Reply(packet) => packet,
        other => panic!("an initiation is answered: {:?}", other),
    };
    assert!(matches!(
        client.handle_one_packet_from_peer(&response),
        FromPeer::Reply(_)
    ));
    let first = client.next_queued_packet().unwrap();
    assert!(matches!(
        server.handle_one_packet_from_peer(&first),
        FromPeer::Forward(bytes) if bytes == message(b"early")
    ));
    let second = client.next_queued_packet().unwrap();
    assert!(matches!(
        server.handle_one_packet_from_peer(&second),
        FromPeer::Forward(bytes) if bytes == message(b"later")
    ));
    assert!(client.next_queued_packet().is_none());
}

#[test]
fn a_full_queue_takes_no_more_packets() {
    let (server_cfg, client_cfg) = create_wg_config();
    let mut server = WgPeerData::new(&server_cfg);
    let mut client = WgPeerData::new(&client_cfg);
    assert!(client.next_queued_packet().is_none());
    let init = client.handle_one_packet_from_me(message(&[0]), 1).unwrap();
    for i in 1..=300u16 {
        assert!(client.handle_one_packet_from_me(message(&[(i % 256) as u8]), 1).is_none());
    }
    let response = match server.handle_one_packet_from_peer(&init) {
        FromPeer::Reply(packet) => packet,
        other => panic!("an initiation is answered: {:?}", other),
    };
    assert!(matches!(
        client.handle_one_packet_from_peer(&response),
        FromPeer::Reply(_)
    ));
    for i in 0..WG_QUEUE_DEPTH {
        let wire = client.next_queued_packet().unwrap();
        assert_eq!(wire.len(), message(&[0]).len() + WG_DATA_OVERHEAD);
        assert!(matches!(
            server.handle_one_packet_from_peer(&wire),
            FromPeer::Forward(bytes) if bytes == message(&[i as u8])
        ));
    }
    assert!(client.next_queued_packet().is_none());
}

#[test]
fn exhausted_counters_do_not_reach_the_engine() {
    let (server_cfg, client_cfg) = create_wg_config();
    let mut server = WgPeerData::new(&server_cfg);
    let mut client = WgPeerData::new(&client_cfg);
    handshake(&mut server, &mut client);
    let sealed = client.handle_one_packet_from_me(message(b"x"), 1).unwrap();
    for (counter, exhausted) in [
        (u64::MAX, true),
        (u64::MAX - 1023, true),
        (u64::MAX - 1024, false),
        (0, false),
    ] {
        let mut packet = sealed.clone();
        packet[8..16].copy_from_slice(&counter.to_le_bytes());
        assert_eq!(has_exhausted_counter(&packet), exhausted);
        if counter != 0 {
            assert!(!server.handle_one_packet_from_peer(&packet).data_accepted());
            assert!(matches!(server.handle_wait_datagram(&packet), WaitPacket::Refused));
        }
    }
    let mut response = vec![0xffu8; WG_HANDSHAKE_RESPONSE_SIZE];
    response[..4].copy_from_slice(&[2, 0, 0, 0]);
    assert!(!has_exhausted_counter(&response));
    assert!(!has_exhausted_counter(&[4, 0, 0, 0]));
    // the packet itself still gets through
    assert!(server.handle_one_packet_from_peer(&sealed).data_accepted());
}

#[test]
fn a_waiting_packet_waits_on_without_a_session() {
    let (_, client_cfg) = create_wg_config();
    let mut client = WgPeerData::new(&client_cfg);
    let init = client.handle_one_packet_from_me(message(b"early"), 5).unwrap();
    assert_eq!(init.len(), WG_HANDSHAKE_INIT_SIZE);
    // the handshake is in progress, so the packet goes back to the queue and nothing is sent
    assert!(client.next_queued_packet().is_none());
    assert!(client.next_queued_packet().is_none());
}

#[test]
fn no_session_where_the_obfuscation_differs() {
    let (server_cfg, client_cfg) = create_wg_config();
    let mut server = WgPeerData::new(&server_cfg);
    let mut client =
        WgPeerData::new(&client_cfg.with_obfs(Some(WgObfsConfig::builtin_default())));
    let init = client.create_handshake_init(true).unwrap();
    let wire = client.datagram(&init);
    assert!(matches!(
        server.handle_one_packet_from_peer(&wire),
        FromPeer::Nothing { accepted: false }
    ));
    assert!(!server.is_session_established());

    let mut plain_client = WgPeerData::new(&client_cfg);
    let mut padded_server =
        WgPeerData::new(&server_cfg.with_obfs(Some(WgObfsConfig::builtin_default())));
    let init = plain_client.create_handshake_init(true).unwrap();
    assert!(matches!(
        padded_server.handle_one_packet_from_peer(&init),
        FromPeer::Nothing { accepted: false }
    ));
}

#[test]
fn strangers_get_no_session() {
    let (server_cfg, client_cfg) = create_wg_config();
    let mut server = WgPeerData::new(&server_cfg);
    let stranger_cfg = WgConfig { my_secret_key: [1u8; 32], ..client_cfg };
    let mut stranger = WgPeerData::new(&stranger_cfg);
    let init = stranger.create_handshake_init(true).unwrap();
    assert!(matches!(
        server.handle_one_packet_from_peer(&init),
        FromPeer::Nothing { accepted: false }
    ));
}

#[test]
fn datagrams_during_the_wait() {
    let (server_cfg, client_cfg) = create_wg_config();
    let obfs = WgObfsConfig::builtin_default();
    let mut client = WgPeerData::new(&client_cfg.with_obfs(Some(obfs)));
    assert!(matches!(client.handle_wait_datagram(&[0u8; 230]), WaitPacket::Dropped));
    assert!(matches!(client.handle_wait_datagram(&[0u8; 100]), WaitPacket::Refused));
    let mut server = WgPeerData::new(&server_cfg.with_obfs(Some(obfs)));
    handshake(&mut server, &mut client);
    let sealed = server.handle_one_packet_from_me(message(b"x"), 1).unwrap();
    let wire = server.datagram(&sealed);
    assert!(matches!(
        client.handle_wait_datagram(&wire),
        WaitPacket::Processed { handshake: false }
    ));
    assert!(!handshake_complete(false, true, true));
    assert!(!handshake_complete(true, false, true));
    assert!(!handshake_complete(true, true, false));
    assert!(handshake_complete(true, true, true));
}

#[test]
fn the_wait_repeats_and_gives_up() {
    let start = Instant { nanos: 7 };
    let mut wait = HandshakeWait::start(start);
    assert_eq!(wait.deadline.nanos, 7 + 5 * NANOS_PER_SEC);
    assert_eq!(wait.wake().nanos, 7 + 2 * NANOS_PER_SEC);
    assert_eq!(wait.on_quiet(wait.wake()), OnQuiet::Repeat);
    wait.repeated(Instant { nanos: 7 + 2 * NANOS_PER_SEC });
    assert_eq!(wait.wake().nanos, 7 + 4 * NANOS_PER_SEC);
    wait.repeated(Instant { nanos: 7 + 4 * NANOS_PER_SEC });
    assert_eq!(wait.wake(), wait.deadline);
    assert_eq!(
        wait.on_quiet(wait.deadline),
        OnQuiet::GiveUp(HandshakeError::Timeout)
    );
}

fn at(secs: u64) -> Instant {
    Instant { nanos: secs * NANOS_PER_SEC }
}

#[test]
fn half_open_peers_are_dropped() {
    let (server_cfg, _) = create_wg_config();
    let mut listener = WgTunnelListener::new("wg://0.0.0.0:11011".to_string(), server_cfg);
    assert_eq!(listener.local_url(), "wg://0.0.0.0:11011");
    let a = SocketAddr::new_v4(Ipv4Addr::new(1, 2, 3, 4), 5000);
    let b = SocketAddr::new_v4(Ipv4Addr::new(1, 2, 3, 4), 5001);
    assert!(listener.welcome(a, at(10)));
    assert!(!listener.welcome(a, at(11)));
    assert!(listener.note_received(a, at(11)));
    assert!(!listener.note_received(b, at(11)));
    assert!(listener.welcome(b, at(11)));
    // the response alone confirms nothing
    assert!(!listener.note_handled(a, false, true));
    assert!(listener.note_handled(b, true, true));
    assert!(!listener.note_handled(b, true, true));
    assert!(listener.get(b).unwrap().is_delivered());
    assert_eq!(listener.get(a).unwrap().recv_packet_count(), 1);

    assert!(listener.sweep(at(14)).is_empty());
    let dropped = listener.sweep(at(15));
    assert_eq!(dropped, vec![a.key()]);
    assert!(listener.get(a).is_none());
    assert!(listener.get(b).is_some());
    assert!(listener.sweep(at(71)).is_empty());
    assert_eq!(listener.sweep(at(72)), vec![b.key()]);
    assert!(!listener.note_handled(b, true, true));
}

#[test]
fn ended_tunnels_are_dropped() {
    let (server_cfg, _) = create_wg_config();
    let mut listener = WgTunnelListener::new("wg://0.0.0.0:11011".to_string(), server_cfg);
    let a = SocketAddr::new_v4(Ipv4Addr::new(1, 2, 3, 4), 5000);
    assert!(listener.welcome(a, at(1)));
    assert!(listener.note_handled(a, true, true));
    listener.note_stopped(a);
    assert_eq!(listener.sweep(at(2)), vec![a.key()]);
}

#[test]
fn a_tunnel_is_given_once() {
    let mut peer = WgPeer::new(at(1));
    assert!(!peer.take_tunnel_if_confirmed());
    peer.note_handled(true, false);
    assert!(!peer.is_handshake_confirmed());
    assert!(!peer.take_tunnel_if_confirmed());
    peer.note_handled(false, true);
    assert!(peer.is_handshake_confirmed());
    assert!(peer.take_tunnel_if_confirmed());
    assert!(!peer.take_tunnel_if_confirmed());
    assert!(peer.is_retained(at(50)));
    peer.stop();
    assert!(!peer.is_retained(at(50)));
}

#[test]
fn addresses_have_keys_of_their_own() {
    let a = SocketAddr::new_v4(Ipv4Addr::new(0, 0, 0, 1), 1);
    let b = SocketAddr { ip: IpAddr::V6(Ipv6Addr { bits: 1 }), port: 1, flowinfo: 0, scope_id: 0 };
    assert_ne!(a.key(), b.key());
    assert_eq!(a.key(), (false, 1, 1, 0, 0));
    assert!(b.is_ipv6() && !a.is_ipv6());
}
