//! Decision logic of a mesh VPN node, verified with Verus.
#![allow(unused_imports)]

pub mod clock;
pub mod collections;
pub mod connector;
pub mod darwin;
pub mod digits;
pub mod dns;
pub mod firewall;
pub mod ip_text;
pub mod net;
pub mod peer;
pub mod peer_exclude;
pub mod proxy_cidrs;
pub mod random;
pub mod route_exclude;
pub mod scan;
pub mod text;
pub mod url;
pub mod wireguard;
