//! The WireGuard transport: obfuscation of the wire format, peer life cycle, connecting.

pub mod config;
pub mod connector;
pub mod handshake;
pub mod listener;
pub mod obfs;
pub mod packet;
pub mod peer_data;
pub mod tunn;
