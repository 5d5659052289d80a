//! Name resolution through exit nodes.

pub mod exit_dns_relay;
pub mod exit_dns_server;
pub mod forward_rpc;
