//! Rules of the Windows firewall.
//!
//! A rule for a program does not let UDP in where the program runs as a service, so an exit node
//! also gets rules for its ports.

pub mod interface_rules;
pub mod port_rules;
pub mod program_rules;
pub mod sockets;
