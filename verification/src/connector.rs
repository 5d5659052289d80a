//! Outgoing connections: which are wanted, which are tried again, and when.

pub mod backoff;
pub mod manual;
