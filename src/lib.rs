//! A registry that leases TCP port numbers from a fixed range to local
//! processes, advertised under a (service, user) pair.

pub mod ports;
pub mod protocol;
pub mod handler;
pub mod responder;
