//! Verified core of a two-tier TCP request router: wire framing, routing
//! tables, and the decisions of the forwarding and connection-handling paths.

pub mod config;
pub mod connection;
pub mod demux;
pub mod error;
pub mod forwarder;
pub mod hop;
pub mod hop_manager;
pub mod protocol;
pub mod resolver;
pub mod routing_state;
pub mod rzid;
pub mod strmap;
pub mod text;
pub mod buffer;
pub mod tcp_server;
