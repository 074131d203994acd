//! Relay-first VPN dataplane: addressing, framing, reliable streams,
//! replay protection and the routing decisions of the overlay nodes.

pub mod addr;
pub mod packet;
pub mod protocol;
pub mod stream;
pub mod ops;
pub mod seqmap;
pub mod ant;
pub mod clock;
pub mod stream_reliable;
pub mod session;
pub mod roles;
pub mod transport;
pub mod codec;
pub mod route;
pub mod wire;
pub mod crypto;
pub mod handshake;
pub mod iptext;
pub mod handshake_cookie;
pub mod http;
pub mod linger;
pub mod flow;
pub mod node_config;
pub mod discovery;
pub mod route_store;
pub mod build_info;
pub mod config;
pub mod pheromone;
pub mod text;
pub mod validation;
