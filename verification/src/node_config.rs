//! Unified node configuration for manual multi-node deployments, and its validation.
use crate::addr::{IpAddress, NodeAddr, Protocol, SocketAddress};
use vstd::prelude::*;

verus! {

/// What a node does in the overlay.
#[derive(Debug, Clone, Copy, PartialEq, Eq, Hash, Structural)]
pub enum NodeRole {
    Client,
    Relay,
    Exit,
}

/// Node configuration; the defaults of the optional settings are the `default_*` values.
#[derive(Debug, Clone)]
pub struct NodeConfig {
    pub role: NodeRole,
    pub bind_ip: IpAddress,
    pub bind_port: u16,
    /// Route seed / bootstrap peers: for manual setups the ordered hop list (relays, then exit).
    pub peers: Vec<NodeAddr>,
    pub ants_enabled: bool,
    /// Drain timeout for graceful shutdown.
    pub drain_timeout_sec: u64,
    pub health_enabled: bool,
    /// Client only: local TCP listener.
    pub client_local_listen: SocketAddress,
    /// Client only: route length (1 to 16).
    pub route_length: u8,
    /// Exit only: target service address (TCP).
    pub exit_target_addr: String,
    /// Exit only: most in-flight response DATA frames per stream.
    pub exit_response_window_frames: usize,
    /// Exit only: allowlist of target hosts (not enforced).
    pub exit_target_allowlist: Option<Vec<String>>,
    pub discovery_enabled: bool,
    pub discovery_query_on_start: bool,
    /// Bounded local cache size for node advertisements.
    pub discovery_max_entries: usize,
    /// Freshness TTL (seconds) for advertisements accepted and stored.
    pub discovery_advertise_ttl_sec: u64,
}

/// Why a node configuration was refused.
#[derive(Debug, Clone, Copy, PartialEq, Eq, Structural)]
pub enum ConfigError {
    /// bind_port must be non-zero.
    BindPortZero,
    /// route_length must be in 1..=16.
    RouteLength,
    /// drain_timeout_sec must be in 1..=600.
    DrainTimeout,
    /// discovery_max_entries must be in 1..=4096.
    DiscoveryMaxEntries,
    /// discovery_advertise_ttl_sec must be in 1..=3600.
    DiscoveryTtl,
    /// A relay needs at least one peer (the exit).
    RelayWithoutPeers,
    /// A relay's peers must be UDP.
    RelayPeerNotUdp,
    /// An exit needs a non-blank target address.
    ExitTargetEmpty,
    /// exit_response_window_frames must be in 8..=256.
    ExitResponseWindow,
    /// A client with a route of two or more hops needs peers.
    ClientWithoutPeers,
}

/// 127.0.0.1:10080
pub fn default_client_local_listen() -> (r: SocketAddress)
    ensures
        r == (SocketAddress { ip: IpAddress::V4(0x7f00_0001), port: 10080 }),
{
    SocketAddress { ip: IpAddress::V4(0x7f00_0001), port: 10080 }
}

pub fn default_route_length() -> (r: u8)
    ensures
        r == 2,
{
    2
}

/// `127.0.0.1:8080`
pub fn default_exit_target_addr() -> (r: String)
    ensures
        r@ == "127.0.0.1:8080"@,
{
    String::from_str("127.0.0.1:8080")
}

pub fn default_exit_response_window_frames() -> (r: usize)
    ensures
        r == 64,
{
    64
}

pub fn default_drain_timeout_sec() -> (r: u64)
    ensures
        r == 20,
{
    20
}

pub fn default_health_enabled() -> (r: bool)
    ensures
        r,
{
    true
}

pub fn default_discovery_enabled() -> (r: bool)
    ensures
        !r,
{
    false
}

pub fn default_discovery_query_on_start() -> (r: bool)
    ensures
        !r,
{
    false
}

pub fn default_discovery_max_entries() -> (r: usize)
    ensures
        r == 256,
{
    256
}

pub fn default_discovery_advertise_ttl_sec() -> (r: u64)
    ensures
        r == 300,
{
    300
}

impl ConfigError {
    /// The message an operator sees for the refusal.
    pub fn message(self) -> (r: &'static str)
        ensures
            self == ConfigError::BindPortZero ==> r == "bind_port must be non-zero",
            self == ConfigError::RouteLength ==> r == "route_length must be in 1..=16",
            self == ConfigError::DrainTimeout ==> r == "drain_timeout_sec must be in 1..=600",
            self == ConfigError::DiscoveryMaxEntries ==> r == "discovery_max_entries must be in 1..=4096",
            self == ConfigError::DiscoveryTtl ==> r == "discovery_advertise_ttl_sec must be in 1..=3600",
            self == ConfigError::RelayWithoutPeers ==> r == "relay requires at least one peer (exit addr) in peers[]",
            self == ConfigError::RelayPeerNotUdp ==> r == "relay peers must be UDP for this stage",
            self == ConfigError::ExitTargetEmpty ==> r == "exit_target_addr must be non-empty",
            self == ConfigError::ExitResponseWindow ==> r == "exit_response_window_frames must be in 8..=256",
            self == ConfigError::ClientWithoutPeers ==> r == "client route_length>=2 requires peers[] (relay/exit seed)",
    {
        match self {
            ConfigError::BindPortZero => "bind_port must be non-zero",
            ConfigError::RouteLength => "route_length must be in 1..=16",
            ConfigError::DrainTimeout => "drain_timeout_sec must be in 1..=600",
            ConfigError::DiscoveryMaxEntries => "discovery_max_entries must be in 1..=4096",
            ConfigError::DiscoveryTtl => "discovery_advertise_ttl_sec must be in 1..=3600",
            ConfigError::RelayWithoutPeers => "relay requires at least one peer (exit addr) in peers[]",
            ConfigError::RelayPeerNotUdp => "relay peers must be UDP for this stage",
            ConfigError::ExitTargetEmpty => "exit_target_addr must be non-empty",
            ConfigError::ExitResponseWindow => "exit_response_window_frames must be in 8..=256",
            ConfigError::ClientWithoutPeers => "client route_length>=2 requires peers[] (relay/exit seed)",
        }
    }
}

/// Unicode White_Space, as `char::is_whitespace` decides it.
pub open spec fn is_white_space(c: char) -> bool {
    let v = c as u32;
    (0x09 <= v <= 0x0d) || v == 0x20 || v == 0x85 || v == 0xa0 || v == 0x1680 || (0x2000 <= v <= 0x200a) || v
        == 0x2028 || v == 0x2029 || v == 0x202f || v == 0x205f || v == 0x3000
}

pub(crate) fn char_is_white_space(c: char) -> (r: bool)
    ensures
        r == is_white_space(c),
{
    let v = c as u32;
    (0x09 <= v && v <= 0x0d) || v == 0x20 || v == 0x85 || v == 0xa0 || v == 0x1680 || (0x2000 <= v && v <= 0x200a)
        || v == 0x2028 || v == 0x2029 || v == 0x202f || v == 0x205f || v == 0x3000
}

/// Whether the string is empty once surrounding white space is trimmed.
pub fn is_blank(s: &String) -> (r: bool)
    ensures
        r == (forall|i: int| 0 <= i < s@.len() ==> is_white_space(#[trigger] s@[i])),
{
    let t = s.as_str();
    let n = t.unicode_len();
    let mut i: usize = 0;
    while i < n
        invariant
            n == t@.len(),
            t@ == s@,
            i <= n,
            forall|j: int| 0 <= j < i ==> is_white_space(#[trigger] s@[j]),
        decreases n - i,
    {
        if !char_is_white_space(t.get_char(i)) {
            return false;
        }
        i = i + 1;
    }
    true
}

/// Whether any peer speaks another protocol than UDP.
fn any_non_udp(peers: &Vec<NodeAddr>) -> (r: bool)
    ensures
        r == (exists|i: int| 0 <= i < peers@.len() && #[trigger] peers@[i].protocol != Protocol::Udp),
{
    let mut i: usize = 0;
    while i < peers.len()
        invariant
            i <= peers@.len(),
            forall|j: int| 0 <= j < i ==> #[trigger] peers@[j].protocol == Protocol::Udp,
        decreases peers@.len() - i,
    {
        if peers[i].protocol != Protocol::Udp {
            return true;
        }
        i = i + 1;
    }
    false
}

/// The first check a configuration fails, in the order `validate` makes them.
pub open spec fn config_error(c: NodeConfig) -> Option<ConfigError> {
    if c.bind_port == 0 {
        Some(ConfigError::BindPortZero)
    } else if !(1 <= c.route_length <= 16) {
        Some(ConfigError::RouteLength)
    } else if c.drain_timeout_sec == 0 || c.drain_timeout_sec > 600 {
        Some(ConfigError::DrainTimeout)
    } else if c.discovery_max_entries == 0 || c.discovery_max_entries > 4096 {
        Some(ConfigError::DiscoveryMaxEntries)
    } else if c.discovery_advertise_ttl_sec == 0 || c.discovery_advertise_ttl_sec > 3600 {
        Some(ConfigError::DiscoveryTtl)
    } else {
        match c.role {
            NodeRole::Relay => if c.peers@.len() == 0 {
                Some(ConfigError::RelayWithoutPeers)
            } else if exists|i: int| 0 <= i < c.peers@.len() && #[trigger] c.peers@[i].protocol != Protocol::Udp {
                Some(ConfigError::RelayPeerNotUdp)
            } else {
                None
            },
            NodeRole::Exit => if forall|i: int|
                0 <= i < c.exit_target_addr@.len() ==> is_white_space(#[trigger] c.exit_target_addr@[i]) {
                Some(ConfigError::ExitTargetEmpty)
            } else if !(8 <= c.exit_response_window_frames <= 256) {
                Some(ConfigError::ExitResponseWindow)
            } else {
                None
            },
            NodeRole::Client => if c.route_length >= 2 && c.peers@.len() == 0 {
                Some(ConfigError::ClientWithoutPeers)
            } else {
                None
            },
        }
    }
}

/// A relay's peers must all be UDP: a relay configuration that passes the shared checks
/// and has peers is refused with `RelayPeerNotUdp` when a peer at any position speaks
/// another protocol, and accepted when every peer is UDP.
pub proof fn lemma_relay_peers_must_be_udp(c: NodeConfig, j: int)
    requires
        c.role == NodeRole::Relay,
        c.bind_port != 0,
        1 <= c.route_length <= 16,
        1 <= c.drain_timeout_sec <= 600,
        1 <= c.discovery_max_entries <= 4096,
        1 <= c.discovery_advertise_ttl_sec <= 3600,
        c.peers@.len() > 0,
    ensures
        0 <= j < c.peers@.len() && c.peers@[j].protocol != Protocol::Udp ==> config_error(c) == Some(
            ConfigError::RelayPeerNotUdp,
        ),
        (forall|i: int| 0 <= i < c.peers@.len() ==> (#[trigger] c.peers@[i]).protocol == Protocol::Udp) ==> config_error(c)
            is None,
{
}

impl NodeConfig {
    /// The socket address the node binds.
    pub fn bind_addr(&self) -> (r: SocketAddress)
        ensures
            r == (SocketAddress { ip: self.bind_ip, port: self.bind_port }),
    {
        SocketAddress { ip: self.bind_ip, port: self.bind_port }
    }

    /// Check the settings: the shared ranges first, then what the role needs.
    pub fn validate(&self) -> (r: Result<(), ConfigError>)
        ensures
            match config_error(*self) {
                Some(e) => r == Err::<(), ConfigError>(e),
                None => r is Ok,
            },
    {
        if self.bind_port == 0 {
            return Err(ConfigError::BindPortZero);
        }
        if !(1 <= self.route_length && self.route_length <= 16) {
            return Err(ConfigError::RouteLength);
        }
        if self.drain_timeout_sec == 0 || self.drain_timeout_sec > 600 {
            return Err(ConfigError::DrainTimeout);
        }
        if self.discovery_max_entries == 0 || self.discovery_max_entries > 4096 {
            return Err(ConfigError::DiscoveryMaxEntries);
        }
        if self.discovery_advertise_ttl_sec == 0 || self.discovery_advertise_ttl_sec > 3600 {
            return Err(ConfigError::DiscoveryTtl);
        }
        match self.role {
            NodeRole::Relay => {
                if self.peers.len() == 0 {
                    return Err(ConfigError::RelayWithoutPeers);
                }
                if any_non_udp(&self.peers) {
                    return Err(ConfigError::RelayPeerNotUdp);
                }
            },
            NodeRole::Exit => {
                if is_blank(&self.exit_target_addr) {
                    return Err(ConfigError::ExitTargetEmpty);
                }
                if !(8 <= self.exit_response_window_frames && self.exit_response_window_frames <= 256) {
                    return Err(ConfigError::ExitResponseWindow);
                }
            },
            NodeRole::Client => {
                if self.route_length >= 2 && self.peers.len() == 0 {
                    return Err(ConfigError::ClientWithoutPeers);
                }
            },
        }
        Ok(())
    }
}

} // verus!
