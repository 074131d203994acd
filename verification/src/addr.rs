use vstd::prelude::*;

verus! {

/// Transport protocol spoken by an overlay node address.
#[derive(Debug, Clone, Copy, PartialEq, Eq, Hash, Structural)]
pub enum Protocol {
    Udp,
    Quic,
    Ws,
    Tls,
    Vless,
    Wireguard,
}

/// An IP address held as its octets read big-endian.
#[derive(Debug, Clone, Copy, PartialEq, Eq, Hash, Structural)]
pub enum IpAddress {
    V4(u32),
    V6(u128),
}

/// An IP address together with a port.
#[derive(Debug, Clone, Copy, PartialEq, Eq, Hash, Structural)]
pub struct SocketAddress {
    pub ip: IpAddress,
    pub port: u16,
}

/// Address of an overlay node: where it listens and over which protocol.
#[derive(Debug, Clone, Copy, PartialEq, Eq, Hash, Structural)]
pub struct NodeAddr {
    pub ip: IpAddress,
    pub port: u16,
    pub protocol: Protocol,
}

impl NodeAddr {
    /// The UDP endpoint of this node; only UDP nodes have one.
    pub open spec fn socket_addr_spec(&self) -> Option<SocketAddress> {
        if self.protocol == Protocol::Udp {
            Some(SocketAddress { ip: self.ip, port: self.port })
        } else {
            None::<SocketAddress>
        }
    }

    /// The UDP endpoint of this node; only UDP nodes have one.
    pub fn as_socket_addr(&self) -> (r: Option<SocketAddress>)
        ensures
            r == self.socket_addr_spec(),
    {
        match self.protocol {
            Protocol::Udp => Some(SocketAddress { ip: self.ip, port: self.port }),
            _ => None,
        }
    }

    /// A UDP node address for the given endpoint.
    pub fn from_socket_addr(sa: SocketAddress) -> (r: NodeAddr)
        ensures
            r == (NodeAddr { ip: sa.ip, port: sa.port, protocol: Protocol::Udp }),
    {
        NodeAddr { ip: sa.ip, port: sa.port, protocol: Protocol::Udp }
    }
}

} // verus!
