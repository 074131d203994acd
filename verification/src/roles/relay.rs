//! Relay forwarding decisions. A relay reads only the routing header of a packet,
//! finds itself in the route, and forwards the packet one hop on: toward the exit when
//! it came from the client side, back toward the client when it came from downstream.
//! The first relay of a route remembers the client's address for the reverse path.
use crate::addr::{IpAddress, NodeAddr, SocketAddress};
use crate::route::Route;
use crate::wire::{build_routed_packet, packet_bytes, parse_packet, parse_routing_header, routing_bytes, RoutingInfo, WireError};
use vstd::prelude::*;

verus! {

/// Why a relay dropped a packet.
#[derive(Debug, Clone, Copy, PartialEq, Eq, Structural)]
pub enum RelayDrop {
    /// The routing header does not parse.
    BadHeader(WireError),
    /// The route has no hops.
    EmptyRoute,
    /// This relay's address is not in the route.
    NotInRoute,
    /// A reverse packet reached the first relay before any client packet.
    NoClientYet,
    /// Draining: no new client session is accepted.
    Draining,
    /// A forward packet reached the last hop of the route.
    NoDownstream,
    /// The routing header could not be rebuilt.
    Rebuild(WireError),
}

/// What the relay does with a packet.
#[derive(Debug)]
pub enum RelayAction {
    Send { to: NodeAddr, packet: Vec<u8> },
    Drop(RelayDrop),
}

/// Where a packet goes, before the packet bytes are rebuilt.
pub enum RelayPlan {
    /// Send to this node with this hop index.
    Send(NodeAddr, u8),
    Drop(RelayDrop),
}

/// State of a relay: the client of the session, once a client packet arrived.
#[derive(Debug)]
pub struct RelayState {
    pub client_addr: Option<NodeAddr>,
}

pub open spec fn is_unspecified(ip: IpAddress) -> bool {
    match ip {
        IpAddress::V4(a) => a == 0,
        IpAddress::V6(a) => a == 0,
    }
}

/// A hop is this relay: a UDP hop at this relay's address, or at its port when the relay
/// listens on the unspecified address.
pub open spec fn is_self(hop: NodeAddr, self_addr: SocketAddress) -> bool {
    match hop.socket_addr_spec() {
        Some(sa) => if is_unspecified(self_addr.ip) {
            sa.port == self_addr.port
        } else {
            sa == self_addr
        },
        None => false,
    }
}

/// The first position at or after `i` where the route holds this relay.
pub open spec fn self_index_from(hops: Seq<NodeAddr>, self_addr: SocketAddress, i: int) -> Option<int>
    decreases hops.len() - i,
{
    if i < 0 || i >= hops.len() {
        None
    } else if is_self(hops[i], self_addr) {
        Some(i)
    } else {
        self_index_from(hops, self_addr, i + 1)
    }
}

/// The packet came from the hop after this relay.
pub open spec fn from_downstream(hops: Seq<NodeAddr>, idx: int, from: NodeAddr) -> bool {
    idx + 1 < hops.len() && hops[idx + 1].socket_addr_spec() is Some && from.socket_addr_spec()
        == hops[idx + 1].socket_addr_spec()
}

/// The client recorded after a packet from `from` at position `idx`.
pub open spec fn next_client(client: Option<NodeAddr>, hops: Seq<NodeAddr>, idx: int, from: NodeAddr, draining: bool) -> Option<NodeAddr> {
    if from_downstream(hops, idx, from) || idx != 0 {
        client
    } else if draining && (client is None || client != Some(from)) {
        client
    } else {
        Some(from)
    }
}

/// Where a packet from `from` goes when this relay is at position `idx` of the route.
pub open spec fn plan_at(client: Option<NodeAddr>, hops: Seq<NodeAddr>, idx: int, from: NodeAddr, draining: bool) -> RelayPlan {
    if from_downstream(hops, idx, from) {
        if idx == 0 {
            match client {
                Some(c) => RelayPlan::Send(c, 0),
                None => RelayPlan::Drop(RelayDrop::NoClientYet),
            }
        } else {
            RelayPlan::Send(hops[idx - 1], (idx - 1) as u8)
        }
    } else if idx == 0 && draining && (client is None || client != Some(from)) {
        RelayPlan::Drop(RelayDrop::Draining)
    } else if idx + 1 < hops.len() {
        RelayPlan::Send(hops[idx + 1], (idx + 1) as u8)
    } else {
        RelayPlan::Drop(RelayDrop::NoDownstream)
    }
}

/// Where a packet goes and the client recorded afterwards, from the packet bytes.
pub open spec fn relay_plan(client: Option<NodeAddr>, self_addr: SocketAddress, from: NodeAddr, data: Seq<u8>, draining: bool) -> (
    RelayPlan,
    Option<NodeAddr>,
) {
    match parse_packet(data) {
        Err(e) => (RelayPlan::Drop(RelayDrop::BadHeader(e)), client),
        Ok((_, hops, _)) => if hops.len() == 0 {
            (RelayPlan::Drop(RelayDrop::EmptyRoute), client)
        } else {
            match self_index_from(hops, self_addr, 0) {
                None => (RelayPlan::Drop(RelayDrop::NotInRoute), client),
                Some(idx) => (plan_at(client, hops, idx, from, draining), next_client(client, hops, idx, from, draining)),
            }
        },
    }
}

/// The hop index a relay writes into a packet it sends on is the position, in the route,
/// of the node it sends to: one past its own position when the packet goes on toward the
/// exit (which is what it does with every packet that did not come from the next hop),
/// one before its own position when a packet from the next hop goes back toward the
/// client, and 0 when the first relay hands a packet back to the client itself. (A hop
/// index is one byte, so routes of at most 256 hops are meant.)
pub proof fn lemma_relay_hop_index_names_receiver(
    client: Option<NodeAddr>,
    self_addr: SocketAddress,
    from: NodeAddr,
    data: Seq<u8>,
    draining: bool,
)
    requires
        parse_packet(data) matches Ok((_, hops, _)) && hops.len() <= 256,
    ensures
        relay_plan(client, self_addr, from, data, draining).0 matches RelayPlan::Send(to, h) ==> {
            let hops = parse_packet(data)->Ok_0.1;
            let idx = self_index_from(hops, self_addr, 0)->Some_0;
            &&& self_index_from(hops, self_addr, 0) is Some
            &&& 0 <= idx < hops.len()
            &&& ((h == idx + 1 && to == hops[h as int]) || (h == idx - 1 && to == hops[h as int]) || (idx == 0 && h
                == 0 && client == Some(to)))
            &&& !from_downstream(hops, idx, from) ==> h == idx + 1 && to == hops[idx + 1]
            &&& from_downstream(hops, idx, from) ==> (idx > 0 && h == idx - 1 && to == hops[idx - 1]) || (idx == 0
                && h == 0 && client == Some(to))
        },
{
    if let Ok((_, hops, _)) = parse_packet(data) {
        lemma_self_index_bound(hops, self_addr, 0);
    }
}

proof fn lemma_self_index_bound(hops: Seq<NodeAddr>, self_addr: SocketAddress, i: int)
    ensures
        self_index_from(hops, self_addr, i) matches Some(k) ==> 0 <= i <= k < hops.len(),
    decreases hops.len() - i,
{
    if 0 <= i < hops.len() && !is_self(hops[i], self_addr) {
        lemma_self_index_bound(hops, self_addr, i + 1);
    }
}

fn is_unspecified_ip(ip: &IpAddress) -> (r: bool)
    ensures
        r == is_unspecified(*ip),
{
    match ip {
        IpAddress::V4(a) => *a == 0,
        IpAddress::V6(a) => *a == 0,
    }
}

fn hop_is_self(hop: &NodeAddr, self_addr: SocketAddress) -> (r: bool)
    ensures
        r == is_self(*hop, self_addr),
{
    match hop.as_socket_addr() {
        Some(sa) => if is_unspecified_ip(&self_addr.ip) {
            sa.port == self_addr.port
        } else {
            sa == self_addr
        },
        None => false,
    }
}

/// Position of this relay in the route: the first hop that is this relay.
fn self_index(hops: &Vec<NodeAddr>, self_addr: SocketAddress) -> (r: Option<usize>)
    ensures
        match r {
            Some(i) => i < hops@.len() && self_index_from(hops@, self_addr, 0) == Some(i as int),
            None => self_index_from(hops@, self_addr, 0) is None,
        },
{
    let mut i: usize = 0;
    while i < hops.len()
        invariant
            i <= hops@.len(),
            self_index_from(hops@, self_addr, 0) == self_index_from(hops@, self_addr, i as int),
        decreases hops@.len() - i,
    {
        if hop_is_self(&hops[i], self_addr) {
            return Some(i);
        }
        i = i + 1;
    }
    None
}

impl RelayState {
    pub fn new() -> (r: Self)
        ensures
            r.client_addr is None,
    {
        RelayState { client_addr: None }
    }

    /// Decide what to do with a packet from `from`: forward it one hop on with the hop
    /// index rewritten and the rest of the packet unchanged, or drop it. `self_addr` is
    /// this relay's listening address; `draining` refuses new client sessions.
    pub fn handle_packet(&mut self, self_addr: SocketAddress, from: NodeAddr, data: &[u8], draining: bool) -> (r: RelayAction)
        ensures
            ({
                let (plan, client) = relay_plan(old(self).client_addr, self_addr, from, data@, draining);
                &&& final(self).client_addr == client
                &&& match plan {
                    RelayPlan::Drop(d) => r == RelayAction::Drop(d),
                    RelayPlan::Send(to, h) => {
                        let (_, hops, start) = parse_packet(data@)->Ok_0;
                        let rb = routing_bytes(h, hops);
                        &&& rb.len() <= u16::MAX ==> (r matches RelayAction::Send { to: t, packet } && t == to
                            && packet@ == packet_bytes(rb, data@.skip(start)))
                        &&& rb.len() > u16::MAX ==> r == RelayAction::Drop(
                            RelayDrop::Rebuild(WireError::RoutingHeaderTooLarge),
                        )
                    },
                }
            }),
    {
        let (routing, inner) = match parse_routing_header(data) {
            Ok(v) => v,
            Err(e) => return RelayAction::Drop(RelayDrop::BadHeader(e)),
        };
        let n = routing.route.hops.len();
        if n == 0 {
            return RelayAction::Drop(RelayDrop::EmptyRoute);
        }
        let idx = match self_index(&routing.route.hops, self_addr) {
            Some(i) => i,
            None => return RelayAction::Drop(RelayDrop::NotInRoute),
        };
        let ghost hops = routing.route.hops@;
        let downstream_sa = if idx + 1 < n {
            routing.route.hops[idx + 1].as_socket_addr()
        } else {
            None
        };
        let came_from_downstream = match downstream_sa {
            Some(d) => match from.as_socket_addr() {
                Some(f) => f == d,
                None => false,
            },
            None => false,
        };
        assert(came_from_downstream == from_downstream(hops, idx as int, from));
        let (to, hop_index) = if came_from_downstream {
            if idx == 0 {
                match self.client_addr {
                    Some(c) => (c, 0u8),
                    None => return RelayAction::Drop(RelayDrop::NoClientYet),
                }
            } else {
                (routing.route.hops[idx - 1], (idx - 1) as u8)
            }
        } else {
            if idx == 0 {
                let known = match self.client_addr {
                    Some(existing) => existing == from,
                    None => false,
                };
                if draining && !known {
                    return RelayAction::Drop(RelayDrop::Draining);
                }
                self.client_addr = Some(from);
            }
            if idx + 1 < n {
                (routing.route.hops[idx + 1], (idx + 1) as u8)
            } else {
                return RelayAction::Drop(RelayDrop::NoDownstream);
            }
        };
        let rebuilt = RoutingInfo { hop_index, route: Route { hops: routing.route.hops } };
        match build_routed_packet(&rebuilt, inner) {
            Ok(packet) => RelayAction::Send { to, packet },
            Err(e) => RelayAction::Drop(RelayDrop::Rebuild(e)),
        }
    }
}

} // verus!
