//! Outer wire packet: `[version][routing length, 2 bytes big-endian][routing info][inner payload]`.
//! Relays read and rewrite only the routing info; the inner payload stays opaque.
use crate::addr::{IpAddress, NodeAddr, Protocol};
use crate::codec::{
    be_u128, be_u16, be_u32, from_be_u128, from_be_u16, from_be_u32, from_le_u16, from_le_u32, from_le_u64,
    get_be_u128, get_be_u16, get_be_u32, get_le_u16, get_le_u32, get_le_u64, le_u16, le_u32, le_u64, put_be_u128,
    put_be_u16, put_be_u32, put_bytes, put_le_u16, put_le_u32, put_le_u64, put_u8,
};
use crate::protocol::PROTOCOL_VERSION;
use crate::route::Route;
use crate::session::{with_seq, wrapping_next, SessionCrypto, SessionError};
use crate::crypto::{sealable_len, sealed};
use crate::protocol::{tunnel_bytes, TunnelMessage};
use crate::codec::be_u64;
use vstd::prelude::*;

verus! {

/// Routing metadata carried in the outer header for hop-by-hop forwarding.
#[derive(Debug, Clone, PartialEq, Eq)]
pub struct RoutingInfo {
    pub hop_index: u8,
    pub route: Route,
}

/// Why a wire packet could not be built or read.
#[derive(Debug, Clone, Copy, PartialEq, Eq, Structural)]
pub enum WireError {
    /// The encoded routing info does not fit the 2-byte length field.
    RoutingHeaderTooLarge,
    /// Fewer than 3 bytes.
    TooShort,
    /// The first byte is not the protocol version; it carries the version found.
    VersionMismatch(u8),
    /// The packet ends inside the routing info.
    TruncatedRouting,
    /// The routing info bytes do not decode.
    MalformedRouting,
    /// The inner message could not be sealed.
    Seal(SessionError),
}

pub open spec fn protocol_index(p: Protocol) -> u32 {
    match p {
        Protocol::Udp => 0,
        Protocol::Quic => 1,
        Protocol::Ws => 2,
        Protocol::Tls => 3,
        Protocol::Vless => 4,
        Protocol::Wireguard => 5,
    }
}

pub open spec fn protocol_of_index(i: u32) -> Option<Protocol> {
    if i == 0 {
        Some(Protocol::Udp)
    } else if i == 1 {
        Some(Protocol::Quic)
    } else if i == 2 {
        Some(Protocol::Ws)
    } else if i == 3 {
        Some(Protocol::Tls)
    } else if i == 4 {
        Some(Protocol::Vless)
    } else if i == 5 {
        Some(Protocol::Wireguard)
    } else {
        None
    }
}

pub(crate) fn protocol_tag(p: Protocol) -> (r: u32)
    ensures
        r == protocol_index(p),
{
    match p {
        Protocol::Udp => 0,
        Protocol::Quic => 1,
        Protocol::Ws => 2,
        Protocol::Tls => 3,
        Protocol::Vless => 4,
        Protocol::Wireguard => 5,
    }
}

pub(crate) fn protocol_from_tag(i: u32) -> (r: Option<Protocol>)
    ensures
        r == protocol_of_index(i),
{
    if i == 0 {
        Some(Protocol::Udp)
    } else if i == 1 {
        Some(Protocol::Quic)
    } else if i == 2 {
        Some(Protocol::Ws)
    } else if i == 3 {
        Some(Protocol::Tls)
    } else if i == 4 {
        Some(Protocol::Vless)
    } else if i == 5 {
        Some(Protocol::Wireguard)
    } else {
        None
    }
}

/// Wire bytes of an IP address: a 4-byte variant tag (0 = IPv4, 1 = IPv6) then the octets.
pub open spec fn ip_bytes(ip: IpAddress) -> Seq<u8> {
    match ip {
        IpAddress::V4(a) => le_u32(0) + be_u32(a),
        IpAddress::V6(a) => le_u32(1) + be_u128(a),
    }
}

/// Wire bytes of a node address: IP address, port (2 bytes little-endian), protocol tag (4 bytes).
pub open spec fn node_bytes(a: NodeAddr) -> Seq<u8> {
    ip_bytes(a.ip) + le_u16(a.port) + le_u32(protocol_index(a.protocol))
}

/// Wire bytes of a sequence of node addresses, one after another.
pub open spec fn nodes_bytes(ns: Seq<NodeAddr>) -> Seq<u8>
    decreases ns.len(),
{
    if ns.len() == 0 {
        Seq::empty()
    } else {
        node_bytes(ns[0]) + nodes_bytes(ns.drop_first())
    }
}

/// Wire bytes of routing info: hop index, hop count (8 bytes little-endian), the hops.
pub open spec fn routing_bytes(hop_index: u8, hops: Seq<NodeAddr>) -> Seq<u8> {
    seq![hop_index] + le_u64(hops.len() as u64) + nodes_bytes(hops)
}

/// Reading one node address from the front of `s`: the address and the bytes it took.
pub open spec fn parse_node(s: Seq<u8>) -> Option<(NodeAddr, nat)> {
    if s.len() < 4 {
        None
    } else {
        let tag = from_le_u32(s.subrange(0, 4));
        let ip_len: nat = if tag == 0 {
            4
        } else {
            16
        };
        if tag > 1 || s.len() < 4 + ip_len + 6 {
            None
        } else {
            let ip = if tag == 0 {
                IpAddress::V4(from_be_u32(s.subrange(4, 8)))
            } else {
                IpAddress::V6(from_be_u128(s.subrange(4, 20)))
            };
            let p: int = 4 + ip_len as int;
            match protocol_of_index(from_le_u32(s.subrange(p + 2, p + 6))) {
                Some(proto) => Some(
                    (NodeAddr { ip, port: from_le_u16(s.subrange(p, p + 2)), protocol: proto }, (p + 6) as nat),
                ),
                None => None,
            }
        }
    }
}

/// Reading `n` node addresses from the front of `s`.
pub open spec fn parse_nodes(s: Seq<u8>, n: nat) -> Option<(Seq<NodeAddr>, nat)>
    decreases n,
{
    if n == 0 {
        Some((Seq::empty(), 0))
    } else {
        match parse_node(s) {
            Some((a, k)) => match parse_nodes(s.skip(k as int), (n - 1) as nat) {
                Some((rest, m)) => Some((seq![a] + rest, k + m)),
                None => None,
            },
            None => None,
        }
    }
}

/// Reading routing info from the front of `s`: hop index and hops.
pub open spec fn parse_routing(s: Seq<u8>) -> Option<(u8, Seq<NodeAddr>)> {
    if s.len() < 9 {
        None
    } else {
        match parse_nodes(s.skip(9), from_le_u64(s.subrange(1, 9)) as nat) {
            Some((hops, _)) => Some((s[0], hops)),
            None => None,
        }
    }
}

pub(crate) proof fn lemma_node_roundtrip(a: NodeAddr, rest: Seq<u8>)
    ensures
        parse_node(node_bytes(a) + rest) == Some((a, node_bytes(a).len())),
{
    let s = node_bytes(a) + rest;
    crate::codec::lemma_le_u16(a.port);
    crate::codec::lemma_le_u32(protocol_index(a.protocol));
    match a.ip {
        IpAddress::V4(x) => {
            crate::codec::lemma_le_u32(0);
            crate::codec::lemma_be_u32(x);
            assert(s.subrange(0, 4) =~= le_u32(0));
            assert(s.subrange(4, 8) =~= be_u32(x));
            assert(s.subrange(8, 10) =~= le_u16(a.port));
            assert(s.subrange(10, 14) =~= le_u32(protocol_index(a.protocol)));
        },
        IpAddress::V6(x) => {
            crate::codec::lemma_le_u32(1);
            crate::codec::lemma_be_u128(x);
            assert(s.subrange(0, 4) =~= le_u32(1));
            assert(s.subrange(4, 20) =~= be_u128(x));
            assert(s.subrange(20, 22) =~= le_u16(a.port));
            assert(s.subrange(22, 26) =~= le_u32(protocol_index(a.protocol)));
        },
    }
}

#[verifier::rlimit(40)]
proof fn lemma_nodes_roundtrip(ns: Seq<NodeAddr>, rest: Seq<u8>)
    ensures
        parse_nodes(nodes_bytes(ns) + rest, ns.len()) == Some((ns, nodes_bytes(ns).len())),
    decreases ns.len(),
{
    if ns.len() > 0 {
        let a = ns[0];
        let tail = ns.drop_first();
        let s = nodes_bytes(ns) + rest;
        assert(s =~= node_bytes(a) + (nodes_bytes(tail) + rest));
        lemma_node_roundtrip(a, nodes_bytes(tail) + rest);
        assert(s.skip(node_bytes(a).len() as int) =~= nodes_bytes(tail) + rest);
        lemma_nodes_roundtrip(tail, rest);
        assert(seq![a] + tail =~= ns);
    } else {
        assert(ns =~= Seq::<NodeAddr>::empty());
    }
}

/// Decoding routing info gives back the encoded one, whatever bytes follow.
pub proof fn lemma_routing_roundtrip(hop_index: u8, hops: Seq<NodeAddr>, rest: Seq<u8>)
    requires
        hops.len() <= u64::MAX,
    ensures
        parse_routing(routing_bytes(hop_index, hops) + rest) == Some((hop_index, hops)),
{
    let s = routing_bytes(hop_index, hops) + rest;
    crate::codec::lemma_le_u64(hops.len() as u64);
    assert(s.subrange(1, 9) =~= le_u64(hops.len() as u64));
    assert(s.skip(9) =~= nodes_bytes(hops) + rest);
    lemma_nodes_roundtrip(hops, rest);
}

pub(crate) fn put_node(out: &mut Vec<u8>, a: &NodeAddr)
    ensures
        final(out)@ == old(out)@ + node_bytes(*a),
{
    match a.ip {
        IpAddress::V4(x) => {
            put_le_u32(out, 0);
            put_be_u32(out, x);
        },
        IpAddress::V6(x) => {
            put_le_u32(out, 1);
            put_be_u128(out, x);
        },
    }
    put_le_u16(out, a.port);
    put_le_u32(out, protocol_tag(a.protocol));
    assert(out@ =~= old(out)@ + node_bytes(*a));
}

proof fn lemma_nodes_bytes_push(ns: Seq<NodeAddr>, a: NodeAddr)
    ensures
        nodes_bytes(ns.push(a)) == nodes_bytes(ns) + node_bytes(a),
    decreases ns.len(),
{
    if ns.len() == 0 {
        let one = ns.push(a);
        assert(one.drop_first() =~= Seq::<NodeAddr>::empty());
        assert(one[0] == a);
        assert(nodes_bytes(one.drop_first()) == Seq::<u8>::empty());
        assert(nodes_bytes(one) =~= node_bytes(a));
        assert(nodes_bytes(ns) == Seq::<u8>::empty());
        assert(nodes_bytes(ns) + node_bytes(a) =~= node_bytes(a));
    } else {
        lemma_nodes_bytes_push(ns.drop_first(), a);
        assert(ns.push(a).drop_first() =~= ns.drop_first().push(a));
        assert(nodes_bytes(ns.push(a)) =~= nodes_bytes(ns) + node_bytes(a));
    }
}

/// Encode routing info.
pub fn encode_routing_info(r: &RoutingInfo) -> (out: Vec<u8>)
    ensures
        out@ == routing_bytes(r.hop_index, r.route.hops@),
{
    let mut out: Vec<u8> = Vec::new();
    put_u8(&mut out, r.hop_index);
    put_le_u64(&mut out, r.route.hops.len() as u64);
    let ghost head = out@;
    let mut i: usize = 0;
    while i < r.route.hops.len()
        invariant
            i <= r.route.hops@.len(),
            out@ == head + nodes_bytes(r.route.hops@.take(i as int)),
        decreases r.route.hops@.len() - i,
    {
        put_node(&mut out, &r.route.hops[i]);
        proof {
            lemma_nodes_bytes_push(r.route.hops@.take(i as int), r.route.hops@[i as int]);
            assert(r.route.hops@.take(i as int + 1) =~= r.route.hops@.take(i as int).push(r.route.hops@[i as int]));
        }
        i = i + 1;
    }
    assert(r.route.hops@.take(r.route.hops@.len() as int) =~= r.route.hops@);
    assert(out@ =~= routing_bytes(r.hop_index, r.route.hops@));
    out
}

pub(crate) fn get_node(s: &[u8], pos: usize) -> (r: Option<(NodeAddr, usize)>)
    requires
        pos <= s@.len(),
    ensures
        r is Some <==> parse_node(s@.skip(pos as int)) is Some,
        r matches Some((a, k)) ==> parse_node(s@.skip(pos as int)) == Some((a, k as nat)) && pos + k
            <= s@.len(),
{
    let ghost t = s@.skip(pos as int);
    let n = s.len();
    if n - pos < 4 {
        return None;
    }
    let tag = get_le_u32(s, pos);
    assert(t.subrange(0, 4) =~= s@.subrange(pos as int, pos + 4));
    let ip_len: usize = if tag == 0 { 4 } else { 16 };
    if tag > 1 || n - pos < 4 + ip_len + 6 {
        return None;
    }
    let ip = if tag == 0 {
        assert(t.subrange(4, 8) =~= s@.subrange(pos + 4, pos + 8));
        IpAddress::V4(get_be_u32(s, pos + 4))
    } else {
        assert(t.subrange(4, 20) =~= s@.subrange(pos + 4, pos + 20));
        IpAddress::V6(get_be_u128(s, pos + 4))
    };
    let p = pos + 4 + ip_len;
    assert(t.subrange((4 + ip_len) as int, (4 + ip_len + 2) as int) =~= s@.subrange(p as int, p + 2));
    assert(t.subrange((4 + ip_len + 2) as int, (4 + ip_len + 6) as int) =~= s@.subrange(p + 2, p + 6));
    let port = get_le_u16(s, p);
    match protocol_from_tag(get_le_u32(s, p + 2)) {
        Some(protocol) => Some((NodeAddr { ip, port, protocol }, 4 + ip_len + 6)),
        None => None,
    }
}

/// Decode routing info from the front of `data`.
pub fn decode_routing_info(data: &[u8]) -> (r: Option<RoutingInfo>)
    ensures
        match (r, parse_routing(data@)) {
            (Some(ri), Some((h, hops))) => ri.hop_index == h && ri.route.hops@ == hops,
            (None, None) => true,
            _ => false,
        },
{
    if data.len() < 9 {
        return None;
    }
    let hop_index = data[0];
    let count = get_le_u64(data, 1);
    let ghost total = count as nat;
    let mut hops: Vec<NodeAddr> = Vec::new();
    let mut pos: usize = 9;
    let mut i: u64 = 0;
    proof {
        assert(data@.skip(9).skip(0) =~= data@.skip(9));
    }
    let n: usize = data.len();
    while i < count
        invariant
            n == data@.len(),
            count == from_le_u64(data@.subrange(1, 9)),
            hop_index == data@[0],
            9 <= pos <= data@.len(),
            i <= count,
            total == count,
            hops@.len() == i,
            parse_nodes(data@.skip(9), total) == (match parse_nodes(data@.skip(pos as int), (total - i) as nat) {
                Some((rest, m)) => Some((hops@ + rest, ((pos - 9) + m) as nat)),
                None => None::<(Seq<NodeAddr>, nat)>,
            }),
        decreases count - i,
    {
        let ghost before = data@.skip(pos as int);
        let got = get_node(data, pos);
        match got {
            Some((a, k)) => {
                assert(pos + k <= data@.len());
                proof {
                    assert(before.skip(k as int) =~= data@.skip(pos + k));
                    assert(hops@.push(a) + Seq::<NodeAddr>::empty() =~= hops@.push(a));
                    let nxt = parse_nodes(data@.skip(pos + k), (total - i - 1) as nat);
                    if let Some((rest, m)) = nxt {
                        assert(hops@ + (seq![a] + rest) =~= hops@.push(a) + rest);
                    }
                }
                hops.push(a);
                pos = pos + k;
                i = i + 1;
            },
            None => {
                assert(parse_node(before) is None);
                assert(parse_nodes(before, (total - i) as nat) is None);
                return None;
            },
        }
    }
    proof {
        assert(hops@ + Seq::<NodeAddr>::empty() =~= hops@);
    }
    Some(RoutingInfo { hop_index, route: Route { hops } })
}

/// The packet layout around encoded routing info.
pub open spec fn packet_bytes(routing: Seq<u8>, inner: Seq<u8>) -> Seq<u8> {
    seq![PROTOCOL_VERSION] + be_u16(routing.len() as u16) + routing + inner
}

/// Build a wire packet from routing metadata and inner payload bytes.
pub fn build_routed_packet(routing: &RoutingInfo, inner: &[u8]) -> (r: Result<Vec<u8>, WireError>)
    ensures
        routing_bytes(routing.hop_index, routing.route.hops@).len() > u16::MAX ==> r == Err::<Vec<u8>, WireError>(
            WireError::RoutingHeaderTooLarge,
        ),
        routing_bytes(routing.hop_index, routing.route.hops@).len() <= u16::MAX ==> (r matches Ok(v) && v@
            == packet_bytes(routing_bytes(routing.hop_index, routing.route.hops@), inner@)),
{
    let routing_bytes = encode_routing_info(routing);
    if routing_bytes.len() > 65535 {
        return Err(WireError::RoutingHeaderTooLarge);
    }
    let len = routing_bytes.len() as u16;
    let mut out: Vec<u8> = Vec::new();
    put_u8(&mut out, PROTOCOL_VERSION);
    put_be_u16(&mut out, len);
    put_bytes(&mut out, routing_bytes.as_slice());
    put_bytes(&mut out, inner);
    Ok(out)
}

/// Build a wire packet for an encrypted tunnel message: the message is sealed by the
/// session (taking its next sequence number) and wrapped in the routing header.
/// Relays read and rewrite only the routing header, never the sealed payload.
pub fn build_encrypted_packet(crypto: &mut SessionCrypto, routing: &RoutingInfo, msg: TunnelMessage) -> (r: Result<
    Vec<u8>,
    WireError,
>)
    requires
        msg.payload@.len() + 64 <= isize::MAX,
    ensures
        final(crypto).send_seq == wrapping_next(old(crypto).send_seq),
        final(crypto).key == old(crypto).key,
        final(crypto).recv_replay == old(crypto).recv_replay,
        ({
            let seq = old(crypto).send_seq;
            let pt = tunnel_bytes(with_seq(msg.header, seq), msg.payload@);
            let rb = routing_bytes(routing.hop_index, routing.route.hops@);
            &&& !sealable_len(pt.len()) ==> r == Err::<Vec<u8>, WireError>(
                WireError::Seal(SessionError::Crypto(crate::crypto::CryptoError::Encrypt)),
            )
            &&& sealable_len(pt.len()) && rb.len() > u16::MAX ==> r == Err::<Vec<u8>, WireError>(
                WireError::RoutingHeaderTooLarge,
            )
            &&& sealable_len(pt.len()) && rb.len() <= u16::MAX ==> (r matches Ok(v) && v@ == packet_bytes(
                rb,
                be_u64(seq) + sealed(old(crypto).key@, seq, pt),
            ))
        }),
{
    let inner = match crypto.seal_message(msg) {
        Ok(v) => v,
        Err(e) => return Err(WireError::Seal(e)),
    };
    build_routed_packet(routing, inner.as_slice())
}

/// Build a wire packet for a cleartext handshake message.
pub fn build_handshake_packet(routing: &RoutingInfo, plaintext: Vec<u8>) -> (r: Result<Vec<u8>, WireError>)
    ensures
        routing_bytes(routing.hop_index, routing.route.hops@).len() > u16::MAX ==> r == Err::<Vec<u8>, WireError>(
            WireError::RoutingHeaderTooLarge,
        ),
        routing_bytes(routing.hop_index, routing.route.hops@).len() <= u16::MAX ==> (r matches Ok(v) && v@
            == packet_bytes(routing_bytes(routing.hop_index, routing.route.hops@), plaintext@)),
{
    build_routed_packet(routing, plaintext.as_slice())
}

/// Reading the outer header of a wire packet: routing info (hop index, hops) and the
/// offset where the inner payload starts.
pub open spec fn parse_packet(s: Seq<u8>) -> Result<(u8, Seq<NodeAddr>, int), WireError> {
    if s.len() < 3 {
        Err(WireError::TooShort)
    } else if s[0] != PROTOCOL_VERSION {
        Err(WireError::VersionMismatch(s[0]))
    } else {
        let len = from_be_u16(s.subrange(1, 3)) as int;
        if s.len() < 3 + len {
            Err(WireError::TruncatedRouting)
        } else {
            match parse_routing(s.subrange(3, 3 + len)) {
                Some((h, hops)) => Ok((h, hops, 3 + len)),
                None => Err(WireError::MalformedRouting),
            }
        }
    }
}

/// Parse the outer routing header; returns the routing info and the inner payload.
pub fn parse_routing_header(data: &[u8]) -> (r: Result<(RoutingInfo, &[u8]), WireError>)
    ensures
        match (r, parse_packet(data@)) {
            (Ok((ri, inner)), Ok((h, hops, start))) => ri.hop_index == h && ri.route.hops@ == hops && inner@
                == data@.skip(start),
            (Err(e), Err(f)) => e == f,
            _ => false,
        },
{
    if data.len() < 3 {
        return Err(WireError::TooShort);
    }
    let version = data[0];
    if version != PROTOCOL_VERSION {
        return Err(WireError::VersionMismatch(version));
    }
    let len = get_be_u16(data, 1) as usize;
    if data.len() - 3 < len {
        return Err(WireError::TruncatedRouting);
    }
    let routing_slice = &data[3..3 + len];
    match decode_routing_info(routing_slice) {
        Some(routing) => {
            let inner = &data[3 + len..data.len()];
            assert(inner@ =~= data@.skip(3 + len));
            Ok((routing, inner))
        },
        None => Err(WireError::MalformedRouting),
    }
}

/// Reading a built packet gives back its routing info and inner payload.
pub proof fn lemma_packet_roundtrip(hop_index: u8, hops: Seq<NodeAddr>, inner: Seq<u8>)
    requires
        hops.len() <= u64::MAX,
        routing_bytes(hop_index, hops).len() <= u16::MAX,
    ensures
        parse_packet(packet_bytes(routing_bytes(hop_index, hops), inner)) matches Ok((h, hs, start)) && h
            == hop_index && hs == hops && packet_bytes(routing_bytes(hop_index, hops), inner).skip(start) == inner,
{
    let rb = routing_bytes(hop_index, hops);
    let s = packet_bytes(rb, inner);
    crate::codec::lemma_be_u16(rb.len() as u16);
    assert(s.subrange(1, 3) =~= be_u16(rb.len() as u16));
    assert(s.subrange(3, 3 + rb.len() as int) =~= rb + Seq::<u8>::empty());
    lemma_routing_roundtrip(hop_index, hops, Seq::<u8>::empty());
    assert(s.skip(3 + rb.len() as int) =~= inner);
}

} // verus!
