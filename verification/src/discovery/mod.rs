//! Minimal discovery (control plane only): nodes advertise their role and address,
//! query for candidates, and answer from a bounded cache of fresh advertisements.
//! Payloads use the fixed-width little-endian layout of the tunnel messages.
pub mod types;
pub mod store;

use crate::addr::{NodeAddr, Protocol};
use crate::clock::now_ms;
use crate::codec::{from_le_u32, from_le_u64, get_le_u32, get_le_u64, le_u32, le_u64, lemma_le_u32, lemma_le_u64, put_bytes, put_le_u32, put_le_u64, put_u8};
use crate::crypto::random_bytes32;
use crate::discovery::store::{
    after_insert_all, counters_after_purge, fresh_only, inc, matching, newest_first, DiscoveryStats, DiscoveryStore,
};
use crate::handshake::handshake_header;
use crate::discovery::types::{NodeAdvertisement, NodeId};
use crate::iptext::{dec_text, ip_text, push_dec, push_ip_text};
use sha2::Digest;
use crate::handshake::{get_array32, get_str, lemma_str_roundtrip, parse_str, put_str, str_bytes};
use crate::node_config::NodeRole;
use crate::protocol::{encode, tunnel_bytes, MsgType, TunnelMessage};
use crate::route::Route;
use crate::wire::{
    build_handshake_packet, get_node, lemma_node_roundtrip, node_bytes, packet_bytes, parse_node, protocol_from_tag,
    protocol_index, protocol_of_index, protocol_tag, put_node, routing_bytes, RoutingInfo, WireError,
};
use vstd::prelude::*;
use vstd::utf8::encode_utf8;

verus! {

pub const MAX_DISCOVERY_RESPONSE_ADS: usize = 32;

pub const MAX_DISCOVERY_BYTES: usize = 4096;

#[derive(Debug, Clone)]
pub struct DiscoveryAdvertisePayload {
    pub advertisement: NodeAdvertisement,
}

/// A query for up to `max_results` advertisements, optionally of one role and protocol.
#[derive(Debug, Clone, Copy, PartialEq, Eq, Structural)]
pub struct DiscoveryQueryPayload {
    pub max_results: u8,
    pub role: Option<NodeRole>,
    pub protocol: Option<Protocol>,
}

#[derive(Debug, Clone)]
pub struct DiscoveryResponsePayload {
    pub advertisements: Vec<NodeAdvertisement>,
}

#[derive(Debug, Clone)]
pub enum DiscoveryMessage {
    Advertise(NodeAdvertisement),
    Query(DiscoveryQueryPayload),
    Response(DiscoveryResponsePayload),
}

pub open spec fn role_index(r: NodeRole) -> u32 {
    match r {
        NodeRole::Client => 0,
        NodeRole::Relay => 1,
        NodeRole::Exit => 2,
    }
}

pub open spec fn role_of_index(i: u32) -> Option<NodeRole> {
    if i == 0 {
        Some(NodeRole::Client)
    } else if i == 1 {
        Some(NodeRole::Relay)
    } else if i == 2 {
        Some(NodeRole::Exit)
    } else {
        None
    }
}

fn role_tag(r: NodeRole) -> (t: u32)
    ensures
        t == role_index(r),
{
    match r {
        NodeRole::Client => 0,
        NodeRole::Relay => 1,
        NodeRole::Exit => 2,
    }
}

fn role_from_tag(i: u32) -> (r: Option<NodeRole>)
    ensures
        r == role_of_index(i),
{
    if i == 0 {
        Some(NodeRole::Client)
    } else if i == 1 {
        Some(NodeRole::Relay)
    } else if i == 2 {
        Some(NodeRole::Exit)
    } else {
        None
    }
}

/// The fields of an advertisement as values.
pub open spec fn adv_view(a: NodeAdvertisement) -> (Seq<u8>, NodeRole, NodeAddr, Seq<char>, u64, u64) {
    (a.node_id@, a.role, a.addr, a.version@, a.advertised_at_ms, a.ttl_ms)
}

/// Wire bytes of an advertisement: id, role tag (4 bytes), address, version string,
/// advertisement time and TTL (8 bytes each).
pub open spec fn adv_bytes(v: (Seq<u8>, NodeRole, NodeAddr, Seq<char>, u64, u64)) -> Seq<u8> {
    v.0 + le_u32(role_index(v.1)) + node_bytes(v.2) + str_bytes(v.3) + le_u64(v.4) + le_u64(v.5)
}

/// Reading an advertisement from the front of `s`: its fields and the bytes it took.
pub open spec fn parse_adv(s: Seq<u8>) -> Option<((Seq<u8>, NodeRole, NodeAddr, Seq<char>, u64, u64), nat)> {
    if s.len() < 36 {
        None
    } else {
        match role_of_index(from_le_u32(s.subrange(32, 36))) {
            None => None,
            Some(role) => match parse_node(s.skip(36)) {
                None => None,
                Some((addr, k)) => {
                    let p: int = 36 + k as int;
                    match parse_str(s.skip(p)) {
                        None => None,
                        Some((version, m)) => {
                            let q: int = p + m as int;
                            if s.len() < q + 16 {
                                None
                            } else {
                                Some(
                                    (
                                        (
                                            s.subrange(0, 32),
                                            role,
                                            addr,
                                            version,
                                            from_le_u64(s.subrange(q, q + 8)),
                                            from_le_u64(s.subrange(q + 8, q + 16)),
                                        ),
                                        (q + 16) as nat,
                                    ),
                                )
                            }
                        },
                    }
                },
            },
        }
    }
}

/// Reading `n` advertisements from the front of `s`.
pub open spec fn parse_advs(s: Seq<u8>, n: nat) -> Option<Seq<(Seq<u8>, NodeRole, NodeAddr, Seq<char>, u64, u64)>>
    decreases n,
{
    if n == 0 {
        Some(Seq::empty())
    } else {
        match parse_adv(s) {
            None => None,
            Some((v, k)) => match parse_advs(s.skip(k as int), (n - 1) as nat) {
                None => None,
                Some(rest) => Some(seq![v] + rest),
            },
        }
    }
}

pub open spec fn advs_bytes(vs: Seq<(Seq<u8>, NodeRole, NodeAddr, Seq<char>, u64, u64)>) -> Seq<u8>
    decreases vs.len(),
{
    if vs.len() == 0 {
        Seq::empty()
    } else {
        adv_bytes(vs[0]) + advs_bytes(vs.drop_first())
    }
}

/// Wire bytes of a response: the count (8 bytes) and the advertisements.
pub open spec fn response_bytes(vs: Seq<(Seq<u8>, NodeRole, NodeAddr, Seq<char>, u64, u64)>) -> Seq<u8> {
    le_u64(vs.len() as u64) + advs_bytes(vs)
}

/// Reading a response: at most `MAX_DISCOVERY_RESPONSE_ADS` advertisements.
pub open spec fn parse_response(s: Seq<u8>) -> Option<Seq<(Seq<u8>, NodeRole, NodeAddr, Seq<char>, u64, u64)>> {
    if s.len() < 8 || from_le_u64(s.subrange(0, 8)) > MAX_DISCOVERY_RESPONSE_ADS {
        None
    } else {
        parse_advs(s.skip(8), from_le_u64(s.subrange(0, 8)) as nat)
    }
}

/// Wire bytes of an optional tag-valued field: tag 0, or tag 1 and the 4-byte value.
pub open spec fn opt_u32_bytes(v: Option<u32>) -> Seq<u8> {
    match v {
        None => seq![0u8],
        Some(x) => seq![1u8] + le_u32(x),
    }
}

/// Wire bytes of a query: max results, optional role, optional protocol.
pub open spec fn query_bytes(q: DiscoveryQueryPayload) -> Seq<u8> {
    seq![q.max_results] + opt_u32_bytes(
        match q.role {
            Some(r) => Some(role_index(r)),
            None => None,
        },
    ) + opt_u32_bytes(
        match q.protocol {
            Some(p) => Some(protocol_index(p)),
            None => None,
        },
    )
}

/// Reading an optional tag-valued field at `i`: the value (if any) and the next position.
pub open spec fn parse_opt_u32(s: Seq<u8>, i: int) -> Option<(Option<u32>, int)> {
    if i >= s.len() {
        None
    } else if s[i] == 0 {
        Some((None, i + 1))
    } else if s[i] == 1 && s.len() >= i + 5 {
        Some((Some(from_le_u32(s.subrange(i + 1, i + 5))), i + 5))
    } else {
        None
    }
}

/// Reading a query.
pub open spec fn parse_query(s: Seq<u8>) -> Option<DiscoveryQueryPayload> {
    if s.len() < 1 {
        None
    } else {
        match parse_opt_u32(s, 1) {
            None => None,
            Some((role_tag, i)) => {
                let role = match role_tag {
                    None => Some(None),
                    Some(t) => match role_of_index(t) {
                        Some(r) => Some(Some(r)),
                        None => None,
                    },
                };
                match (role, parse_opt_u32(s, i)) {
                    (Some(role), Some((proto_tag, _))) => match proto_tag {
                        None => Some(DiscoveryQueryPayload { max_results: s[0], role, protocol: None }),
                        Some(t) => match protocol_of_index(t) {
                            Some(p) => Some(DiscoveryQueryPayload { max_results: s[0], role, protocol: Some(p) }),
                            None => None,
                        },
                    },
                    _ => None,
                }
            },
        }
    }
}

/// Encode an advertisement.
pub fn encode_advertisement(a: &NodeAdvertisement) -> (r: Vec<u8>)
    ensures
        r@ == adv_bytes(adv_view(*a)),
{
    let mut out: Vec<u8> = Vec::new();
    put_advertisement(&mut out, a);
    out
}

fn put_advertisement(out: &mut Vec<u8>, a: &NodeAdvertisement)
    ensures
        final(out)@ == old(out)@ + adv_bytes(adv_view(*a)),
{
    put_bytes(out, a.node_id.as_slice());
    put_le_u32(out, role_tag(a.role));
    put_node(out, &a.addr);
    put_str(out, &a.version);
    put_le_u64(out, a.advertised_at_ms);
    put_le_u64(out, a.ttl_ms);
    assert(out@ =~= old(out)@ + adv_bytes(adv_view(*a)));
}

fn get_advertisement(s: &[u8], pos: usize) -> (r: Option<(NodeAdvertisement, usize)>)
    requires
        pos <= s@.len(),
    ensures
        r is Some <==> parse_adv(s@.skip(pos as int)) is Some,
        r matches Some((a, k)) ==> parse_adv(s@.skip(pos as int)) == Some((adv_view(a), k as nat)) && pos + k
            <= s@.len(),
{
    let ghost t = s@.skip(pos as int);
    let n = s.len();
    if n - pos < 36 {
        return None;
    }
    let node_id = get_array32(s, pos);
    assert(node_id@ =~= t.subrange(0, 32));
    assert(t.subrange(32, 36) =~= s@.subrange(pos + 32, pos + 36));
    let role = match role_from_tag(get_le_u32(s, pos + 32)) {
        Some(r) => r,
        None => return None,
    };
    assert(t.skip(36) =~= s@.skip(pos + 36));
    let (addr, k) = match get_node(s, pos + 36) {
        Some(x) => x,
        None => return None,
    };
    let p = pos + 36 + k;
    assert(t.skip(36 + k) =~= s@.skip(p as int));
    let (version, m) = match get_str(s, p) {
        Some(x) => x,
        None => return None,
    };
    let q = p + m;
    if n - q < 16 {
        return None;
    }
    assert(t.subrange((q - pos) as int, (q - pos + 8) as int) =~= s@.subrange(q as int, q + 8));
    assert(t.subrange((q - pos + 8) as int, (q - pos + 16) as int) =~= s@.subrange(q + 8, q + 16));
    let advertised_at_ms = get_le_u64(s, q);
    let ttl_ms = get_le_u64(s, q + 8);
    Some((NodeAdvertisement { node_id, role, addr, version, advertised_at_ms, ttl_ms }, q + 16 - pos))
}

/// Decoding an encoded advertisement gives back its fields, whatever bytes follow.
#[verifier::rlimit(100)]
#[verifier::spinoff_prover]
pub proof fn lemma_adv_roundtrip(v: (Seq<u8>, NodeRole, NodeAddr, Seq<char>, u64, u64), rest: Seq<u8>)
    requires
        v.0.len() == 32,
        encode_utf8(v.3).len() <= u64::MAX,
    ensures
        parse_adv(adv_bytes(v) + rest) == Some((v, adv_bytes(v).len())),
{
    let a1 = le_u32(role_index(v.1));
    let a2 = node_bytes(v.2);
    let a3 = str_bytes(v.3);
    let a4 = le_u64(v.4);
    let a5 = le_u64(v.5);
    let tail3 = a4 + a5 + rest;
    let tail2 = a3 + tail3;
    let tail1 = a2 + tail2;
    let s = adv_bytes(v) + rest;
    assert(s =~= v.0 + (a1 + tail1));
    assert(s.subrange(0, 32) =~= v.0);
    assert(s.subrange(32, 36) =~= a1);
    assert(s.skip(36) =~= tail1);
    lemma_le_u32(role_index(v.1));
    assert(from_le_u32(s.subrange(32, 36)) == role_index(v.1));
    assert(role_of_index(role_index(v.1)) == Some(v.1));
    lemma_node_roundtrip(v.2, tail2);
    assert(parse_node(s.skip(36)) == Some((v.2, a2.len())));
    let p: int = 36 + a2.len() as int;
    assert(s.skip(p) =~= tail2);
    lemma_str_roundtrip(v.3, tail3);
    assert(parse_str(s.skip(p)) == Some((v.3, a3.len())));
    let q: int = p + a3.len() as int;
    assert(s.subrange(q, q + 8) =~= a4);
    assert(s.subrange(q + 8, q + 16) =~= a5);
    lemma_le_u64(v.4);
    lemma_le_u64(v.5);
    assert(adv_bytes(v).len() == q + 16);
}

/// Decoding an encoded response gives back its advertisements.
#[verifier::rlimit(100)]
#[verifier::spinoff_prover]
pub proof fn lemma_advs_roundtrip(vs: Seq<(Seq<u8>, NodeRole, NodeAddr, Seq<char>, u64, u64)>, rest: Seq<u8>)
    requires
        forall|i: int| 0 <= i < vs.len() ==> (#[trigger] vs[i]).0.len() == 32 && encode_utf8(vs[i].3).len() <= u64::MAX,
    ensures
        parse_advs(advs_bytes(vs) + rest, vs.len()) == Some(vs),
    decreases vs.len(),
{
    if vs.len() > 0 {
        let s = advs_bytes(vs) + rest;
        let tail = vs.drop_first();
        assert(s =~= adv_bytes(vs[0]) + (advs_bytes(tail) + rest));
        lemma_adv_roundtrip(vs[0], advs_bytes(tail) + rest);
        assert(s.skip(adv_bytes(vs[0]).len() as int) =~= advs_bytes(tail) + rest);
        assert forall|i: int| 0 <= i < tail.len() implies (#[trigger] tail[i]).0.len() == 32 && encode_utf8(
            tail[i].3,
        ).len() <= u64::MAX by {
            assert(tail[i] == vs[i + 1]);
        }
        lemma_advs_roundtrip(tail, rest);
        assert(seq![vs[0]] + tail =~= vs);
    }
}

/// Encode a response.
pub fn encode_response(p: &DiscoveryResponsePayload) -> (r: Vec<u8>)
    ensures
        r@ == response_bytes(p.advertisements@.map_values(|a: NodeAdvertisement| adv_view(a))),
{
    let ghost vs = p.advertisements@.map_values(|a: NodeAdvertisement| adv_view(a));
    let mut out: Vec<u8> = Vec::new();
    put_le_u64(&mut out, p.advertisements.len() as u64);
    let ghost head = out@;
    let mut i: usize = 0;
    while i < p.advertisements.len()
        invariant
            vs == p.advertisements@.map_values(|a: NodeAdvertisement| adv_view(a)),
            i <= vs.len(),
            out@ == head + advs_bytes(vs.take(i as int)),
        decreases vs.len() - i,
    {
        put_advertisement(&mut out, &p.advertisements[i]);
        proof {
            lemma_advs_push(vs.take(i as int), vs[i as int]);
            assert(vs.take(i + 1) =~= vs.take(i as int).push(vs[i as int]));
        }
        i = i + 1;
    }
    assert(vs.take(vs.len() as int) =~= vs);
    assert(out@ =~= response_bytes(vs));
    out
}

proof fn lemma_advs_push(vs: Seq<(Seq<u8>, NodeRole, NodeAddr, Seq<char>, u64, u64)>, v: (Seq<u8>, NodeRole, NodeAddr, Seq<char>, u64, u64))
    ensures
        advs_bytes(vs.push(v)) == advs_bytes(vs) + adv_bytes(v),
    decreases vs.len(),
{
    if vs.len() == 0 {
        let one = vs.push(v);
        assert(one.drop_first() =~= Seq::<(Seq<u8>, NodeRole, NodeAddr, Seq<char>, u64, u64)>::empty());
        assert(one[0] == v);
        assert(advs_bytes(one.drop_first()) == Seq::<u8>::empty());
        assert(advs_bytes(one) == adv_bytes(v) + advs_bytes(one.drop_first()));
        assert(advs_bytes(one) =~= adv_bytes(v));
        assert(advs_bytes(vs) + adv_bytes(v) =~= adv_bytes(v));
    } else {
        lemma_advs_push(vs.drop_first(), v);
        assert(vs.push(v).drop_first() =~= vs.drop_first().push(v));
        assert(advs_bytes(vs.push(v)) =~= advs_bytes(vs) + adv_bytes(v));
    }
}

/// Decode a response of at most `MAX_DISCOVERY_RESPONSE_ADS` advertisements.
#[verifier::rlimit(60)]
pub fn decode_response(data: &[u8]) -> (r: Option<DiscoveryResponsePayload>)
    ensures
        match (r, parse_response(data@)) {
            (Some(p), Some(vs)) => p.advertisements@.map_values(|a: NodeAdvertisement| adv_view(a)) == vs,
            (None, None) => true,
            _ => false,
        },
{
    if data.len() < 8 {
        return None;
    }
    let count = get_le_u64(data, 0);
    if count > MAX_DISCOVERY_RESPONSE_ADS as u64 {
        return None;
    }
    let ghost total = count as nat;
    let mut ads: Vec<NodeAdvertisement> = Vec::new();
    let mut pos: usize = 8;
    let mut i: u64 = 0;
    let n: usize = data.len();
    proof {
        assert(data@.skip(8).skip(0) =~= data@.skip(8));
    }
    while i < count
        invariant
            n == data@.len(),
            count == from_le_u64(data@.subrange(0, 8)),
            count <= MAX_DISCOVERY_RESPONSE_ADS,
            total == count,
            8 <= pos <= data@.len(),
            i <= count,
            ads@.len() == i,
            parse_advs(data@.skip(8), total) == (match parse_advs(data@.skip(pos as int), (total - i) as nat) {
                Some(rest) => Some(ads@.map_values(|a: NodeAdvertisement| adv_view(a)) + rest),
                None => None::<Seq<(Seq<u8>, NodeRole, NodeAddr, Seq<char>, u64, u64)>>,
            }),
        decreases count - i,
    {
        let ghost before = data@.skip(pos as int);
        match get_advertisement(data, pos) {
            Some((a, k)) => {
                proof {
                    assert(before.skip(k as int) =~= data@.skip(pos + k));
                    let nxt = parse_advs(data@.skip(pos + k), (total - i - 1) as nat);
                    if let Some(rest) = nxt {
                        assert(ads@.map_values(|a: NodeAdvertisement| adv_view(a)) + (seq![adv_view(a)] + rest)
                            =~= ads@.push(a).map_values(|a: NodeAdvertisement| adv_view(a)) + rest);
                    }
                }
                ads.push(a);
                pos = pos + k;
                i = i + 1;
            },
            None => {
                return None;
            },
        }
    }
    proof {
        assert(ads@.map_values(|a: NodeAdvertisement| adv_view(a)) + Seq::<(Seq<u8>, NodeRole, NodeAddr, Seq<char>, u64, u64)>::empty()
            =~= ads@.map_values(|a: NodeAdvertisement| adv_view(a)));
    }
    Some(DiscoveryResponsePayload { advertisements: ads })
}

/// Encode a query.
pub fn encode_query(q: &DiscoveryQueryPayload) -> (r: Vec<u8>)
    ensures
        r@ == query_bytes(*q),
{
    let mut out: Vec<u8> = Vec::new();
    put_u8(&mut out, q.max_results);
    match q.role {
        None => put_u8(&mut out, 0),
        Some(r) => {
            put_u8(&mut out, 1);
            put_le_u32(&mut out, role_tag(r));
        },
    }
    match q.protocol {
        None => put_u8(&mut out, 0),
        Some(p) => {
            put_u8(&mut out, 1);
            put_le_u32(&mut out, protocol_tag(p));
        },
    }
    assert(out@ =~= query_bytes(*q));
    out
}

fn get_opt_u32(s: &[u8], i: usize) -> (r: Option<(Option<u32>, usize)>)
    ensures
        match parse_opt_u32(s@, i as int) {
            Some((v, j)) => r matches Some((w, k)) && w == v && k == j,
            None => r is None,
        },
{
    let n = s.len();
    if i >= n {
        return None;
    }
    if s[i] == 0 {
        return Some((None, i + 1));
    }
    if s[i] == 1 && n - i >= 5 {
        return Some((Some(get_le_u32(s, i + 1)), i + 5));
    }
    None
}

/// Decode a query.
pub fn decode_query(data: &[u8]) -> (r: Option<DiscoveryQueryPayload>)
    ensures
        r == parse_query(data@),
{
    if data.len() < 1 {
        return None;
    }
    let (role_tag, i) = match get_opt_u32(data, 1) {
        Some(x) => x,
        None => return None,
    };
    let role = match role_tag {
        None => None,
        Some(t) => match role_from_tag(t) {
            Some(r) => Some(r),
            None => return None,
        },
    };
    let (proto_tag, _) = match get_opt_u32(data, i) {
        Some(x) => x,
        None => return None,
    };
    let protocol = match proto_tag {
        None => None,
        Some(t) => match protocol_from_tag(t) {
            Some(p) => Some(p),
            None => return None,
        },
    };
    Some(DiscoveryQueryPayload { max_results: data[0], role, protocol })
}

/// What a discovery message decodes to: nothing for a payload over `MAX_DISCOVERY_BYTES`,
/// a malformed one, or another message type.
pub fn parse_discovery_message(msg: &TunnelMessage) -> (r: Option<DiscoveryMessage>)
    ensures
        msg.payload@.len() > MAX_DISCOVERY_BYTES ==> r is None,
        msg.payload@.len() <= MAX_DISCOVERY_BYTES ==> match msg.header.msg_type {
            MsgType::DiscoveryAdvertise => match (r, parse_adv(msg.payload@)) {
                (Some(DiscoveryMessage::Advertise(a)), Some((v, _))) => adv_view(a) == v,
                (None, None) => true,
                _ => false,
            },
            MsgType::DiscoveryQuery => match parse_query(msg.payload@) {
                Some(q) => r == Some(DiscoveryMessage::Query(q)),
                None => r is None,
            },
            MsgType::DiscoveryResponse => match (r, parse_response(msg.payload@)) {
                (Some(DiscoveryMessage::Response(p)), Some(vs)) => p.advertisements@.map_values(
                    |a: NodeAdvertisement| adv_view(a),
                ) == vs,
                (None, None) => true,
                _ => false,
            },
            _ => r is None,
        },
{
    if msg.payload.len() > MAX_DISCOVERY_BYTES {
        return None;
    }
    match msg.header.msg_type {
        MsgType::DiscoveryAdvertise => {
            assert(msg.payload@.skip(0) =~= msg.payload@);
            match get_advertisement(msg.payload.as_slice(), 0) {
                Some((a, _)) => Some(DiscoveryMessage::Advertise(a)),
                None => None,
            }
        },
        MsgType::DiscoveryQuery => match decode_query(msg.payload.as_slice()) {
            Some(q) => Some(DiscoveryMessage::Query(q)),
            None => None,
        },
        MsgType::DiscoveryResponse => match decode_response(msg.payload.as_slice()) {
            Some(p) => Some(DiscoveryMessage::Response(p)),
            None => None,
        },
        _ => None,
    }
}

/// Results a query may get: none for 0, else at most `MAX_DISCOVERY_RESPONSE_ADS`.
pub fn clamp_query_max_results(max_results: u8) -> (r: usize)
    ensures
        r == (if max_results as usize <= MAX_DISCOVERY_RESPONSE_ADS {
            max_results as usize
        } else {
            MAX_DISCOVERY_RESPONSE_ADS
        }),
{
    if max_results == 0 {
        return 0;
    }
    let m = max_results as usize;
    if m <= MAX_DISCOVERY_RESPONSE_ADS {
        m
    } else {
        MAX_DISCOVERY_RESPONSE_ADS
    }
}

/// The answer to a query at `now_ms`: the newest fresh matching advertisements, as many
/// as the query may get.
pub fn build_discovery_response_payload(store: &DiscoveryStore, query: &DiscoveryQueryPayload, now_ms: u64) -> (r:
    DiscoveryResponsePayload)
    ensures
        ({
            let m = matching(store.entries(), now_ms, query.protocol, query.role);
            let max = if query.max_results as usize <= MAX_DISCOVERY_RESPONSE_ADS {
                query.max_results as int
            } else {
                MAX_DISCOVERY_RESPONSE_ADS as int
            };
            r.advertisements@ == newest_first(m).take(
                if max <= m.len() {
                    max
                } else {
                    m.len() as int
                },
            )
        }),
{
    let max = clamp_query_max_results(query.max_results);
    let ads = store.fresh_candidates(now_ms, query.protocol, query.role, max);
    DiscoveryResponsePayload { advertisements: ads }
}

/// How a node takes a discovery message at `now_ms`. Expired entries are purged first;
/// an advertisement, or each advertisement of a response, is then offered to the cache,
/// and a query is answered with a response message (session 1) listing the newest fresh
/// matching advertisements, as many as the query may get.
pub fn handle_discovery_message(store: &mut DiscoveryStore, event: DiscoveryMessage, now_ms: u64) -> (r: Option<
    TunnelMessage,
>)
    requires
        old(store).wf(),
    ensures
        final(store).wf(),
        final(store).max() == old(store).max(),
        ({
            let s0 = fresh_only(old(store).entries(), now_ms);
            let c = old(store).counters();
            match event {
                DiscoveryMessage::Advertise(a) => {
                    &&& r is None
                    &&& (final(store).entries(), final(store).counters()) == after_insert_all(
                        s0,
                        counters_after_purge(c, s0.len()),
                        old(store).max(),
                        seq![a],
                        now_ms,
                    )
                },
                DiscoveryMessage::Response(p) => {
                    let c1 = DiscoveryStats { responses_received: inc(c.responses_received), ..c };
                    &&& r is None
                    &&& (final(store).entries(), final(store).counters()) == after_insert_all(
                        s0,
                        counters_after_purge(c1, s0.len()),
                        old(store).max(),
                        p.advertisements@,
                        now_ms,
                    )
                },
                DiscoveryMessage::Query(q) => {
                    let c1 = DiscoveryStats { queries_received: inc(c.queries_received), ..c };
                    let m = matching(s0, now_ms, q.protocol, q.role);
                    let max = if q.max_results as usize <= MAX_DISCOVERY_RESPONSE_ADS {
                        q.max_results as int
                    } else {
                        MAX_DISCOVERY_RESPONSE_ADS as int
                    };
                    let n = if max <= m.len() {
                        max
                    } else {
                        m.len() as int
                    };
                    &&& final(store).entries() == s0
                    &&& final(store).counters() == counters_after_purge(c1, s0.len())
                    &&& r matches Some(msg) && msg.header == handshake_header(MsgType::DiscoveryResponse, 1)
                        && msg.payload@ == response_bytes(
                        newest_first(m).take(n).map_values(|a: NodeAdvertisement| adv_view(a)),
                    )
                },
            }
        }),
{
    match event {
        DiscoveryMessage::Advertise(a) => {
            store.purge_expired(now_ms);
            let ghost s0 = store.entries();
            let ghost c0 = store.counters();
            store.insert_at(a, now_ms);
            proof {
                let one = seq![a];
                assert(one.drop_last() =~= Seq::<NodeAdvertisement>::empty());
                assert(after_insert_all(s0, c0, store.max(), one.drop_last(), now_ms) == (s0, c0));
            }
            None
        },
        DiscoveryMessage::Response(p) => {
            store.on_response_received();
            store.purge_expired(now_ms);
            let ghost s0 = store.entries();
            let ghost c0 = store.counters();
            let advs = p.advertisements;
            let mut i: usize = 0;
            assert(advs@.take(0) =~= Seq::<NodeAdvertisement>::empty());
            while i < advs.len()
                invariant
                    store.wf(),
                    store.max() == old(store).max(),
                    i <= advs@.len(),
                    (store.entries(), store.counters()) == after_insert_all(s0, c0, store.max(), advs@.take(i as int), now_ms),
                decreases advs@.len() - i,
            {
                let a = advs[i].duplicate();
                store.insert_at(a, now_ms);
                proof {
                    assert(advs@.take(i + 1).drop_last() =~= advs@.take(i as int));
                    assert(advs@.take(i + 1).last() == advs@[i as int]);
                }
                i = i + 1;
            }
            assert(advs@.take(advs@.len() as int) =~= advs@);
            None
        },
        DiscoveryMessage::Query(q) => {
            store.on_query_received();
            store.purge_expired(now_ms);
            let response = build_discovery_response_payload(store, &q, now_ms);
            let bytes = encode_response(&response);
            Some(TunnelMessage::new(MsgType::DiscoveryResponse, 1, 0, 0, bytes))
        },
    }
}

/// Fresh local candidates from the discovery cache, bounded and filtered by role and
/// protocol, newest first.
pub fn fresh_discovery_candidates(
    store: &DiscoveryStore,
    now_ms: u64,
    protocol: Option<Protocol>,
    role: Option<NodeRole>,
    max: usize,
) -> (r: Vec<NodeAdvertisement>)
    ensures
        r@ == newest_first(matching(store.entries(), now_ms, protocol, role)).take(
            if max <= matching(store.entries(), now_ms, protocol, role).len() {
                max as int
            } else {
                matching(store.entries(), now_ms, protocol, role).len() as int
            },
        ),
{
    store.fresh_candidates(now_ms, protocol, role, max)
}

/// A cache of at most `max_entries` advertisements (at least one).
pub fn new_store(max_entries: usize) -> (r: DiscoveryStore)
    ensures
        r.wf(),
        r.entries() == Seq::<NodeAdvertisement>::empty(),
        r.max() == (if max_entries >= 1 { max_entries } else { 1 }),
{
    DiscoveryStore::new(max_entries)
}

/// A fresh random node id.
pub fn generate_node_id() -> (r: NodeId) {
    random_bytes32()
}

/// This node's advertisement, stamped `now_ms`.
pub fn make_self_advertisement_at(
    node_id: NodeId,
    role: NodeRole,
    addr: NodeAddr,
    version: String,
    ttl_ms: u64,
    now_ms: u64,
) -> (r: NodeAdvertisement)
    ensures
        r == (NodeAdvertisement { node_id, role, addr, version, advertised_at_ms: now_ms, ttl_ms }),
{
    NodeAdvertisement { node_id, role, addr, version, advertised_at_ms: now_ms, ttl_ms }
}

/// This node's advertisement, stamped now (by the system clock).
pub fn make_self_advertisement(node_id: NodeId, role: NodeRole, addr: NodeAddr, version: String, ttl_ms: u64) -> (r:
    NodeAdvertisement)
    ensures
        r.node_id == node_id && r.role == role && r.addr == addr && r.version == version && r.ttl_ms == ttl_ms,
{
    make_self_advertisement_at(node_id, role, addr, version, ttl_ms, now_ms())
}

/// A plaintext discovery packet sent directly to `to`: the encoded message under a
/// one-hop routing header.
pub fn build_plaintext_packet(to: &NodeAddr, msg: &TunnelMessage) -> (r: Result<Vec<u8>, WireError>)
    ensures
        routing_bytes(0, seq![*to]).len() <= u16::MAX ==> (r matches Ok(v) && v@ == packet_bytes(
            routing_bytes(0, seq![*to]),
            tunnel_bytes(msg.header, msg.payload@),
        )),
        routing_bytes(0, seq![*to]).len() > u16::MAX ==> r == Err::<Vec<u8>, WireError>(WireError::RoutingHeaderTooLarge),
{
    let inner = match encode(msg) {
        Ok(v) => v,
        Err(_) => return Err(WireError::MalformedRouting),
    };
    let hops: Vec<NodeAddr> = vec![*to];
    assert(hops@ =~= seq![*to]);
    let routing = RoutingInfo { hop_index: 0, route: Route { hops } };
    build_handshake_packet(&routing, inner)
}

/// SHA-256 digest of `msg`.
pub uninterp spec fn sha256_digest(msg: Seq<u8>) -> Seq<u8>;

/// `sha2::Sha256::new()`, `update(msg)`, `finalize()`: the 32-byte digest is a function
/// of the message.
#[verifier::external_body]
fn sha256(msg: &[u8]) -> (r: [u8; 32])
    ensures
        r@ == sha256_digest(msg@),
{
    let mut hasher = sha2::Sha256::new();
    hasher.update(msg);
    let out = hasher.finalize();
    let mut id = [0u8; 32];
    id.copy_from_slice(out.as_slice());
    id
}

/// The name of a protocol as its `Debug` form writes it.
pub open spec fn protocol_name(p: Protocol) -> Seq<u8> {
    match p {
        Protocol::Udp => seq![85u8, 100, 112],
        Protocol::Quic => seq![81u8, 117, 105, 99],
        Protocol::Ws => seq![87u8, 115],
        Protocol::Tls => seq![84u8, 108, 115],
        Protocol::Vless => seq![86u8, 108, 101, 115, 115],
        Protocol::Wireguard => seq![87u8, 105, 114, 101, 103, 117, 97, 114, 100],
    }
}

fn push_protocol_name(out: &mut Vec<u8>, p: Protocol)
    ensures
        final(out)@ == old(out)@ + protocol_name(p),
{
    let name: &[u8] = match p {
        Protocol::Udp => &[85u8, 100, 112],
        Protocol::Quic => &[81u8, 117, 105, 99],
        Protocol::Ws => &[87u8, 115],
        Protocol::Tls => &[84u8, 108, 115],
        Protocol::Vless => &[86u8, 108, 101, 115, 115],
        Protocol::Wireguard => &[87u8, 105, 114, 101, 103, 117, 97, 114, 100],
    };
    assert(name@ =~= protocol_name(p));
    put_bytes(out, name);
}

/// The text a node's id is derived from: `protocol|ip|port`.
pub open spec fn node_id_text(addr: NodeAddr) -> Seq<u8> {
    protocol_name(addr.protocol) + seq![124u8] + ip_text(addr.ip) + seq![124u8] + dec_text(addr.port as nat)
}

/// Node id stable for a bind address: the SHA-256 digest of `protocol|ip|port`.
pub fn node_id_from_addr(addr: &NodeAddr) -> (r: NodeId)
    ensures
        r@ == sha256_digest(node_id_text(*addr)),
{
    let mut text: Vec<u8> = Vec::new();
    push_protocol_name(&mut text, addr.protocol);
    text.push(124);
    push_ip_text(&mut text, &addr.ip);
    text.push(124);
    push_dec(&mut text, addr.port as u32);
    assert(text@ =~= node_id_text(*addr));
    sha256(text.as_slice())
}

} // verus!
