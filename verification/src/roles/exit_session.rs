//! How the exit sorts a packet that reaches it: before a session exists only a
//! HandshakeInit is taken (and none while draining); once a session exists a packet must
//! have the exit as its last hop and open under the session key, or else be a client's
//! repeated plaintext HandshakeInit; an opened message must carry the protocol version.
use crate::protocol::{decode, parse_tunnel, DecodeError, Header, MsgType, TunnelMessage, PROTOCOL_VERSION};
use crate::session::{open_outcome, RecvReplayState, SessionCrypto, SessionError};
use crate::wire::{parse_packet, parse_routing_header, RoutingInfo, WireError};
use vstd::prelude::*;

verus! {

/// What the exit does with a packet.
#[derive(Debug)]
pub enum ExitPacket {
    /// The routing header could not be read.
    BadRouting(WireError),
    /// No session yet and the exit is draining: no new tunnel.
    DrainRefused,
    /// No session yet and the message could not be decoded.
    UndecodableHandshake(DecodeError),
    /// No session yet: a HandshakeInit to answer, with the route it came by.
    HandshakeInit(RoutingInfo, TunnelMessage),
    /// No session yet and the message is of another type.
    NotHandshake(MsgType),
    /// The exit is not the packet's last hop.
    NotFinalHop,
    /// The packet did not open under the session key, but is a plaintext HandshakeInit
    /// of the current version: a client still retrying gets its answer again.
    HandshakeRetry(RoutingInfo, TunnelMessage),
    /// The packet did not open under the session key.
    OpenFailed(SessionError),
    /// The opened message carries another protocol version.
    VersionMismatch,
    /// A session message, with the route it came by.
    Session(RoutingInfo, TunnelMessage),
}

/// The routing and message are those read from the packet.
pub open spec fn carries(ri: RoutingInfo, m: TunnelMessage, hop: u8, hops: Seq<crate::addr::NodeAddr>, h: Header, p: Seq<u8>) -> bool {
    ri.hop_index == hop && ri.route.hops@ == hops && m.header == h && m.payload@ == p
}

/// The session after opening `data`: key and send counter kept, the replay window
/// unchanged when the number is refused (or missing) and advanced past it otherwise.
pub open spec fn after_open(old: SessionCrypto, new: SessionCrypto, data: Seq<u8>) -> bool {
    &&& new.wf()
    &&& new.key == old.key
    &&& new.send_seq == old.send_seq
    &&& data.len() < 8 || old.recv_replay.refuses(crate::codec::from_be_u64(data.take(8))) ==> new.recv_replay@
        == old.recv_replay@
    &&& data.len() >= 8 && !old.recv_replay.refuses(crate::codec::from_be_u64(data.take(8)))
        ==> old.recv_replay.accepted(crate::codec::from_be_u64(data.take(8)), new.recv_replay)
}

/// Sort a packet that reached the exit, opening it under the session when one exists.
pub fn exit_packet_plan(crypto: &mut Option<SessionCrypto>, data: &[u8], draining: bool) -> (r: ExitPacket)
    requires
        (*old(crypto)) matches Some(c) ==> c.wf(),
    ensures
        match parse_packet(data@) {
            Err(e) => r == ExitPacket::BadRouting(e) && *final(crypto) == *old(crypto),
            Ok((hop, hops, start)) => {
                let inner = data@.skip(start);
                match *old(crypto) {
                    None => {
                        &&& *final(crypto) == *old(crypto)
                        &&& draining ==> r == ExitPacket::DrainRefused
                        &&& !draining ==> match parse_tunnel(inner) {
                            Err(e) => r == ExitPacket::UndecodableHandshake(e),
                            Ok((h, p)) => if h.msg_type == MsgType::HandshakeInit {
                                r matches ExitPacket::HandshakeInit(ri, m) && carries(ri, m, hop, hops, h, p)
                            } else {
                                r == ExitPacket::NotHandshake(h.msg_type)
                            },
                        }
                    },
                    Some(c) => if hop + 1 != hops.len() {
                        r == ExitPacket::NotFinalHop && *final(crypto) == *old(crypto)
                    } else {
                        &&& (*final(crypto)) matches Some(c2) && after_open(c, c2, inner)
                        &&& match open_outcome(c.key@, c.recv_replay, inner) {
                            Ok((h, p)) => if h.version != PROTOCOL_VERSION {
                                r == ExitPacket::VersionMismatch
                            } else {
                                r matches ExitPacket::Session(ri, m) && carries(ri, m, hop, hops, h, p)
                            },
                            Err(e) => match parse_tunnel(inner) {
                                Ok((h, p)) => if h.version == PROTOCOL_VERSION && h.msg_type == MsgType::HandshakeInit {
                                    r matches ExitPacket::HandshakeRetry(ri, m) && carries(ri, m, hop, hops, h, p)
                                } else {
                                    r == ExitPacket::OpenFailed(e)
                                },
                                Err(_) => r == ExitPacket::OpenFailed(e),
                            },
                        }
                    },
                }
            },
        },
{
    let (routing, inner) = match parse_routing_header(data) {
        Ok(v) => v,
        Err(e) => return ExitPacket::BadRouting(e),
    };
    match crypto {
        None => {
            if draining {
                return ExitPacket::DrainRefused;
            }
            match decode(inner) {
                Err(e) => ExitPacket::UndecodableHandshake(e),
                Ok(m) => {
                    if m.header.msg_type == MsgType::HandshakeInit {
                        ExitPacket::HandshakeInit(routing, m)
                    } else {
                        ExitPacket::NotHandshake(m.header.msg_type)
                    }
                },
            }
        },
        Some(c) => {
            if routing.hop_index as usize + 1 != routing.route.hops.len() {
                return ExitPacket::NotFinalHop;
            }
            match c.open_message(inner) {
                Ok(m) => {
                    if m.header.version != PROTOCOL_VERSION {
                        ExitPacket::VersionMismatch
                    } else {
                        ExitPacket::Session(routing, m)
                    }
                },
                Err(e) => match decode(inner) {
                    Ok(plain) => {
                        if plain.header.version == PROTOCOL_VERSION && plain.header.msg_type == MsgType::HandshakeInit {
                            ExitPacket::HandshakeRetry(routing, plain)
                        } else {
                            ExitPacket::OpenFailed(e)
                        }
                    },
                    Err(_) => ExitPacket::OpenFailed(e),
                },
            }
        },
    }
}

} // verus!
