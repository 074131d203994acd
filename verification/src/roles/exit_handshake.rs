//! How the exit answers a HandshakeInit before a session exists. An init without a
//! cookie is rate-limited per client address and answered with a HandshakeChallenge that
//! carries the client's cookie; no key exchange happens then. An init with a cookie is
//! checked against the cookie for the client's address, key and nonce; only a valid one
//! leads to the key exchange and a HandshakeAck. Replies travel back along the route the
//! init came by, with the exit as the sending hop.
use crate::addr::NodeAddr;
use crate::clock::unix_time;
use crate::crypto::{session_key, x25519_public, AeadKey};
use crate::handshake::{
    encode_challenge_payload, handle_handshake_init, handshake_header, parse_ack_payload, udp_native,
    HandshakeChallengePayload, HandshakeInitPayload,
};
use crate::handshake_cookie::{
    bucket_of, cookie_for, cookie_valid_at, generate_cookie_at, rate_step, verify_cookie_at, HandshakeRateLimiter,
};
use crate::protocol::{MsgType, TunnelMessage};
use crate::wire::RoutingInfo;
use vstd::prelude::*;

verus! {

/// The exit's answer to a HandshakeInit.
#[derive(Debug)]
pub enum ExitHandshakeReply {
    /// An init without a cookie beyond the per-address rate: dropped.
    RateLimited,
    /// The sender is not a UDP endpoint, so no cookie can be bound to its address.
    NoUdpPeer,
    /// The cookie does not match the client's address, key and nonce, or has expired.
    CookieRejected,
    /// The clock reads before the Unix epoch: no cookie can be made or checked.
    ClockUnavailable,
    /// Send this HandshakeChallenge carrying the client's cookie.
    Challenge(TunnelMessage),
    /// Send this HandshakeAck; the session uses the key.
    Established(TunnelMessage, AeadKey),
}

/// What the exit answers at Unix time `now_secs` to `init` from `peer`.
pub open spec fn reply_is_correct(
    r: ExitHandshakeReply,
    old_limiter: HandshakeRateLimiter,
    new_limiter: HandshakeRateLimiter,
    secret: Seq<u8>,
    peer: NodeAddr,
    init: HandshakeInitPayload,
    session_id: u32,
    now_secs: u64,
) -> bool {
    &&& new_limiter.limit() == old_limiter.limit()
    &&& match init.cookie {
        None => {
            let (e, ok) = rate_step(old_limiter.limit(), old_limiter.entry(peer.ip), now_secs);
            &&& new_limiter.entry(peer.ip) == Some(e)
            &&& forall|other| other != peer.ip ==> #[trigger] new_limiter.entry(other) == old_limiter.entry(other)
            &&& !ok ==> r is RateLimited
            &&& ok ==> match peer.socket_addr_spec() {
                None => r is NoUdpPeer,
                Some(sa) => r matches ExitHandshakeReply::Challenge(m) && m.header == handshake_header(
                    MsgType::HandshakeChallenge,
                    session_id,
                ) && m.payload@ == cookie_for(
                    secret,
                    sa,
                    init.client_pubkey@,
                    init.client_nonce@,
                    bucket_of(now_secs),
                ),
            }
        },
        Some(c) => {
            &&& forall|ip| #[trigger] new_limiter.entry(ip) == old_limiter.entry(ip)
            &&& match peer.socket_addr_spec() {
                None => r is NoUdpPeer,
                Some(sa) => if !cookie_valid_at(secret, c@, sa, init.client_pubkey@, init.client_nonce@, now_secs) {
                    r is CookieRejected
                } else {
                    r matches ExitHandshakeReply::Established(m, key) && established_ack(m, key, init, session_id)
                },
            }
        },
    }
}

/// A HandshakeAck for `init` and the session key that goes with it: the ack announces a
/// public key, and any client that holds the secret behind its announced public key
/// derives `key` from the ack.
pub open spec fn established_ack(m: TunnelMessage, key: AeadKey, init: HandshakeInitPayload, session_id: u32) -> bool {
    &&& m.header == handshake_header(MsgType::HandshakeAck, session_id)
    &&& parse_ack_payload(m.payload@) matches Some((pk, _n, t)) && t == udp_native() && forall|client_secret: Seq<u8>|
        client_secret.len() == 32 && init.client_pubkey@ == #[trigger] x25519_public(client_secret) ==> key@
            == session_key(client_secret, pk)
}

/// The exit's answer at Unix time `now_secs` to `init` received from `peer`.
pub fn answer_handshake_init_at(
    limiter: &mut HandshakeRateLimiter,
    secret: &[u8],
    peer: NodeAddr,
    init: &HandshakeInitPayload,
    session_id: u32,
    now_secs: u64,
) -> (r: ExitHandshakeReply)
    ensures
        reply_is_correct(r, *old(limiter), *final(limiter), secret@, peer, *init, session_id, now_secs),
{
    match &init.cookie {
        None => {
            if !limiter.allow_at(peer.ip, now_secs) {
                return ExitHandshakeReply::RateLimited;
            }
            let sa = match peer.as_socket_addr() {
                Some(sa) => sa,
                None => return ExitHandshakeReply::NoUdpPeer,
            };
            let cookie = generate_cookie_at(secret, sa, &init.client_pubkey, &init.client_nonce, now_secs);
            let bytes = encode_challenge_payload(&HandshakeChallengePayload { cookie });
            ExitHandshakeReply::Challenge(TunnelMessage::new(MsgType::HandshakeChallenge, session_id, 0, 0, bytes))
        },
        Some(cookie) => {
            let sa = match peer.as_socket_addr() {
                Some(sa) => sa,
                None => return ExitHandshakeReply::NoUdpPeer,
            };
            if !verify_cookie_at(secret, cookie, sa, &init.client_pubkey, &init.client_nonce, now_secs) {
                return ExitHandshakeReply::CookieRejected;
            }
            let (ack, _exit_secret, _exit_public, key) = handle_handshake_init(init, session_id);
            ExitHandshakeReply::Established(ack, key)
        },
    }
}

/// The exit's answer now to `init` received from `peer`, by the wall clock.
pub fn answer_handshake_init(
    limiter: &mut HandshakeRateLimiter,
    secret: &[u8],
    peer: NodeAddr,
    init: &HandshakeInitPayload,
    session_id: u32,
) -> (r: ExitHandshakeReply)
    ensures
        init.cookie is Some && peer.socket_addr_spec() is None ==> r is NoUdpPeer && *final(limiter) == *old(limiter),
        r is ClockUnavailable ==> *final(limiter) == *old(limiter) && !(init.cookie is Some
            && peer.socket_addr_spec() is None),
        !(r is ClockUnavailable) ==> exists|now_secs: u64|
            #[trigger] reply_is_correct(r, *old(limiter), *final(limiter), secret@, peer, *init, session_id, now_secs),
{
    if init.cookie.is_some() && peer.as_socket_addr().is_none() {
        assert(reply_is_correct(ExitHandshakeReply::NoUdpPeer, *old(limiter), *limiter, secret@, peer, *init, session_id, 0));
        return ExitHandshakeReply::NoUdpPeer;
    }
    match unix_time() {
        Some((secs, _)) => answer_handshake_init_at(limiter, secret, peer, init, session_id, secs),
        None => ExitHandshakeReply::ClockUnavailable,
    }
}

/// The routing of a reply from the exit: the same route, sent from its last hop.
pub fn exit_reply_routing(routing: RoutingInfo) -> (r: RoutingInfo)
    ensures
        r.route.hops@ == routing.route.hops@,
        r.hop_index == (if routing.route.hops@.len() == 0 { 0 } else { routing.route.hops@.len() - 1 }) as u8,
{
    let n = routing.route.hops.len();
    let last = if n == 0 { 0 } else { n - 1 };
    RoutingInfo { hop_index: last as u8, route: routing.route }
}

} // verus!
