//! Session handshake: the client sends its X25519 public key and a nonce (HandshakeInit),
//! the exit answers with its own (HandshakeAck), and both derive the same session key.
//! Payloads use the fixed-width little-endian layout of the tunnel messages: byte arrays
//! as raw bytes, strings as an 8-byte length and UTF-8 bytes, options as a tag byte.
use crate::codec::{from_le_u64, get_le_u64, le_u64, lemma_le_u64, put_bytes, put_le_u64, put_u8};
use crate::crypto::{derive_aead_key, generate_x25519_keypair, random_bytes32, session_key, x25519_public, AeadKey};
use crate::protocol::{encode, tunnel_bytes, Header, MsgType, TunnelMessage, PROTOCOL_VERSION};
use vstd::prelude::*;
use vstd::utf8::{decode_utf8, encode_utf8, encode_utf8_decode_utf8, encode_utf8_valid_utf8, valid_utf8};

verus! {

/// Payload of a HandshakeInit message sent by the client. `cookie` is set when the init
/// is resent in answer to a HandshakeChallenge.
#[derive(Debug, Clone)]
pub struct HandshakeInitPayload {
    pub client_pubkey: [u8; 32],
    pub client_nonce: [u8; 32],
    /// Reserved for transport / capability negotiation.
    pub transport_hint: String,
    pub cookie: Option<[u8; 32]>,
}

/// Payload of a HandshakeChallenge message sent by the exit.
#[derive(Debug, Clone, Copy)]
pub struct HandshakeChallengePayload {
    pub cookie: [u8; 32],
}

/// Payload of a HandshakeAck message sent by the exit.
#[derive(Debug, Clone)]
pub struct HandshakeAckPayload {
    pub exit_pubkey: [u8; 32],
    pub exit_nonce: [u8; 32],
    /// Reserved for negotiated parameters.
    pub negotiated_transport: String,
}

/// Why a handshake message could not be encoded.
#[derive(Debug, Clone, Copy, PartialEq, Eq, Structural)]
pub enum HandshakeError {
    /// The message header does not carry the current protocol version.
    UnexpectedVersion,
}

/// The transport both sides currently announce: `udp-native`.
pub open spec fn udp_native() -> Seq<char> {
    seq!['u', 'd', 'p', '-', 'n', 'a', 't', 'i', 'v', 'e']
}

pub open spec fn cookie_view(c: Option<[u8; 32]>) -> Option<Seq<u8>> {
    match c {
        Some(a) => Some(a@),
        None => None,
    }
}

/// Wire bytes of a string: its UTF-8 length (8 bytes little-endian), then the UTF-8 bytes.
pub open spec fn str_bytes(chars: Seq<char>) -> Seq<u8> {
    le_u64(encode_utf8(chars).len() as u64) + encode_utf8(chars)
}

/// Wire bytes of an optional cookie: tag 0, or tag 1 and the cookie.
pub open spec fn cookie_bytes(c: Option<Seq<u8>>) -> Seq<u8> {
    match c {
        None => seq![0u8],
        Some(b) => seq![1u8] + b,
    }
}

pub open spec fn init_payload_bytes(pk: Seq<u8>, nonce: Seq<u8>, hint: Seq<char>, cookie: Option<Seq<u8>>) -> Seq<u8> {
    pk + nonce + str_bytes(hint) + cookie_bytes(cookie)
}

pub open spec fn ack_payload_bytes(pk: Seq<u8>, nonce: Seq<u8>, transport: Seq<char>) -> Seq<u8> {
    pk + nonce + str_bytes(transport)
}

/// Reading a string from the front of `s`: its characters and the bytes it took.
pub open spec fn parse_str(s: Seq<u8>) -> Option<(Seq<char>, nat)> {
    if s.len() < 8 {
        None
    } else {
        let n = from_le_u64(s.subrange(0, 8)) as int;
        if s.len() - 8 < n {
            None
        } else if valid_utf8(s.subrange(8, 8 + n)) {
            Some((decode_utf8(s.subrange(8, 8 + n)), (8 + n) as nat))
        } else {
            None
        }
    }
}

/// Reading a HandshakeInit payload: public key, nonce, transport hint, cookie.
pub open spec fn parse_init_payload(s: Seq<u8>) -> Option<(Seq<u8>, Seq<u8>, Seq<char>, Option<Seq<u8>>)> {
    if s.len() < 64 {
        None
    } else {
        match parse_str(s.skip(64)) {
            None => None,
            Some((hint, k)) => {
                let t: int = 64 + k as int;
                if s.len() < t + 1 {
                    None
                } else if s[t] == 0 {
                    Some((s.subrange(0, 32), s.subrange(32, 64), hint, None))
                } else if s[t] == 1 && s.len() >= t + 33 {
                    Some((s.subrange(0, 32), s.subrange(32, 64), hint, Some(s.subrange(t + 1, t + 33))))
                } else {
                    None
                }
            },
        }
    }
}

/// Reading a HandshakeAck payload: public key, nonce, negotiated transport.
pub open spec fn parse_ack_payload(s: Seq<u8>) -> Option<(Seq<u8>, Seq<u8>, Seq<char>)> {
    if s.len() < 64 {
        None
    } else {
        match parse_str(s.skip(64)) {
            None => None,
            Some((t, _)) => Some((s.subrange(0, 32), s.subrange(32, 64), t)),
        }
    }
}

/// `String::from_utf8`: `Some` exactly for valid UTF-8, holding the decoded characters.
#[verifier::external_body]
pub(crate) fn string_from_utf8(bytes: &[u8]) -> (r: Option<String>)
    ensures
        r is Some <==> valid_utf8(bytes@),
        r matches Some(s) ==> s@ == decode_utf8(bytes@),
{
    String::from_utf8(bytes.to_vec()).ok()
}

pub(crate) fn get_array32(s: &[u8], pos: usize) -> (r: [u8; 32])
    requires
        pos + 32 <= s@.len(),
    ensures
        r@ == s@.subrange(pos as int, pos + 32),
{
    let mut out = [0u8; 32];
    let mut i: usize = 0;
    let n: usize = s.len();
    while i < 32
        invariant
            n == s@.len(),
            i <= 32,
            pos + 32 <= s@.len(),
            out@.len() == 32,
            forall|j: int| 0 <= j < i ==> out@[j] == s@[pos + j],
        decreases 32 - i,
    {
        out[i] = s[pos + i];
        i = i + 1;
    }
    assert(out@ =~= s@.subrange(pos as int, pos + 32));
    out
}

pub(crate) fn put_str(out: &mut Vec<u8>, s: &String)
    ensures
        final(out)@ == old(out)@ + str_bytes(s@),
{
    let b = s.as_str().as_bytes();
    put_le_u64(out, b.len() as u64);
    put_bytes(out, b);
    assert(out@ =~= old(out)@ + str_bytes(s@));
}

pub(crate) fn get_str(s: &[u8], pos: usize) -> (r: Option<(String, usize)>)
    requires
        pos <= s@.len(),
    ensures
        r is Some <==> parse_str(s@.skip(pos as int)) is Some,
        r matches Some((st, k)) ==> parse_str(s@.skip(pos as int)) == Some((st@, k as nat)) && pos + k <= s@.len(),
{
    let ghost t = s@.skip(pos as int);
    if s.len() - pos < 8 {
        return None;
    }
    let n = get_le_u64(s, pos);
    assert(t.subrange(0, 8) =~= s@.subrange(pos as int, pos + 8));
    if n > (s.len() - pos - 8) as u64 {
        return None;
    }
    let start = pos + 8;
    let end = start + n as usize;
    let bytes = crate::codec::copy_range(s, start, end);
    assert(bytes@ =~= t.subrange(8, 8 + n as int));
    match string_from_utf8(bytes.as_slice()) {
        Some(st) => Some((st, 8 + n as usize)),
        None => None,
    }
}

pub(crate) proof fn lemma_str_roundtrip(chars: Seq<char>, rest: Seq<u8>)
    requires
        encode_utf8(chars).len() <= u64::MAX,
    ensures
        parse_str(str_bytes(chars) + rest) == Some((chars, str_bytes(chars).len())),
{
    let b = encode_utf8(chars);
    let s = str_bytes(chars) + rest;
    lemma_le_u64(b.len() as u64);
    assert(s.subrange(0, 8) =~= le_u64(b.len() as u64));
    assert(s.subrange(8, 8 + b.len() as int) =~= b);
    encode_utf8_valid_utf8(chars);
    encode_utf8_decode_utf8(chars);
}

/// Decoding an encoded HandshakeInit payload gives back its fields.
pub proof fn lemma_init_payload_roundtrip(pk: Seq<u8>, nonce: Seq<u8>, hint: Seq<char>, cookie: Option<Seq<u8>>)
    requires
        pk.len() == 32,
        nonce.len() == 32,
        encode_utf8(hint).len() <= u64::MAX,
        cookie matches Some(c) ==> c.len() == 32,
    ensures
        parse_init_payload(init_payload_bytes(pk, nonce, hint, cookie)) == Some((pk, nonce, hint, cookie)),
{
    let s = init_payload_bytes(pk, nonce, hint, cookie);
    assert(s.skip(64) =~= str_bytes(hint) + cookie_bytes(cookie));
    lemma_str_roundtrip(hint, cookie_bytes(cookie));
    let t: int = 64 + str_bytes(hint).len() as int;
    assert(s.subrange(0, 32) =~= pk);
    assert(s.subrange(32, 64) =~= nonce);
    assert(s[t] == cookie_bytes(cookie)[0]);
    if let Some(c) = cookie {
        assert(s.subrange(t + 1, t + 33) =~= c);
    }
}

/// Decoding an encoded HandshakeAck payload gives back its fields.
pub proof fn lemma_ack_payload_roundtrip(pk: Seq<u8>, nonce: Seq<u8>, transport: Seq<char>)
    requires
        pk.len() == 32,
        nonce.len() == 32,
        encode_utf8(transport).len() <= u64::MAX,
    ensures
        parse_ack_payload(ack_payload_bytes(pk, nonce, transport)) == Some((pk, nonce, transport)),
{
    let s = ack_payload_bytes(pk, nonce, transport);
    assert(s.skip(64) =~= str_bytes(transport) + Seq::<u8>::empty());
    lemma_str_roundtrip(transport, Seq::empty());
    assert(s.subrange(0, 32) =~= pk);
    assert(s.subrange(32, 64) =~= nonce);
}

/// Encode a HandshakeInit payload.
pub fn encode_init_payload(p: &HandshakeInitPayload) -> (r: Vec<u8>)
    ensures
        r@ == init_payload_bytes(p.client_pubkey@, p.client_nonce@, p.transport_hint@, cookie_view(p.cookie)),
{
    let mut out: Vec<u8> = Vec::new();
    put_bytes(&mut out, p.client_pubkey.as_slice());
    put_bytes(&mut out, p.client_nonce.as_slice());
    put_str(&mut out, &p.transport_hint);
    match &p.cookie {
        None => put_u8(&mut out, 0),
        Some(c) => {
            put_u8(&mut out, 1);
            put_bytes(&mut out, c.as_slice());
        },
    }
    assert(out@ =~= init_payload_bytes(p.client_pubkey@, p.client_nonce@, p.transport_hint@, cookie_view(p.cookie)));
    out
}

/// Decode a HandshakeInit payload from the front of `data`.
pub fn decode_init_payload(data: &[u8]) -> (r: Option<HandshakeInitPayload>)
    ensures
        match (r, parse_init_payload(data@)) {
            (Some(p), Some((pk, nonce, hint, cookie))) => p.client_pubkey@ == pk && p.client_nonce@ == nonce
                && p.transport_hint@ == hint && cookie_view(p.cookie) == cookie,
            (None, None) => true,
            _ => false,
        },
{
    if data.len() < 64 {
        return None;
    }
    let client_pubkey = get_array32(data, 0);
    let client_nonce = get_array32(data, 32);
    let (transport_hint, k) = match get_str(data, 64) {
        Some(x) => x,
        None => return None,
    };
    let t = 64 + k;
    if data.len() <= t {
        return None;
    }
    let cookie = if data[t] == 0 {
        None
    } else if data[t] == 1 && data.len() - t >= 33 {
        Some(get_array32(data, t + 1))
    } else {
        return None;
    };
    Some(HandshakeInitPayload { client_pubkey, client_nonce, transport_hint, cookie })
}

/// Encode a HandshakeAck payload.
pub fn encode_ack_payload(p: &HandshakeAckPayload) -> (r: Vec<u8>)
    ensures
        r@ == ack_payload_bytes(p.exit_pubkey@, p.exit_nonce@, p.negotiated_transport@),
{
    let mut out: Vec<u8> = Vec::new();
    put_bytes(&mut out, p.exit_pubkey.as_slice());
    put_bytes(&mut out, p.exit_nonce.as_slice());
    put_str(&mut out, &p.negotiated_transport);
    assert(out@ =~= ack_payload_bytes(p.exit_pubkey@, p.exit_nonce@, p.negotiated_transport@));
    out
}

/// Decode a HandshakeAck payload from the front of `data`.
pub fn decode_ack_payload(data: &[u8]) -> (r: Option<HandshakeAckPayload>)
    ensures
        match (r, parse_ack_payload(data@)) {
            (Some(p), Some((pk, nonce, t))) => p.exit_pubkey@ == pk && p.exit_nonce@ == nonce
                && p.negotiated_transport@ == t,
            (None, None) => true,
            _ => false,
        },
{
    if data.len() < 64 {
        return None;
    }
    let exit_pubkey = get_array32(data, 0);
    let exit_nonce = get_array32(data, 32);
    match get_str(data, 64) {
        Some((negotiated_transport, _)) => Some(HandshakeAckPayload { exit_pubkey, exit_nonce, negotiated_transport }),
        None => None,
    }
}

/// Encode a HandshakeChallenge payload: the cookie bytes.
pub fn encode_challenge_payload(p: &HandshakeChallengePayload) -> (r: Vec<u8>)
    ensures
        r@ == p.cookie@,
{
    let mut out: Vec<u8> = Vec::new();
    put_bytes(&mut out, p.cookie.as_slice());
    out
}

/// Decode a HandshakeChallenge payload from the front of `data`.
pub fn decode_challenge_payload(data: &[u8]) -> (r: Option<HandshakeChallengePayload>)
    ensures
        data@.len() < 32 ==> r is None,
        data@.len() >= 32 ==> (r matches Some(p) && p.cookie@ == data@.subrange(0, 32)),
{
    if data.len() < 32 {
        return None;
    }
    Some(HandshakeChallengePayload { cookie: get_array32(data, 0) })
}

fn udp_native_string() -> (r: String)
    ensures
        r@ == udp_native(),
{
    let s = String::from_str("udp-native");
    proof {
        reveal_strlit("udp-native");
    }
    assert(s@ =~= udp_native());
    s
}

pub(crate) proof fn lemma_utf8_len_bound(chars: Seq<char>)
    ensures
        encode_utf8(chars).len() <= 4 * chars.len(),
    decreases chars.len(),
{
    if chars.len() > 0 {
        lemma_utf8_len_bound(chars.drop_first());
    }
}

proof fn lemma_udp_native_len()
    ensures
        encode_utf8(udp_native()).len() <= u64::MAX,
{
    lemma_utf8_len_bound(udp_native());
}

/// The header of a handshake message: current version, first hop, no stream, number 0.
pub open spec fn handshake_header(msg_type: MsgType, session_id: u32) -> Header {
    Header { version: PROTOCOL_VERSION, msg_type, session_id, stream_id: 0, seq: 0, hop_index: 0 }
}

/// Client side: a fresh keypair and nonce, and the HandshakeInit message announcing them.
/// Returns the message, the secret and the public key.
pub fn build_handshake_init(session_id: u32) -> (r: (TunnelMessage, [u8; 32], [u8; 32]))
    ensures
        r.2@ == x25519_public(r.1@),
        r.0.header == handshake_header(MsgType::HandshakeInit, session_id),
        exists|nonce: Seq<u8>|
            nonce.len() == 32 && #[trigger] init_payload_bytes(r.2@, nonce, udp_native(), None) == r.0.payload@,
        parse_init_payload(r.0.payload@) matches Some((pk, n, hint, cookie)) && pk == r.2@ && hint == udp_native()
            && cookie is None && init_payload_bytes(pk, n, hint, cookie) == r.0.payload@,
{
    let kp = generate_x25519_keypair();
    let nonce = random_bytes32();
    let payload = HandshakeInitPayload {
        client_pubkey: kp.public,
        client_nonce: nonce,
        transport_hint: udp_native_string(),
        cookie: None,
    };
    let bytes = encode_init_payload(&payload);
    proof {
        lemma_udp_native_len();
        lemma_init_payload_roundtrip(kp.public@, nonce@, udp_native(), None);
        assert(nonce@.len() == 32);
        assert(init_payload_bytes(kp.public@, nonce@, udp_native(), None) == bytes@);
    }
    (TunnelMessage::new(MsgType::HandshakeInit, session_id, 0, 0, bytes), kp.secret, kp.public)
}

/// Client side: the HandshakeInit resent with the cookie of a HandshakeChallenge.
pub fn build_handshake_init_with_cookie(
    session_id: u32,
    client_pubkey: [u8; 32],
    client_nonce: [u8; 32],
    cookie: [u8; 32],
) -> (r: TunnelMessage)
    ensures
        r.header == handshake_header(MsgType::HandshakeInit, session_id),
        r.payload@ == init_payload_bytes(client_pubkey@, client_nonce@, udp_native(), Some(cookie@)),
{
    let payload = HandshakeInitPayload {
        client_pubkey,
        client_nonce,
        transport_hint: udp_native_string(),
        cookie: Some(cookie),
    };
    let bytes = encode_init_payload(&payload);
    TunnelMessage::new(MsgType::HandshakeInit, session_id, 0, 0, bytes)
}

/// Exit side: a fresh keypair and nonce, the HandshakeAck announcing them, and the session
/// key. Returns the message, the exit secret, the exit public key and the key. The key is
/// the one the client derives from the ack with the secret behind its announced public key.
pub fn handle_handshake_init(init: &HandshakeInitPayload, session_id: u32) -> (r: (
    TunnelMessage,
    [u8; 32],
    [u8; 32],
    AeadKey,
))
    ensures
        r.2@ == x25519_public(r.1@),
        r.0.header == handshake_header(MsgType::HandshakeAck, session_id),
        exists|nonce: Seq<u8>|
            nonce.len() == 32 && #[trigger] ack_payload_bytes(r.2@, nonce, udp_native()) == r.0.payload@,
        parse_ack_payload(r.0.payload@) matches Some((pk, _n, t)) && pk == r.2@ && t == udp_native(),
        r.3@ == session_key(r.1@, init.client_pubkey@),
        forall|client_secret: Seq<u8>|
            client_secret.len() == 32 && init.client_pubkey@ == #[trigger] x25519_public(client_secret) ==> r.3@
                == session_key(client_secret, r.2@),
{
    let kp = generate_x25519_keypair();
    let nonce = random_bytes32();
    let aead_key = derive_aead_key(&kp.secret, &init.client_pubkey);
    let ack = HandshakeAckPayload {
        exit_pubkey: kp.public,
        exit_nonce: nonce,
        negotiated_transport: udp_native_string(),
    };
    let bytes = encode_ack_payload(&ack);
    proof {
        lemma_udp_native_len();
        lemma_ack_payload_roundtrip(kp.public@, nonce@, udp_native());
        assert(nonce@.len() == 32);
        assert(ack_payload_bytes(kp.public@, nonce@, udp_native()) == bytes@);
    }
    (TunnelMessage::new(MsgType::HandshakeAck, session_id, 0, 0, bytes), kp.secret, kp.public, aead_key)
}

/// Client side: the session key from the local secret and the exit's HandshakeAck.
pub fn derive_session_key_from_ack(local_secret: &[u8; 32], ack: &HandshakeAckPayload) -> (k: AeadKey)
    ensures
        k@ == session_key(local_secret@, ack.exit_pubkey@),
{
    derive_aead_key(local_secret, &ack.exit_pubkey)
}

/// Encode a handshake message as raw bytes, without encryption; only messages of the
/// current protocol version are accepted.
pub fn encode_plaintext(msg: &TunnelMessage) -> (r: Result<Vec<u8>, HandshakeError>)
    ensures
        msg.header.version != PROTOCOL_VERSION ==> r == Err::<Vec<u8>, HandshakeError>(
            HandshakeError::UnexpectedVersion,
        ),
        msg.header.version == PROTOCOL_VERSION ==> (r matches Ok(v) && v@ == tunnel_bytes(msg.header, msg.payload@)),
{
    if msg.header.version != PROTOCOL_VERSION {
        return Err(HandshakeError::UnexpectedVersion);
    }
    match encode(msg) {
        Ok(v) => Ok(v),
        Err(_) => Err(HandshakeError::UnexpectedVersion),
    }
}

} // verus!
