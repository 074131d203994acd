use vpnnode::addr::{IpAddress, NodeAddr, Protocol, SocketAddress};
use vpnnode::flow::FlowTable;
use vpnnode::handshake::{
    build_handshake_init, build_handshake_init_with_cookie, decode_ack_payload, decode_challenge_payload,
    decode_init_payload, derive_session_key_from_ack, encode_ack_payload, encode_challenge_payload,
    encode_init_payload, encode_plaintext, handle_handshake_init, HandshakeAckPayload, HandshakeChallengePayload,
    HandshakeError, HandshakeInitPayload,
};
use vpnnode::handshake_cookie::{
    compute_cookie_for_bucket, generate_cookie, generate_cookie_at, generate_cookie_for_bucket, verify_cookie,
    verify_cookie_at, HandshakeRateLimiter,
};
use vpnnode::packet::FlowKey;
use vpnnode::protocol::{decode, Header, MsgType, TunnelMessage, PROTOCOL_VERSION};
use vpnnode::roles::exit_handshake::{answer_handshake_init, answer_handshake_init_at, exit_reply_routing, ExitHandshakeReply};
use vpnnode::route::Route;
use vpnnode::session::SessionCrypto;
use vpnnode::wire::RoutingInfo;

#[test]
fn flow_table_basic_bidirectional_mapping() {
    let mut table = FlowTable::new();
    let mut next = 1u32;
    let key = FlowKey::new([10, 0, 0, 1], [10, 0, 0, 2], 12345, 80, 6);
    let now = 1_000u64;

    let s1 = table.get_or_create(key, &mut next, now);
    let s2 = table.get_or_create(key, &mut next, now);
    assert_eq!(s1, s2, "same flow must reuse stream id");
    assert_eq!(next, s1 + 1);

    let looked_up = table.get_flow_for_stream(s1).expect("flow for stream");
    assert_eq!(looked_up, key);

    table.remove_by_flow(&key);
    assert!(table.get_flow_for_stream(s1).is_none());

    let later = now + 1_000;
    let s3 = table.get_or_create(key, &mut next, later);
    assert_ne!(s1, s3);
    assert_eq!(table.get_flow_for_stream(s3), Some(key), "new stream id should be mapped back to flow");

    table.remove_by_stream(s3);
    assert!(table.get_flow_for_stream(s3).is_none());
}

#[test]
fn flow_table_idle_pruning_removes_stale_flows() {
    let mut table = FlowTable::new();
    let mut next = 1u32;
    let now = 5_000u64;

    let key1 = FlowKey::new([10, 0, 0, 1], [10, 0, 0, 2], 1111, 80, 6);
    let key2 = FlowKey::new([10, 0, 0, 3], [10, 0, 0, 4], 2222, 80, 6);

    let s1 = table.get_or_create(key1, &mut next, now);
    let s2 = table.get_or_create(key2, &mut next, now);
    assert_ne!(s1, s2);

    let later = now + 30_000;
    table.touch_by_stream(s2, later);

    let removed = table.prune_idle(10_000, later);
    assert_eq!(removed, 1);
    assert!(table.get_flow_for_stream(s1).is_none());
    assert_eq!(table.get_flow_for_stream(s2), Some(key2));
}

#[test]
fn flow_idle_at_limit_is_pruned() {
    let mut table = FlowTable::new();
    let mut next = 7u32;
    let key = FlowKey::new([1, 2, 3, 4], [5, 6, 7, 8], 1, 2, 17);
    let s = table.get_or_create(key, &mut next, 100);
    assert_eq!(s, 7);
    assert_eq!(table.prune_idle(0, 1_000), 0);
    assert_eq!(table.prune_idle(50, 149), 0);
    assert_eq!(table.prune_idle(50, 150), 1);
    assert!(table.get_flow_for_stream(s).is_none());
}

#[test]
fn handshake_roundtrip_derives_matching_keys() {
    let session_id = 1;
    let (init_msg, client_secret, _client_pub) = build_handshake_init(session_id);

    let init_payload = decode_init_payload(&init_msg.payload).expect("decode init payload");
    let (ack_msg, _exit_secret, _exit_pub, exit_key) = handle_handshake_init(&init_payload, session_id);

    let ack_payload = decode_ack_payload(&ack_msg.payload).expect("decode ack payload");
    let client_key = derive_session_key_from_ack(&client_secret, &ack_payload);

    let mut c_crypto = SessionCrypto::new(client_key);
    let mut e_crypto = SessionCrypto::new(exit_key);

    let msg = TunnelMessage {
        header: Header {
            version: PROTOCOL_VERSION,
            msg_type: MsgType::Data,
            session_id,
            stream_id: 1,
            seq: 0,
            hop_index: 0,
        },
        payload: b"handshake-ok".to_vec(),
    };

    let ct = c_crypto.seal_message(msg.clone()).expect("seal");
    let dec = e_crypto.open_message(&ct).expect("open");
    assert_eq!(msg.payload, dec.payload);
}

#[test]
fn init_payload_roundtrip_with_and_without_cookie() {
    let p = HandshakeInitPayload {
        client_pubkey: [3u8; 32],
        client_nonce: [4u8; 32],
        transport_hint: "udp-native".to_string(),
        cookie: None,
    };
    let bytes = encode_init_payload(&p);
    // 32 + 32 + 8-byte length + 10 bytes + option tag
    assert_eq!(bytes.len(), 32 + 32 + 8 + 10 + 1);
    assert_eq!(&bytes[64..72], &10u64.to_le_bytes());
    let back = decode_init_payload(&bytes).unwrap();
    assert_eq!(back.client_pubkey, p.client_pubkey);
    assert_eq!(back.transport_hint, "udp-native");
    assert_eq!(back.cookie, None);

    let q = HandshakeInitPayload { cookie: Some([9u8; 32]), ..p };
    let bytes = encode_init_payload(&q);
    assert_eq!(bytes.len(), 32 + 32 + 8 + 10 + 1 + 32);
    let back = decode_init_payload(&bytes).unwrap();
    assert_eq!(back.cookie, Some([9u8; 32]));
    assert!(decode_init_payload(&bytes[..40]).is_none());
}

#[test]
fn ack_and_challenge_payload_roundtrip() {
    let a = HandshakeAckPayload {
        exit_pubkey: [5u8; 32],
        exit_nonce: [6u8; 32],
        negotiated_transport: "udp-native".to_string(),
    };
    let bytes = encode_ack_payload(&a);
    let back = decode_ack_payload(&bytes).unwrap();
    assert_eq!(back.exit_pubkey, a.exit_pubkey);
    assert_eq!(back.exit_nonce, a.exit_nonce);
    assert_eq!(back.negotiated_transport, a.negotiated_transport);

    let c = HandshakeChallengePayload { cookie: [8u8; 32] };
    let bytes = encode_challenge_payload(&c);
    assert_eq!(bytes, vec![8u8; 32]);
    assert_eq!(decode_challenge_payload(&bytes).unwrap().cookie, [8u8; 32]);
    assert!(decode_challenge_payload(&bytes[..31]).is_none());
}

#[test]
fn init_with_cookie_carries_the_cookie() {
    let m = build_handshake_init_with_cookie(9, [1u8; 32], [2u8; 32], [7u8; 32]);
    assert_eq!(m.header.msg_type, MsgType::HandshakeInit);
    assert_eq!(m.header.session_id, 9);
    let p = decode_init_payload(&m.payload).unwrap();
    assert_eq!(p.cookie, Some([7u8; 32]));
    assert_eq!(p.client_pubkey, [1u8; 32]);
}

#[test]
fn encode_plaintext_requires_current_version() {
    let good = TunnelMessage::new(MsgType::HandshakeInit, 3, 0, 0, vec![1, 2, 3]);
    let bytes = encode_plaintext(&good).unwrap();
    let back = decode(&bytes).unwrap();
    assert_eq!(back.header, good.header);
    assert_eq!(back.payload, good.payload);
    let mut bad = good.clone();
    bad.header.version = PROTOCOL_VERSION + 1;
    assert_eq!(encode_plaintext(&bad), Err(HandshakeError::UnexpectedVersion));
}

fn addr(a: u8, b: u8, c: u8, d: u8, port: u16) -> SocketAddress {
    SocketAddress { ip: IpAddress::V4(u32::from_be_bytes([a, b, c, d])), port }
}

const SECRET: &[u8; 32] = b"server-secret-key-32-bytes!!!!!!";

#[test]
fn cookie_roundtrip_generate_verify_ok() {
    let client_addr = addr(192, 168, 1, 1, 54321);
    let client_pubkey = [1u8; 32];
    let client_nonce = [2u8; 32];

    let cookie = generate_cookie(SECRET, client_addr, &client_pubkey, &client_nonce).unwrap();
    let ok = verify_cookie(SECRET, &cookie, client_addr, &client_pubkey, &client_nonce).unwrap();
    assert!(ok, "valid cookie must verify");
}

#[test]
fn invalid_cookie_rejected() {
    let client_addr = addr(192, 168, 1, 1, 54321);
    let wrong_cookie = [0u8; 32];
    let ok = verify_cookie(SECRET, &wrong_cookie, client_addr, &[1u8; 32], &[2u8; 32]).unwrap();
    assert!(!ok, "wrong cookie must be rejected");
}

#[test]
fn wrong_ip_reject() {
    let addr1 = addr(192, 168, 1, 1, 54321);
    let addr2 = addr(192, 168, 1, 2, 54321);
    let cookie = generate_cookie(SECRET, addr1, &[1u8; 32], &[2u8; 32]).unwrap();
    let ok = verify_cookie(SECRET, &cookie, addr2, &[1u8; 32], &[2u8; 32]).unwrap();
    assert!(!ok, "cookie from different IP must be rejected");
}

#[test]
fn wrong_nonce_reject() {
    let client_addr = addr(192, 168, 1, 1, 54321);
    let nonce1 = [2u8; 32];
    let mut nonce2 = [2u8; 32];
    nonce2[0] = 3;
    let cookie = generate_cookie(SECRET, client_addr, &[1u8; 32], &nonce1).unwrap();
    let ok = verify_cookie(SECRET, &cookie, client_addr, &[1u8; 32], &nonce2).unwrap();
    assert!(!ok, "cookie with different nonce must be rejected");
}

#[test]
fn expired_timestamp_reject() {
    let client_addr = addr(192, 168, 1, 1, 54321);
    let cookie = generate_cookie_for_bucket(SECRET, client_addr, &[1u8; 32], &[2u8; 32], 0).unwrap();
    let ok = verify_cookie(SECRET, &cookie, client_addr, &[1u8; 32], &[2u8; 32]).unwrap();
    assert!(!ok, "expired cookie must be rejected");
}

#[test]
fn cookie_valid_in_next_bucket_only() {
    let a = addr(10, 0, 0, 9, 4000);
    let cookie = generate_cookie_at(SECRET, a, &[1u8; 32], &[2u8; 32], 300);
    assert_eq!(cookie, compute_cookie_for_bucket(SECRET, a, &[1u8; 32], &[2u8; 32], 10));
    assert!(verify_cookie_at(SECRET, &cookie, a, &[1u8; 32], &[2u8; 32], 329));
    assert!(verify_cookie_at(SECRET, &cookie, a, &[1u8; 32], &[2u8; 32], 359));
    assert!(!verify_cookie_at(SECRET, &cookie, a, &[1u8; 32], &[2u8; 32], 360));
    assert!(!verify_cookie_at(SECRET, &cookie, a, &[1u8; 32], &[2u8; 32], 299));
    // the cookie is a MAC, not its input
    assert_ne!(cookie, [1u8; 32]);
    assert_ne!(&cookie[..], &SECRET[..]);
}

#[test]
fn rate_limiter_allows_limit_per_second_per_ip() {
    let mut rl = HandshakeRateLimiter::new(2);
    let a = IpAddress::V4(1);
    let b = IpAddress::V6(1);
    assert!(rl.allow_at(a, 100));
    assert!(rl.allow_at(a, 100));
    assert!(!rl.allow_at(a, 100));
    assert!(rl.allow_at(b, 100));
    assert!(rl.allow_at(a, 101));
}

fn udp_node(port: u16) -> NodeAddr {
    NodeAddr::from_socket_addr(addr(192, 168, 0, 7, port))
}

#[test]
fn exit_answers_init_without_cookie_with_challenge() {
    let mut rl = HandshakeRateLimiter::new(1);
    let (init_msg, _s, _p) = build_handshake_init(5);
    let init = decode_init_payload(&init_msg.payload).unwrap();
    let peer = udp_node(9000);
    match answer_handshake_init_at(&mut rl, SECRET, peer, &init, 5, 600) {
        ExitHandshakeReply::Challenge(m) => {
            assert_eq!(m.header.msg_type, MsgType::HandshakeChallenge);
            assert_eq!(m.header.session_id, 5);
            let expected = generate_cookie_at(SECRET, addr(192, 168, 0, 7, 9000), &init.client_pubkey, &init.client_nonce, 600);
            assert_eq!(m.payload, expected.to_vec());
        },
        other => panic!("unexpected {:?}", other),
    }
    assert!(matches!(answer_handshake_init_at(&mut rl, SECRET, peer, &init, 5, 600), ExitHandshakeReply::RateLimited));
    let quic = NodeAddr { protocol: Protocol::Quic, ..peer };
    let mut rl2 = HandshakeRateLimiter::new(1);
    assert!(matches!(answer_handshake_init_at(&mut rl2, SECRET, quic, &init, 5, 600), ExitHandshakeReply::NoUdpPeer));
}

#[test]
fn exit_establishes_session_only_with_valid_cookie() {
    let mut rl = HandshakeRateLimiter::new(1);
    let (first, client_secret, client_pub) = build_handshake_init(6);
    let init = decode_init_payload(&first.payload).unwrap();
    let peer = udp_node(9001);
    let sa = addr(192, 168, 0, 7, 9001);
    let cookie = generate_cookie_at(SECRET, sa, &client_pub, &init.client_nonce, 900);
    let with_cookie = HandshakeInitPayload { cookie: Some(cookie), ..init.clone() };
    let bad = HandshakeInitPayload { cookie: Some([0u8; 32]), ..init.clone() };
    assert!(matches!(answer_handshake_init_at(&mut rl, SECRET, peer, &bad, 6, 900), ExitHandshakeReply::CookieRejected));
    assert!(matches!(
        answer_handshake_init_at(&mut rl, SECRET, peer, &with_cookie, 6, 990),
        ExitHandshakeReply::CookieRejected
    ));
    match answer_handshake_init_at(&mut rl, SECRET, peer, &with_cookie, 6, 905) {
        ExitHandshakeReply::Established(ack, key) => {
            assert_eq!(ack.header.msg_type, MsgType::HandshakeAck);
            let ack_payload = decode_ack_payload(&ack.payload).unwrap();
            let client_key = derive_session_key_from_ack(&client_secret, &ack_payload);
            assert_eq!(client_key.0, key.0);
        },
        other => panic!("unexpected {:?}", other),
    }
}

#[test]
fn exit_reply_goes_from_last_hop() {
    let route = Route { hops: vec![udp_node(1), udp_node(2), udp_node(3)] };
    let r = exit_reply_routing(RoutingInfo { hop_index: 0, route });
    assert_eq!(r.hop_index, 2);
    assert_eq!(r.route.hops.len(), 3);
    let empty = exit_reply_routing(RoutingInfo { hop_index: 4, route: Route { hops: vec![] } });
    assert_eq!(empty.hop_index, 0);
}

#[test]
fn exit_refuses_cookie_init_from_non_udp_peer_by_the_clock() {
    let mut rl = HandshakeRateLimiter::new(1);
    let (init_msg, _s, _p) = build_handshake_init(5);
    let init = decode_init_payload(&init_msg.payload).unwrap();
    let with_cookie = HandshakeInitPayload { cookie: Some([3u8; 32]), ..init.clone() };
    let quic = NodeAddr { protocol: Protocol::Quic, ..udp_node(9000) };
    assert!(matches!(answer_handshake_init(&mut rl, SECRET, quic, &with_cookie, 5), ExitHandshakeReply::NoUdpPeer));
    // a fresh init from a UDP peer is answered with a challenge by the wall clock
    assert!(matches!(answer_handshake_init(&mut rl, SECRET, udp_node(9000), &init, 5), ExitHandshakeReply::Challenge(_)));
    // the limiter allowed one attempt and refuses the next in the same second
    assert!(!rl.allow(udp_node(9000).ip) || !rl.allow(udp_node(9000).ip));
}
