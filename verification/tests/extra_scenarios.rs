use vpnnode::addr::{IpAddress, NodeAddr, Protocol};
use vpnnode::ant::AntDedup;
use vpnnode::crypto::keypair_from_secret;
use vpnnode::discovery::store::DiscoveryStore;
use vpnnode::discovery::types::NodeAdvertisement;
use vpnnode::discovery::{
    decode_response, handle_discovery_message, make_self_advertisement_at, DiscoveryMessage, DiscoveryQueryPayload,
    DiscoveryResponsePayload,
};
use vpnnode::node_config::{ConfigError, NodeRole};
use vpnnode::protocol::MsgType;
use vpnnode::roles::client::{plan_request_read, RequestReadPlan};
use vpnnode::route::Route;
use vpnnode::route_store::TransportStats;
use vpnnode::stream_reliable::{decode_ack_frame, encode_ack_frame, AckFrame, ReliableStream};

fn adv(id: u8, role: NodeRole, port: u16, at: u64, ttl: u64) -> NodeAdvertisement {
    make_self_advertisement_at(
        [id; 32],
        role,
        NodeAddr { ip: IpAddress::V4(0x0a00_0000 + id as u32), port, protocol: Protocol::Udp },
        "0.1.0".to_string(),
        ttl,
        at,
    )
}

#[test]
fn discovery_advertise_is_stored_and_query_answered() {
    let mut store = DiscoveryStore::new(8);
    assert!(handle_discovery_message(&mut store, DiscoveryMessage::Advertise(adv(1, NodeRole::Relay, 1, 1_000, 60_000)), 1_000)
        .is_none());
    assert!(handle_discovery_message(&mut store, DiscoveryMessage::Advertise(adv(2, NodeRole::Exit, 2, 2_000, 60_000)), 2_000)
        .is_none());
    assert_eq!(store.all_known().len(), 2);
    let q = DiscoveryQueryPayload { max_results: 10, role: Some(NodeRole::Exit), protocol: None };
    let reply = handle_discovery_message(&mut store, DiscoveryMessage::Query(q), 3_000).expect("answer");
    assert_eq!(reply.header.msg_type, MsgType::DiscoveryResponse);
    let answer = decode_response(&reply.payload).expect("decodes");
    assert_eq!(answer.advertisements.len(), 1);
    assert_eq!(answer.advertisements[0].node_id, [2u8; 32]);
    assert_eq!(store.stats().queries_received, 1);
}

#[test]
fn discovery_response_entries_are_stored_and_expired_ones_purged() {
    let mut store = DiscoveryStore::new(8);
    handle_discovery_message(&mut store, DiscoveryMessage::Advertise(adv(1, NodeRole::Relay, 1, 1_000, 1_000)), 1_000);
    let p = DiscoveryResponsePayload { advertisements: vec![adv(3, NodeRole::Relay, 3, 5_000, 60_000)] };
    assert!(handle_discovery_message(&mut store, DiscoveryMessage::Response(p), 5_000).is_none());
    // node 1 expired at 2_000 and was purged; node 3 is new
    assert!(store.get(&[1u8; 32]).is_none());
    assert!(store.get(&[3u8; 32]).is_some());
    assert_eq!(store.stats().responses_received, 1);
}

#[test]
fn backoff_retransmit_waits_for_the_timeout() {
    let mut rs = ReliableStream::new();
    for i in 0..3u8 {
        let _ = rs.build_outgoing_frame(7, vec![i]);
    }
    // nothing is due before the frames were even sent
    assert!(rs.frames_for_backoff_retransmit(7, 0, 100, 16).is_empty());
    // long after, all are due, oldest first, at most the limit
    let late = u64::MAX / 2;
    let out = rs.frames_for_backoff_retransmit(7, late, 100, 2);
    assert_eq!(out.len(), 2);
    assert_eq!(out[0].frame_seq, 0);
    assert_eq!(out[1].frame_seq, 1);
    assert_eq!(out[0].stream_id, 7);
    assert_eq!(out[0].payload, vec![0]);
    // the two resent ones now wait again; the third is still due
    let again = rs.frames_for_backoff_retransmit(7, late, 100, 16);
    assert_eq!(again.len(), 1);
    assert_eq!(again[0].frame_seq, 2);
}

#[test]
fn ack_frame_roundtrip_and_refusal() {
    let a = AckFrame { stream_id: 0x0102_0304, ack_seq: 0x1122_3344_5566_7788 };
    let bytes = encode_ack_frame(&a);
    assert_eq!(bytes.len(), 12);
    let back = decode_ack_frame(&bytes).expect("decodes");
    assert_eq!(back.stream_id, a.stream_id);
    assert_eq!(back.ack_seq, a.ack_seq);
    assert!(decode_ack_frame(&bytes[..11]).is_none());
}

#[test]
fn config_error_messages() {
    assert_eq!(ConfigError::BindPortZero.message(), "bind_port must be non-zero");
    assert_eq!(ConfigError::RouteLength.message(), "route_length must be in 1..=16");
    assert_eq!(ConfigError::ExitResponseWindow.message(), "exit_response_window_frames must be in 8..=256");
    assert_eq!(
        ConfigError::RelayWithoutPeers.message(),
        "relay requires at least one peer (exit addr) in peers[]"
    );
}

#[test]
fn keypair_public_matches_x25519() {
    let secret = [7u8; 32];
    let kp = keypair_from_secret(secret);
    assert_eq!(kp.secret, secret);
    let expected = x25519_dalek::PublicKey::from(&x25519_dalek::StaticSecret::from(secret));
    assert_eq!(kp.public, *expected.as_bytes());
    assert_ne!(kp.public, secret);
}

#[test]
fn route_success_forgives_failure_only_after_recovery() {
    let mut t = TransportStats {
        success_count: 0,
        failure_count: 2,
        recent_rtt_ms: None,
        last_success_at_ms: Some(50),
        last_failure_at_ms: Some(10),
    };
    t.record_route_success(Some(5_000_000_000), 100);
    assert_eq!(t.success_count, 1);
    assert_eq!(t.failure_count, 1);
    assert_eq!(t.recent_rtt_ms, Some(u32::MAX));
    assert_eq!(t.last_success_at_ms, Some(100));
    let mut u = TransportStats {
        success_count: 3,
        failure_count: 2,
        recent_rtt_ms: Some(9),
        last_success_at_ms: Some(10),
        last_failure_at_ms: Some(50),
    };
    u.record_route_success(None, 200);
    assert_eq!(u.failure_count, 2);
    assert_eq!(u.recent_rtt_ms, Some(9));
}

#[test]
fn route_duplicate_keeps_hops() {
    let a = NodeAddr { ip: IpAddress::V4(1), port: 1, protocol: Protocol::Udp };
    let b = NodeAddr { ip: IpAddress::V4(2), port: 2, protocol: Protocol::Quic };
    let r = Route { hops: vec![a, b] };
    let d = r.duplicate();
    assert_eq!(d.hops, r.hops);
}

#[test]
fn accepted_ant_id_is_refused_within_ttl() {
    let mut d = AntDedup::new(4, 1_000);
    assert!(d.check_and_mark_at([1; 16], 10_000));
    assert!(!d.check_and_mark_at([1; 16], 10_500));
    assert!(d.check_and_mark_at([2; 16], 10_600));
    // after the TTL the id is fresh again
    assert!(d.check_and_mark_at([1; 16], 12_000));
}

#[test]
fn request_read_plan_cases() {
    assert_eq!(plan_request_read(b""), RequestReadPlan::NeedMore { known_total: None });
    assert_eq!(plan_request_read(&[0x16, 3, 1]), RequestReadPlan::TlsRecord);
    assert_eq!(plan_request_read(b"GET / HTTP/1.1\r\nHost: a"), RequestReadPlan::NeedMore { known_total: None });
    assert_eq!(plan_request_read(b"GET / HTTP/1.1\r\nHost: a\r\n\r\n"), RequestReadPlan::Complete);
    let head = b"POST / HTTP/1.1\r\nContent-Length: 5\r\n\r\n";
    assert_eq!(plan_request_read(head), RequestReadPlan::NeedMore { known_total: Some(head.len() + 5) });
    let mut full = head.to_vec();
    full.extend_from_slice(b"hello");
    assert_eq!(plan_request_read(&full), RequestReadPlan::Complete);
}

#[test]
fn mark_sent_at_restarts_the_wait() {
    let mut rs = ReliableStream::new();
    let _ = rs.build_outgoing_frame(7, vec![1]);
    rs.mark_sent_at(0, 12_345);
    assert!(rs.frames_for_retransmit(7, 12_344, 100, 16).is_empty());
    let due = rs.frames_for_retransmit(7, 12_445, 100, 16);
    assert_eq!(due.len(), 1);
    assert_eq!(due[0].frame_seq, 0);
    // an unknown sequence number changes nothing
    rs.mark_sent_at(9, 1);
    assert_eq!(rs.inflight(), 1);
}
