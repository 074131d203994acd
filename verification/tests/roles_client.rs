use std::sync::{Arc, Mutex};
use vpnnode::addr::{IpAddress, NodeAddr, SocketAddress};
use vpnnode::handshake::decode_init_payload;
use vpnnode::handshake_cookie::HandshakeRateLimiter;
use vpnnode::handshake::encode_plaintext;
use vpnnode::linger::LingerTable;
use vpnnode::protocol::{decode, MsgType, StreamFrame};
use vpnnode::roles::client::{
    buffered_close_requires_wait, completion_reason_uses_terminal_settlement, inspect_buffered_http_response,
    mark_close_signal_seen, note_completed_response_signal, plan_response_ack_dispatch, plan_response_data_dispatch,
    remember_completed_response_stream, request_site_label, snapshot_completed_response_stream, ClientHandshake,
    ClientHandshakeError, CloseSignalSeenTable, CompletedResponseStreamTable, HandshakeStep, LateSignal,
    ResponseAckDispatchPlan, ResponseDataDispatchPlan, ResponseSettlement, SettlementEvent, SettlementReason,
    BUFFERED_HTTP_RESPONSE_HARD_CAP, BUFFERED_HTTP_RESPONSE_SOFT_CAP_SLACK, COMPLETED_RESPONSE_STREAM_LINGER_MS,
    HANDSHAKE_MAX_ATTEMPTS, HANDSHAKE_RETRY_DELAY_MS,
};
use vpnnode::roles::exit_handshake::{answer_handshake_init_at, exit_reply_routing, ExitHandshakeReply};
use vpnnode::route::Route;
use vpnnode::stream_reliable::ReliableStream;
use vpnnode::wire::{build_handshake_packet, parse_routing_header};
use vpnnode::protocol::{Header, TunnelMessage, PROTOCOL_VERSION};

type Shared = Arc<Mutex<ReliableStream>>;

#[test]
fn completed_response_stream_retains_ack_state_for_late_duplicates() {
    let stream_id = 42u32;
    let reliable: Shared = Arc::new(Mutex::new(ReliableStream::new()));
    {
        let mut guard = reliable.lock().unwrap();
        let data = StreamFrame { stream_id, frame_seq: 0, ack_seq: 0, payload: b"hello".to_vec() };
        let end = StreamFrame { stream_id, frame_seq: 1, ack_seq: 0, payload: Vec::new() };

        let (deliver_data, ack_after_data, eos_after_data) = guard.process_incoming(&data);
        assert_eq!(deliver_data, vec![b"hello".to_vec()]);
        assert_eq!(ack_after_data, 1);
        assert!(!eos_after_data);

        let (deliver_end, ack_after_end, eos_after_end) = guard.process_incoming(&end);
        assert!(deliver_end.is_empty());
        assert_eq!(ack_after_end, 2);
        assert!(eos_after_end);
    }

    let now = 1_000_000u64;
    let mut completed: CompletedResponseStreamTable<Shared> = LingerTable::new();
    remember_completed_response_stream(&mut completed, stream_id, reliable.clone(), "content_length_satisfied", now);

    let snapshot = snapshot_completed_response_stream(&mut completed, stream_id, now + 5).expect("completed stream");
    let late_duplicate = StreamFrame { stream_id, frame_seq: 0, ack_seq: 0, payload: b"hello".to_vec() };
    let (deliver_late, ack_after_late, eos_after_late) = {
        let mut guard = snapshot.payload.lock().unwrap();
        guard.process_incoming(&late_duplicate)
    };

    assert!(deliver_late.is_empty(), "late duplicate must not be redelivered");
    assert_eq!(ack_after_late, 2, "completed stream must retain cumulative ACK state for late duplicates");
    assert!(!eos_after_late);

    let (completed_age_ms, completion_reason, first, late_payload_count) =
        note_completed_response_signal(&mut completed, stream_id, LateSignal::LatePayload, now + 10)
            .expect("late payload should update completed stream counters");
    assert_eq!(completion_reason, "content_length_satisfied");
    assert!(first);
    assert_eq!(late_payload_count, 1);
    assert!(completed_age_ms <= COMPLETED_RESPONSE_STREAM_LINGER_MS);
    assert_eq!(completed_age_ms, 10);
}

#[test]
fn completed_stream_is_forgotten_after_linger() {
    let mut completed: CompletedResponseStreamTable<u8> = LingerTable::new();
    remember_completed_response_stream(&mut completed, 5, 1u8, "buffer_cap_reached", 100);
    let (_, _, first, n) = note_completed_response_signal(&mut completed, 5, LateSignal::LateClose, 200).unwrap();
    assert!(first);
    assert_eq!(n, 1);
    let (_, _, first, n) = note_completed_response_signal(&mut completed, 5, LateSignal::LateClose, 300).unwrap();
    assert!(!first);
    assert_eq!(n, 2);
    assert!(note_completed_response_signal(&mut completed, 5, LateSignal::LateClose, 100 + COMPLETED_RESPONSE_STREAM_LINGER_MS + 1)
        .is_none());
    assert!(snapshot_completed_response_stream(&mut completed, 5, 0).is_none());
}

fn response_with_content_length(body_len: usize) -> Vec<u8> {
    let header = format!("HTTP/1.1 200 OK\r\nContent-Length: {body_len}\r\nConnection: close\r\n\r\n");
    let mut response = Vec::with_capacity(header.len() + body_len);
    response.extend_from_slice(header.as_bytes());
    response.extend(std::iter::repeat_n(b'X', body_len));
    response
}

#[test]
fn buffered_completion_uses_content_length_for_small_response() {
    let request = b"GET / HTTP/1.1\r\nHost: example\r\nConnection: close\r\n\r\n";
    let response = response_with_content_length(64);
    let inspection = inspect_buffered_http_response(request.len(), &response);

    assert_eq!(inspection.content_length, Some(64));
    assert_eq!(inspection.expected_total, Some(response.len()));
    assert_eq!(inspection.completion_reason, Some("content_length_reached"));
    assert!(!inspection.content_length_exceeds_cap);
}

#[test]
fn buffered_completion_uses_content_length_for_medium_response() {
    let request = b"GET /perf-262144.bin HTTP/1.1\r\nHost: example\r\nConnection: close\r\n\r\n";
    let response = response_with_content_length(262_144);
    let inspection = inspect_buffered_http_response(request.len(), &response);

    assert_eq!(inspection.content_length, Some(262_144));
    assert_eq!(inspection.expected_total, Some(response.len()));
    assert_eq!(inspection.completion_reason, Some("content_length_reached"));
    assert!(
        inspection.active_cap > response.len(),
        "content-length aware cap must leave headroom past the exact response size"
    );
}

#[test]
fn buffered_completion_does_not_stop_at_old_soft_cap_before_content_length_total() {
    let request = b"GET /perf-262144.bin HTTP/1.1\r\nHost: example\r\nConnection: close\r\n\r\n";
    let full_response = response_with_content_length(BUFFERED_HTTP_RESPONSE_SOFT_CAP_SLACK + 256);
    let old_soft_cap = request.len().saturating_add(BUFFERED_HTTP_RESPONSE_SOFT_CAP_SLACK);
    assert!(full_response.len() > old_soft_cap);
    let partial = &full_response[..old_soft_cap];
    let inspection = inspect_buffered_http_response(request.len(), partial);

    assert_eq!(inspection.content_length, Some(BUFFERED_HTTP_RESPONSE_SOFT_CAP_SLACK + 256));
    assert_eq!(inspection.expected_total, Some(full_response.len()));
    assert_eq!(inspection.completion_reason, None);
}

#[test]
fn buffered_completion_can_use_cap_as_safety_fallback_for_oversized_response() {
    let request = b"GET /huge HTTP/1.1\r\nHost: example\r\nConnection: close\r\n\r\n";
    let oversize_body = BUFFERED_HTTP_RESPONSE_HARD_CAP + 1024;
    let header = format!("HTTP/1.1 200 OK\r\nContent-Length: {oversize_body}\r\nConnection: close\r\n\r\n");
    let mut partial = Vec::with_capacity(BUFFERED_HTTP_RESPONSE_HARD_CAP);
    partial.extend_from_slice(header.as_bytes());
    partial.extend(std::iter::repeat_n(b'Y', BUFFERED_HTTP_RESPONSE_HARD_CAP.saturating_sub(header.len())));
    let inspection = inspect_buffered_http_response(request.len(), &partial);

    assert!(inspection.content_length_exceeds_cap);
    assert_eq!(inspection.completion_reason, Some("buffer_cap_reached"));
    assert_eq!(inspection.active_cap, inspection.hard_cap);
}

#[test]
fn buffered_response_without_headers_waits_for_cap() {
    let inspection = inspect_buffered_http_response(10, b"HTTP/1.1 200 OK\r\nConnection: close");
    assert_eq!(inspection.header_end, None);
    assert_eq!(inspection.content_length, None);
    assert_eq!(inspection.completion_reason, None);
    assert_eq!(inspection.fallback_cap, 10 + BUFFERED_HTTP_RESPONSE_SOFT_CAP_SLACK);
}

#[test]
fn buffered_close_waits_for_remaining_content_length_bytes() {
    assert!(buffered_close_requires_wait(Some(1024), 1000));
    assert!(buffered_close_requires_wait(Some(1024), 0));
    assert!(!buffered_close_requires_wait(Some(1024), 1024));
    assert!(!buffered_close_requires_wait(Some(1024), 1400));
}

#[test]
fn buffered_close_without_content_length_finishes_immediately() {
    assert!(!buffered_close_requires_wait(None, 0));
    assert!(!buffered_close_requires_wait(None, 512));
}

#[test]
fn close_signal_is_seen_once_per_stream() {
    let mut seen: CloseSignalSeenTable = LingerTable::new();
    assert!(mark_close_signal_seen(&mut seen, 7, 1_000));
    assert!(!mark_close_signal_seen(&mut seen, 7, 1_001), "duplicate CloseStream must not re-enter lifecycle handling");
    assert!(mark_close_signal_seen(&mut seen, 8, 1_002));
}

#[test]
fn close_signal_is_seen_again_after_linger() {
    let mut seen: CloseSignalSeenTable = LingerTable::new();
    assert!(mark_close_signal_seen(&mut seen, 7, 1_000));
    assert!(mark_close_signal_seen(&mut seen, 7, 1_000 + 30_001));
}

#[test]
fn terminal_settlement_only_for_content_length() {
    assert!(completion_reason_uses_terminal_settlement("content_length_reached"));
    assert!(!completion_reason_uses_terminal_settlement("buffer_cap_reached"));
    assert!(!completion_reason_uses_terminal_settlement("content_length_reachee"));
    assert_eq!(request_site_label(b"GET / HTTP/1.1\r\nHost: example.com:8080\r\n\r\n"), "example.com");
    assert_eq!(request_site_label(b"GET / HTTP/1.1\r\n\r\n"), "unknown");
}

#[test]
fn response_data_dispatch_prefers_completed_stream_over_stale_active_state() {
    // no consumer, stale reliable state and a route remain, and the stream completed
    assert_eq!(
        plan_response_data_dispatch(false, true, true, true),
        ResponseDataDispatchPlan::Completed { prune_active_state: true }
    );
    assert_eq!(
        plan_response_data_dispatch(true, false, false, true),
        ResponseDataDispatchPlan::Active { create_reliable: true, use_default_route: true }
    );
    assert_eq!(plan_response_data_dispatch(false, false, false, false), ResponseDataDispatchPlan::Unknown);
}

#[test]
fn late_ack_after_completion_uses_completed_stream_state() {
    let stream_id = 88u32;
    let reliable: Shared = Arc::new(Mutex::new(ReliableStream::new()));
    {
        let mut guard = reliable.lock().unwrap();
        let _ = guard.build_outgoing_frame(stream_id, b"hello".to_vec());
        let _ = guard.build_outgoing_frame(stream_id, Vec::new());
    }
    let mut completed: CompletedResponseStreamTable<Shared> = LingerTable::new();
    remember_completed_response_stream(&mut completed, stream_id, reliable.clone(), "content_length_satisfied", 50);
    match plan_response_ack_dispatch(false, false, completed.contains(stream_id)) {
        ResponseAckDispatchPlan::Completed { prune_active_state } => {
            assert!(!prune_active_state, "late ACK must not recreate or touch active reliable state");
            let snapshot = snapshot_completed_response_stream(&mut completed, stream_id, 60).unwrap();
            let mut guard = snapshot.payload.lock().unwrap();
            let (acked, _) = guard.apply_ack_with_latency(2);
            assert_eq!(acked, 2);
        },
        other => panic!("expected completed ACK dispatch, got {:?}", other),
    }
}

#[test]
fn orphaned_active_state_without_consumer_is_pruned() {
    assert_eq!(
        plan_response_data_dispatch(false, true, true, false),
        ResponseDataDispatchPlan::Orphaned { use_default_route: false }
    );
    assert_eq!(plan_response_ack_dispatch(false, true, false), ResponseAckDispatchPlan::Unknown { prune_active_state: true });
    assert_eq!(plan_response_ack_dispatch(true, true, true), ResponseAckDispatchPlan::Active);
}

#[test]
fn settlement_ends_by_quiet_period_or_deadline() {
    let mut s = ResponseSettlement::new(1_000, false);
    assert_eq!(s.check(1_100), None);
    assert_eq!(s.on_event(SettlementEvent::EndOfStream, 1_100), Some(true));
    assert_eq!(s.on_event(SettlementEvent::EndOfStream, 1_110), Some(false));
    assert_eq!(s.check(1_400), None);
    assert_eq!(s.on_event(SettlementEvent::CloseStream, 1_200), Some(true));
    assert_eq!(s.wait_budget_ms(1_300), 150);
    assert_eq!(s.check(1_449), None);
    assert_eq!(s.check(1_450), Some(SettlementReason::TerminalQuietPeriodElapsed));
    assert_eq!(s.on_event(SettlementEvent::Payload(10), 1_460), None);
    assert_eq!(s.payload_after_local_completion_events, 1);
    assert_eq!(s.payload_after_local_completion_bytes, 10);

    let lonely = ResponseSettlement::new(0, true);
    assert_eq!(lonely.wait_budget_ms(500), 1_500);
    assert_eq!(lonely.check(2_000), Some(SettlementReason::SettlementMaxElapsed));
    assert_eq!(SettlementReason::SettlementMaxElapsed.as_str(), "settlement_max_elapsed");
}

fn node(port: u16) -> NodeAddr {
    NodeAddr::from_socket_addr(SocketAddress { ip: IpAddress::V4(0x7f00_0001), port })
}

const SECRET: &[u8] = b"exit-cookie-secret";

/// The exit's side of one exchange: read the client's packet and answer it.
fn exit_answer(limiter: &mut HandshakeRateLimiter, from: NodeAddr, packet: &[u8], now: u64) -> Option<Vec<u8>> {
    let (routing, inner) = parse_routing_header(packet).unwrap();
    let msg = decode(inner).unwrap();
    assert_eq!(msg.header.msg_type, MsgType::HandshakeInit);
    let init = decode_init_payload(&msg.payload).unwrap();
    let reply = match answer_handshake_init_at(limiter, SECRET, from, &init, msg.header.session_id, now) {
        ExitHandshakeReply::Challenge(m) => m,
        ExitHandshakeReply::Established(m, _key) => m,
        _ => return None,
    };
    let bytes = encode_plaintext(&reply).unwrap();
    Some(build_handshake_packet(&exit_reply_routing(routing), bytes).unwrap())
}

#[test]
fn client_and_exit_handshake_end_to_end() {
    let route = Route { hops: vec![node(30000)] };
    let mut client = ClientHandshake::new(route).unwrap();
    let mut limiter = HandshakeRateLimiter::new(4);
    let first = match client.begin_attempt() {
        HandshakeStep::Send { to, packet } => {
            assert_eq!(to, node(30000));
            packet
        },
        other => panic!("unexpected {:?}", other),
    };
    let client_addr = node(40000);
    let challenge = exit_answer(&mut limiter, client_addr, &first, 1_000).unwrap();
    let second = match client.on_packet(&challenge) {
        HandshakeStep::Send { packet, .. } => packet,
        other => panic!("unexpected {:?}", other),
    };
    let ack = exit_answer(&mut limiter, client_addr, &second, 1_010).unwrap();
    let mut client_crypto = match client.on_packet(&ack) {
        HandshakeStep::Established(c) => c,
        other => panic!("unexpected {:?}", other),
    };

    // the exit derives the same key: answer the same cookie-bearing init again
    let (_, inner) = parse_routing_header(&second).unwrap();
    let init = decode_init_payload(&decode(inner).unwrap().payload).unwrap();
    assert!(init.cookie.is_some());
    let msg = TunnelMessage {
        header: Header { version: PROTOCOL_VERSION, msg_type: MsgType::Data, session_id: 1, stream_id: 3, seq: 0, hop_index: 0 },
        payload: b"ping".to_vec(),
    };
    let sealed = client_crypto.seal_message(msg).unwrap();
    assert!(sealed.len() > 8);
}

#[test]
fn client_handshake_edges() {
    assert!(matches!(ClientHandshake::new(Route { hops: vec![] }), Err(ClientHandshakeError::EmptyRoute)));
    let mut client = ClientHandshake::new(Route { hops: vec![node(1)] }).unwrap();
    assert!(matches!(client.on_packet(&[1, 2, 3]), HandshakeStep::RetryAfter { delay_ms: 0 }));
    for _ in 0..HANDSHAKE_MAX_ATTEMPTS {
        assert!(matches!(client.begin_attempt(), HandshakeStep::Send { .. }));
        assert!(matches!(client.on_timeout(), HandshakeStep::RetryAfter { delay_ms: HANDSHAKE_RETRY_DELAY_MS }));
    }
    assert!(matches!(client.begin_attempt(), HandshakeStep::Failed(ClientHandshakeError::Exhausted)));
    let mut c2 = ClientHandshake::new(Route { hops: vec![node(1)] }).unwrap();
    let _ = c2.begin_attempt();
    assert!(matches!(c2.on_packet(&[1, 2, 3]), HandshakeStep::Failed(ClientHandshakeError::Wire(_))));
}
