use vpnnode::addr::{IpAddress, NodeAddr, Protocol, SocketAddress};
use vpnnode::clock::now_ms;
use vpnnode::crypto::{derive_aead_key, generate_x25519_keypair};
use vpnnode::protocol::{Header, MsgType, StreamFrame, TunnelMessage};
use vpnnode::route::Route;
use vpnnode::session::{
    RecvReplayState, ReplayReject, ReplayRejectKind, SessionCrypto, SessionError, REPLAY_WINDOW_SIZE,
};
use vpnnode::stream::{StreamState, StreamTable};
use vpnnode::stream_reliable::{AckDisposition, ReliableStream};

#[test]
fn stream_state_transitions() {
    let mut table = StreamTable::new();
    table.open_stream(1);
    assert_eq!(table.get_state(1), Some(StreamState::Open));
    table.close_local(1);
    assert_eq!(table.get_state(1), Some(StreamState::HalfClosedLocal));
    table.close_remote(1);
    assert_eq!(table.get_state(1), Some(StreamState::Closed));
    table.remove(1);
    assert_eq!(table.get_state(1), None);
}

#[test]
fn remote_close_first_then_local() {
    let mut table = StreamTable::new();
    table.open_stream(2);
    table.close_remote(2);
    assert_eq!(table.get_state(2), Some(StreamState::HalfClosedRemote));
    table.close_local(2);
    assert_eq!(table.get_state(2), Some(StreamState::Closed));
    // closing an unknown stream changes nothing
    table.close_local(99);
    assert_eq!(table.get_state(99), None);
}

#[test]
fn out_of_order_is_reordered() {
    let mut a = ReliableStream::new();
    let mut b = ReliableStream::new();

    let f1 = a.build_outgoing_frame(1, b"one".to_vec());
    let f2 = a.build_outgoing_frame(1, b"two".to_vec());
    let f3 = a.build_outgoing_frame(1, b"three".to_vec());

    let (d1, _, _) = b.process_incoming(&f1);
    assert_eq!(d1, vec![b"one".to_vec()]);

    let (d3, _, _) = b.process_incoming(&f3);
    assert!(d3.is_empty());

    let (d2, _, _) = b.process_incoming(&f2);
    assert_eq!(d2, vec![b"two".to_vec(), b"three".to_vec()]);
}

#[test]
fn ack_clears_unacked() {
    let mut a = ReliableStream::new();
    let mut b = ReliableStream::new();

    let f1 = a.build_outgoing_frame(1, b"one".to_vec());
    let f2 = a.build_outgoing_frame(1, b"two".to_vec());
    assert_eq!(a.inflight(), 2);

    let (_d1, _ack1, _) = b.process_incoming(&f1);
    let (_d2, ack2, _) = b.process_incoming(&f2);

    let ack_only = StreamFrame { stream_id: 1, frame_seq: 0, ack_seq: ack2, payload: Vec::new() };
    let (_d, _ack_back, _) = a.process_incoming(&ack_only);
    assert_eq!(a.inflight(), 0);
}

#[test]
fn out_of_order_empty_frame_stored_and_delivers_end_of_stream() {
    let mut b = ReliableStream::new();
    let empty_end = StreamFrame { stream_id: 1, frame_seq: 1, ack_seq: 0, payload: Vec::new() };
    let (d1, _, eos1) = b.process_incoming(&empty_end);
    assert!(d1.is_empty());
    assert!(!eos1, "empty out of order should not signal end yet");

    let data0 = StreamFrame { stream_id: 1, frame_seq: 0, ack_seq: 0, payload: b"hello".to_vec() };
    let (d2, _, eos2) = b.process_incoming(&data0);
    assert_eq!(d2, vec![b"hello".to_vec(), vec![]]);
    assert!(eos2, "after draining buffered empty, should signal end");
}

#[test]
fn ack_latency_summary_reports_ordered_quantiles() {
    let mut stream = ReliableStream::new();
    let base = now_ms();

    let f0 = stream.build_outgoing_frame(7, b"a".to_vec());
    let f1 = stream.build_outgoing_frame(7, b"b".to_vec());
    let f2 = stream.build_outgoing_frame(7, b"c".to_vec());
    let f3 = stream.build_outgoing_frame(7, b"d".to_vec());

    let back = [(f0.frame_seq, 40u64), (f1.frame_seq, 80), (f2.frame_seq, 120), (f3.frame_seq, 160)];
    for (seq, ms) in back {
        let entry = stream.unacked.iter_mut().find(|(s, _)| *s == seq).unwrap();
        entry.1.first_sent_ms = base - ms;
    }

    let (acked, avg_ms) = stream.apply_ack_with_latency(4);
    assert_eq!(acked, 4);
    assert!(avg_ms.unwrap() >= 40);

    let summary = stream.ack_latency_summary();
    assert!(summary.min_ms.unwrap() >= 40);
    assert!(summary.p50_ms.unwrap() >= summary.min_ms.unwrap());
    assert!(summary.p95_ms.unwrap() >= summary.p50_ms.unwrap());
    assert!(summary.max_ms.unwrap() >= summary.p95_ms.unwrap());
}

#[test]
fn ack_latency_exact_values_at_fixed_time() {
    let mut stream = ReliableStream::new();
    for _ in 0..4 {
        let _ = stream.build_outgoing_frame(7, b"x".to_vec());
    }
    for (i, ms) in [10u64, 20, 30, 40].iter().enumerate() {
        stream.unacked[i].1.first_sent_ms = 1_000 - ms;
    }
    let d = stream.apply_ack_at(4, 1_000);
    assert_eq!(d.acked_frames, 4);
    assert_eq!(d.avg_latency_ms, Some(25));
    assert_eq!(d.inflight_before, 4);
    assert_eq!(d.inflight_after, 0);
    let s = stream.ack_latency_summary();
    assert_eq!(s.avg_ms, Some(25));
    assert_eq!(s.min_ms, Some(10));
    assert_eq!(s.max_ms, Some(40));
    assert_eq!(stream.counters_snapshot(), (4, 4, 0));
}

#[test]
fn ack_details_classify_advance_and_treat_older_acks_as_stale() {
    let mut stream = ReliableStream::new();
    let _ = stream.build_outgoing_frame(7, b"a".to_vec());
    let _ = stream.build_outgoing_frame(7, b"b".to_vec());

    let advanced = stream.apply_ack_with_latency_details(1);
    assert_eq!(advanced.disposition, AckDisposition::Advanced);
    assert_eq!(advanced.previous_ack_seq, 0);
    assert_eq!(advanced.ack_seq, 1);
    assert_eq!(advanced.acked_frames, 1);
    assert_eq!(advanced.first_acked_seq, Some(0));
    assert_eq!(advanced.last_acked_seq_exclusive, Some(1));
    assert!(!advanced.gap_detected);

    let stale = stream.apply_ack_with_latency_details(1);
    assert_eq!(stale.disposition, AckDisposition::Stale);
    assert_eq!(stale.acked_frames, 0);

    let older_ack = stream.apply_ack_with_latency_details(0);
    assert_eq!(older_ack.disposition, AckDisposition::Stale);
    assert_eq!(older_ack.acked_frames, 0);
}

#[test]
fn retransmit_picks_idle_frames_oldest_first() {
    let mut s = ReliableStream::new();
    for _ in 0..3 {
        let _ = s.build_outgoing_frame(9, b"p".to_vec());
    }
    for i in 0..3 {
        s.unacked[i].1.last_sent_ms = 100;
    }
    s.unacked[1].1.last_sent_ms = 190;
    let out = s.frames_for_retransmit(9, 200, 50, 8);
    assert_eq!(out.len(), 2);
    assert_eq!(out[0].frame_seq, 0);
    assert_eq!(out[1].frame_seq, 2);
    assert_eq!(s.unacked[0].1.retransmit_count, 1);
    assert_eq!(s.unacked[0].1.last_sent_ms, 200);
    assert_eq!(s.unacked[1].1.retransmit_count, 0);
    assert!(s.can_send(4));
    assert!(!s.can_send(3));
}

fn data_msg() -> TunnelMessage {
    TunnelMessage {
        header: Header { version: 1, msg_type: MsgType::Data, session_id: 1, stream_id: 1, seq: 0, hop_index: 0 },
        payload: b"hello".to_vec(),
    }
}

#[test]
fn session_crypto_roundtrip() {
    let kp1 = generate_x25519_keypair();
    let kp2 = generate_x25519_keypair();
    let k1 = derive_aead_key(&kp1.secret, &kp2.public);
    let k2 = derive_aead_key(&kp2.secret, &kp1.public);

    let mut s1 = SessionCrypto::new(k1);
    let mut s2 = SessionCrypto::new(k2);

    let msg = data_msg();
    let ct = s1.seal_message(msg.clone()).unwrap();
    let dec = s2.open_message(&ct).unwrap();
    assert_eq!(msg.header.msg_type, dec.header.msg_type);
    assert_eq!(msg.payload, dec.payload);
}

#[test]
fn replay_window_rejects_duplicates_and_old_packets() {
    let kp1 = generate_x25519_keypair();
    let kp2 = generate_x25519_keypair();
    let k1 = derive_aead_key(&kp1.secret, &kp2.public);
    let k2 = derive_aead_key(&kp2.secret, &kp1.public);

    let mut s1 = SessionCrypto::new(k1);
    let mut s2 = SessionCrypto::new(k2);

    let base_msg = data_msg();
    let mut cts = Vec::new();
    for _ in 0..5 {
        let ct = s1.seal_message(base_msg.clone()).unwrap();
        cts.push(ct);
    }
    for ct in &cts {
        let _ = s2.open_message(ct).unwrap();
    }

    let last = cts.last().unwrap();
    let err = s2.open_message(last).unwrap_err();
    let text = match err {
        SessionError::Replay(r) => r.to_string(),
        other => format!("{:?}", other),
    };
    assert!(text.contains("duplicate") || text.contains("old"), "expected replay-related error, got: {text}");
}

#[test]
fn sealed_message_carries_sequence_number_and_short_input_fails() {
    let key = vpnnode::crypto::dev_default_aead_key();
    let mut s1 = SessionCrypto::new(key);
    let mut s2 = SessionCrypto::new(key);
    let ct = s1.seal_message(data_msg()).unwrap();
    assert_eq!(&ct[..8], &1u64.to_be_bytes());
    let ct2 = s1.seal_message(data_msg()).unwrap();
    assert_eq!(&ct2[..8], &2u64.to_be_bytes());
    let opened = s2.open_message(&ct2).unwrap();
    assert_eq!(opened.header.seq, 2);
    assert!(matches!(s2.open_message(&ct2[..7]), Err(SessionError::TooShort)));
}

#[test]
fn replay_window_accepts_reordered_packet_within_expanded_window() {
    let mut state = RecvReplayState::new();
    for seq in 1..=400 {
        if seq == 120 {
            continue;
        }
        state.check_and_update(seq).unwrap();
    }

    state.check_and_update(120).unwrap();

    let err = state.check_and_update(120).unwrap_err();
    assert_eq!(err.kind, ReplayRejectKind::Duplicate);
    assert_eq!(err.behind, Some(280));
}

#[test]
fn replay_window_rejects_unseen_packet_beyond_expanded_window() {
    let mut state = RecvReplayState::new();
    for seq in 1..=700 {
        if seq == 100 {
            continue;
        }
        state.check_and_update(seq).unwrap();
    }

    let err = state.check_and_update(100).unwrap_err();
    assert_eq!(err.kind, ReplayRejectKind::TooOld);
    assert_eq!(err.behind, Some(600));
}

#[test]
fn replay_zero_is_invalid_and_window_edge() {
    let mut state = RecvReplayState::new();
    let err = state.check_and_update(0).unwrap_err();
    assert_eq!(err.kind, ReplayRejectKind::InvalidSeq);
    state.check_and_update(REPLAY_WINDOW_SIZE + 1).unwrap();
    // exactly window-1 behind is still inside
    state.check_and_update(2).unwrap();
    let err = state.check_and_update(1).unwrap_err();
    assert_eq!(err.kind, ReplayRejectKind::TooOld);
    assert_eq!(err.behind, Some(REPLAY_WINDOW_SIZE));
}

#[test]
fn replay_reject_text() {
    assert_eq!(ReplayReject::invalid_seq(0, 5).to_string(), "seq 0 is reserved / invalid");
    assert_eq!(
        ReplayReject::too_old(100, 700, 600).to_string(),
        "packet too old for replay window: seq=100 highest=700 behind=600 window=512"
    );
    assert_eq!(
        ReplayReject::duplicate(120, 400, 280).to_string(),
        "duplicate packet detected: seq=120 highest=400 behind=280 window=512"
    );
}

fn hop(port: u16) -> NodeAddr {
    NodeAddr::from_socket_addr(SocketAddress { ip: IpAddress::V4(0x7f00_0001), port })
}

fn sa(port: u16) -> SocketAddress {
    SocketAddress { ip: IpAddress::V4(0x7f00_0001), port }
}

#[test]
fn route_first_last_hop() {
    let r = Route { hops: vec![hop(100), hop(101), hop(102)] };
    assert_eq!(r.first_hop_udp(), Some(sa(100)));
    assert_eq!(r.last_hop_udp(), Some(sa(102)));
    assert_eq!(r.len(), 3);
}

#[test]
fn route_next_hop_selection() {
    let r = Route { hops: vec![hop(100), hop(101), hop(102)] };
    assert_eq!(r.next_hop(0).unwrap().as_socket_addr(), Some(sa(101)));
    assert_eq!(r.next_hop(1).unwrap().as_socket_addr(), Some(sa(102)));
    assert_eq!(r.next_hop(2), None);
}

#[test]
fn route_edges() {
    let empty = Route { hops: vec![] };
    assert!(empty.is_empty());
    assert_eq!(empty.first_hop(), None);
    assert_eq!(empty.last_hop_udp(), None);
    let quic = Route { hops: vec![NodeAddr { protocol: Protocol::Quic, ..hop(5) }] };
    assert_eq!(quic.first_hop_udp(), None);
    assert_eq!(quic.first_hop(), Some(NodeAddr { protocol: Protocol::Quic, ..hop(5) }));
}
