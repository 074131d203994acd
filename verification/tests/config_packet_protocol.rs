use vpnnode::addr::{IpAddress, NodeAddr, Protocol, SocketAddress};
use vpnnode::node_config::{
    default_client_local_listen, default_discovery_advertise_ttl_sec, default_discovery_max_entries,
    default_drain_timeout_sec, default_exit_response_window_frames, default_exit_target_addr,
    default_health_enabled, default_route_length, is_blank, ConfigError, NodeConfig, NodeRole,
};
use vpnnode::ops::drain::DrainState;
use vpnnode::packet::{parse_tcp_ports, Ipv4Header, PacketError};
use vpnnode::protocol::{
    decode, decode_stream_frame, encode, encode_stream_frame, msg_type_from_tag, msg_type_tag, DecodeError,
    MsgType, StreamFrame, TunnelMessage,
};

fn localhost() -> IpAddress {
    IpAddress::V4(u32::from_be_bytes([127, 0, 0, 1]))
}

fn config(role: NodeRole, bind_port: u16, peers: Vec<NodeAddr>) -> NodeConfig {
    NodeConfig {
        role,
        bind_ip: localhost(),
        bind_port,
        peers,
        ants_enabled: false,
        drain_timeout_sec: default_drain_timeout_sec(),
        health_enabled: default_health_enabled(),
        client_local_listen: default_client_local_listen(),
        route_length: default_route_length(),
        exit_target_addr: default_exit_target_addr(),
        exit_response_window_frames: default_exit_response_window_frames(),
        exit_target_allowlist: None,
        discovery_enabled: false,
        discovery_query_on_start: false,
        discovery_max_entries: default_discovery_max_entries(),
        discovery_advertise_ttl_sec: default_discovery_advertise_ttl_sec(),
    }
}

fn udp_peer(port: u16) -> NodeAddr {
    NodeAddr { ip: localhost(), port, protocol: Protocol::Udp }
}

#[test]
fn invalid_bind_port_fails_validation() {
    let mut cfg = config(NodeRole::Relay, 0, vec![]);
    cfg.route_length = 2;
    assert!(cfg.validate().is_err());
    assert_eq!(cfg.validate(), Err(ConfigError::BindPortZero));
}

#[test]
fn invalid_drain_timeout_fails_validation() {
    let mut cfg = config(NodeRole::Relay, 30000, vec![udp_peer(30001)]);
    cfg.drain_timeout_sec = 0;
    assert!(cfg.validate().is_err());
    assert_eq!(cfg.validate(), Err(ConfigError::DrainTimeout));
}

#[test]
fn invalid_discovery_settings_fail_validation() {
    let mut cfg = config(NodeRole::Relay, 30000, vec![udp_peer(30001)]);
    cfg.discovery_max_entries = 0;
    cfg.discovery_advertise_ttl_sec = 0;
    assert!(cfg.validate().is_err());

    cfg.discovery_max_entries = 1;
    cfg.discovery_advertise_ttl_sec = 4000;
    assert!(cfg.validate().is_err());
    assert_eq!(cfg.validate(), Err(ConfigError::DiscoveryTtl));
}

#[test]
fn invalid_exit_response_window_fails_validation() {
    let mut cfg = config(NodeRole::Exit, 30001, vec![]);
    cfg.exit_target_addr = "127.0.0.1:8080".to_string();
    cfg.exit_response_window_frames = 4;
    assert!(cfg.validate().is_err());
    assert_eq!(cfg.validate(), Err(ConfigError::ExitResponseWindow));
}

#[test]
fn defaults_and_each_config_error() {
    assert_eq!(default_client_local_listen(), SocketAddress { ip: localhost(), port: 10080 });
    assert_eq!(default_route_length(), 2);
    assert_eq!(default_exit_target_addr(), "127.0.0.1:8080");
    assert_eq!(default_exit_response_window_frames(), 64);
    assert_eq!(default_drain_timeout_sec(), 20);
    assert!(default_health_enabled());
    assert_eq!(default_discovery_max_entries(), 256);
    assert_eq!(default_discovery_advertise_ttl_sec(), 300);

    let ok_relay = config(NodeRole::Relay, 30000, vec![udp_peer(30001)]);
    assert_eq!(ok_relay.validate(), Ok(()));
    assert_eq!(ok_relay.bind_addr(), SocketAddress { ip: localhost(), port: 30000 });

    let mut c = ok_relay.clone();
    c.route_length = 0;
    assert_eq!(c.validate(), Err(ConfigError::RouteLength));
    let mut c = ok_relay.clone();
    c.route_length = 17;
    assert_eq!(c.validate(), Err(ConfigError::RouteLength));
    let mut c = ok_relay.clone();
    c.drain_timeout_sec = 601;
    assert_eq!(c.validate(), Err(ConfigError::DrainTimeout));
    let mut c = ok_relay.clone();
    c.discovery_max_entries = 4097;
    assert_eq!(c.validate(), Err(ConfigError::DiscoveryMaxEntries));
    assert_eq!(config(NodeRole::Relay, 30000, vec![]).validate(), Err(ConfigError::RelayWithoutPeers));
    let quic = NodeAddr { ip: localhost(), port: 1, protocol: Protocol::Quic };
    assert_eq!(
        config(NodeRole::Relay, 30000, vec![udp_peer(1), quic]).validate(),
        Err(ConfigError::RelayPeerNotUdp)
    );

    let mut exit = config(NodeRole::Exit, 30001, vec![]);
    assert_eq!(exit.validate(), Ok(()));
    exit.exit_target_addr = " \t\n".to_string();
    assert_eq!(exit.validate(), Err(ConfigError::ExitTargetEmpty));

    let client = config(NodeRole::Client, 1, vec![]);
    assert_eq!(client.validate(), Err(ConfigError::ClientWithoutPeers));
    let mut direct = client.clone();
    direct.route_length = 1;
    assert_eq!(direct.validate(), Ok(()));
}

#[test]
fn blank_strings() {
    assert!(is_blank(&String::new()));
    assert!(is_blank(&" \u{3000}\u{2028}".to_string()));
    assert!(!is_blank(&" x ".to_string()));
}

#[test]
fn activate_sets_draining_and_deadline() {
    let mut d = DrainState::new();
    assert!(!d.is_draining());
    d.activate(1_000, 50_000);
    assert!(d.is_draining());
    assert!(d.drain_deadline_ms() > 0);
    assert_eq!(d.drain_deadline_ms(), 51_000);
}

#[test]
fn second_activation_keeps_first_deadline() {
    let mut d = DrainState::new();
    d.activate(1_000, 50_000);
    d.activate(5, 90_000);
    assert_eq!(d.drain_deadline_ms(), 51_000);
    assert!(!d.deadline_reached(50_999));
    assert!(d.deadline_reached(51_000));
    let mut e = DrainState::new();
    e.activate(u64::MAX, 10);
    assert_eq!(e.drain_deadline_ms(), u64::MAX);
    assert!(!DrainState::new().deadline_reached(u64::MAX));
}

#[test]
fn ipv4_parse_roundtrip_basic() {
    let mut buf = [0u8; 20];
    buf[0] = (4 << 4) | 5;
    buf[9] = 6;
    buf[12..16].copy_from_slice(&[10, 0, 0, 1]);
    buf[16..20].copy_from_slice(&[10, 0, 0, 2]);

    let (hdr, consumed) = Ipv4Header::parse(&buf).unwrap();
    assert_eq!(consumed, 20);
    assert_eq!(hdr.src, [10, 0, 0, 1]);
    assert_eq!(hdr.dst, [10, 0, 0, 2]);
    assert_eq!(hdr.protocol, 6);
    assert_eq!(hdr.header_len, 5);
}

#[test]
fn ipv4_parse_errors() {
    assert_eq!(Ipv4Header::parse(&[0x45u8; 19]), Err(PacketError::TooShortForIpv4));
    let mut buf = [0u8; 20];
    buf[0] = (6 << 4) | 5;
    assert_eq!(Ipv4Header::parse(&buf), Err(PacketError::NotIpv4));
    buf[0] = (4 << 4) | 6;
    assert_eq!(Ipv4Header::parse(&buf), Err(PacketError::TruncatedIpv4));
    let mut long = [0u8; 24];
    long[0] = (4 << 4) | 6;
    assert_eq!(Ipv4Header::parse(&long).unwrap().1, 24);
}

#[test]
fn tcp_ports_parse_basic() {
    let buf = [0x1f, 0x90, 0x00, 0x50];
    let (src, dst) = parse_tcp_ports(&buf).unwrap();
    assert_eq!(src, 8080);
    assert_eq!(dst, 80);
    assert_eq!(parse_tcp_ports(&buf[..3]), Err(PacketError::TooShortForTcp));
}

#[test]
fn encode_decode_roundtrip() {
    let msg = TunnelMessage::new(MsgType::Data, 1, 2, 3, b"hello".to_vec());
    let enc = encode(&msg).unwrap();
    let dec = decode(&enc).unwrap();
    assert_eq!(msg, dec);
}

#[test]
fn hop_index_in_header() {
    let msg = TunnelMessage::with_hop(MsgType::Data, 1, 2, 3, 2, b"x".to_vec());
    assert_eq!(msg.header.hop_index, 2);
    let enc = encode(&msg).unwrap();
    let dec = decode(&enc).unwrap();
    assert_eq!(dec.header.hop_index, 2);
}

#[test]
fn stream_frame_roundtrip() {
    let frame = StreamFrame { stream_id: 42, frame_seq: 7, ack_seq: 5, payload: b"abc".to_vec() };
    let enc = encode_stream_frame(&frame);
    let dec = decode_stream_frame(&enc).unwrap();
    assert_eq!(frame, dec);
}

#[test]
fn tunnel_message_layout_and_decode_errors() {
    let msg = TunnelMessage::with_hop(MsgType::Pong, 0x0102_0304, 5, 6, 7, vec![9]);
    let enc = encode(&msg).unwrap();
    // version, tag (4 bytes LE), session, stream, seq (8), hop, payload length (8), payload
    assert_eq!(enc.len(), 1 + 4 + 4 + 4 + 8 + 1 + 8 + 1);
    assert_eq!(enc[0], msg.header.version);
    assert_eq!(&enc[1..5], &msg_type_tag(MsgType::Pong).to_le_bytes());
    assert_eq!(&enc[5..9], &0x0102_0304u32.to_le_bytes());
    assert_eq!(*enc.last().unwrap(), 9);
    assert!(decode(&enc[..enc.len() - 1]).is_err());
    let mut bad_tag = enc.clone();
    bad_tag[1] = 200;
    assert_eq!(decode(&bad_tag), Err(DecodeError::UnknownMessageType));
    assert_eq!(decode(&enc[..4]), Err(DecodeError::Truncated));
    assert_eq!(msg_type_from_tag(msg_type_tag(MsgType::HandshakeChallenge)), Some(MsgType::HandshakeChallenge));
    assert_eq!(msg_type_from_tag(1000), None);
    assert!(decode_stream_frame(&[1, 2, 3]).is_none());
}

#[test]
fn hand_written_layouts_match_bincode() {
    let msg = TunnelMessage::with_hop(MsgType::Data, 0x0102_0304, 7, 0x1122_3344_5566_7788, 2, vec![9, 8, 7]);
    let ours = encode(&msg).unwrap();
    // Header { version, msg_type (u32 variant index), session_id, stream_id, seq, hop_index }, payload
    let theirs = bincode::serialize(&((1u8, 3u32, 0x0102_0304u32, 7u32, 0x1122_3344_5566_7788u64, 2u8), vec![9u8, 8, 7]))
        .unwrap();
    assert_eq!(ours, theirs);
    let f = StreamFrame { stream_id: 5, frame_seq: 6, ack_seq: 7, payload: vec![1, 2] };
    let ours = encode_stream_frame(&f);
    let theirs = bincode::serialize(&(5u32, 6u64, 7u64, vec![1u8, 2])).unwrap();
    assert_eq!(ours, theirs);
}
