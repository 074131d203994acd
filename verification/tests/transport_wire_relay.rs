use vpnnode::addr::{IpAddress, NodeAddr, Protocol, SocketAddress};
use vpnnode::crypto::dev_default_aead_key;
use vpnnode::protocol::{MsgType, TunnelMessage, PROTOCOL_VERSION};
use vpnnode::roles::relay::{RelayAction, RelayDrop, RelayState};
use vpnnode::route::Route;
use vpnnode::session::SessionCrypto;
use vpnnode::transport::{sample_ppm, sample_range, ChaosProfile};
use vpnnode::wire::{
    build_encrypted_packet, build_handshake_packet, build_routed_packet, decode_routing_info, encode_routing_info,
    parse_routing_header, RoutingInfo, WireError,
};

#[test]
fn chaos_plan_is_deterministic() {
    let profile = ChaosProfile {
        label: "test".to_string(),
        seed: 7,
        skip_packets: 0,
        loss_ppm: 12_000,
        duplicate_ppm: 7_000,
        reorder_ppm: 9_000,
        base_delay_ms: 4,
        jitter_ms: 3,
        reorder_extra_delay_ms: 11,
        duplicate_delay_ms: 5,
    };
    let left = profile.plan(42, 30001, 30002, 1200);
    let right = profile.plan(42, 30001, 30002, 1200);
    assert_eq!(left, right);
}

#[test]
fn chaos_plan_respects_skip_packets() {
    let profile = ChaosProfile {
        label: "test".to_string(),
        seed: 7,
        skip_packets: 8,
        loss_ppm: 1_000_000,
        duplicate_ppm: 1_000_000,
        reorder_ppm: 1_000_000,
        base_delay_ms: 50,
        jitter_ms: 25,
        reorder_extra_delay_ms: 25,
        duplicate_delay_ms: 5,
    };
    let decision = profile.plan(4, 30001, 30002, 1200);
    assert_eq!(decision.primary_delay_ms, Some(0));
    assert_eq!(decision.duplicate_delay_ms, None);
    assert!(!decision.dropped);
    assert!(!decision.reordered);
}

#[test]
fn chaos_profile_only_activates_when_values_are_nonzero() {
    let inactive = ChaosProfile {
        label: "inactive".to_string(),
        seed: 1,
        skip_packets: 0,
        loss_ppm: 0,
        duplicate_ppm: 0,
        reorder_ppm: 0,
        base_delay_ms: 0,
        jitter_ms: 0,
        reorder_extra_delay_ms: 0,
        duplicate_delay_ms: 2,
    };
    assert!(!inactive.is_active());

    let mut active = inactive.clone();
    active.loss_ppm = 1;
    assert!(active.is_active());
}

#[test]
fn chaos_full_loss_drops_after_skip() {
    let profile = ChaosProfile {
        label: "loss".to_string(),
        seed: 3,
        skip_packets: 1,
        loss_ppm: 1_000_000,
        duplicate_ppm: 0,
        reorder_ppm: 0,
        base_delay_ms: 0,
        jitter_ms: 0,
        reorder_extra_delay_ms: 0,
        duplicate_delay_ms: 0,
    };
    let d = profile.plan(2, 1, 2, 100);
    assert!(d.dropped);
    assert_eq!(d.primary_delay_ms, None);
    assert!(!sample_ppm(3, 2, 1, 2, 100, 2, 0));
    assert!(sample_ppm(3, 2, 1, 2, 100, 2, 1_000_000));
    assert_eq!(sample_range(3, 2, 1, 2, 100, 3, 0), 0);
    assert!(sample_range(3, 2, 1, 2, 100, 3, 10) <= 10);
}

fn udp(port: u16) -> NodeAddr {
    NodeAddr::from_socket_addr(SocketAddress { ip: IpAddress::V4(0x0a00_0001), port })
}

fn route3() -> Route {
    Route { hops: vec![udp(1000), udp(2000), udp(3000)] }
}

#[test]
fn routing_info_roundtrip_and_layout() {
    let ri = RoutingInfo { hop_index: 1, route: route3() };
    let bytes = encode_routing_info(&ri);
    assert_eq!(bytes[0], 1);
    assert_eq!(&bytes[1..9], &3u64.to_le_bytes());
    let back = decode_routing_info(&bytes).unwrap();
    assert_eq!(back, ri);
    assert!(decode_routing_info(&bytes[..bytes.len() - 1]).is_none());
    let v6 = RoutingInfo {
        hop_index: 0,
        route: Route { hops: vec![NodeAddr { ip: IpAddress::V6(1), port: 9, protocol: Protocol::Wireguard }] },
    };
    assert_eq!(decode_routing_info(&encode_routing_info(&v6)).unwrap(), v6);
}

#[test]
fn routed_packet_roundtrip_and_errors() {
    let ri = RoutingInfo { hop_index: 2, route: route3() };
    let packet = build_routed_packet(&ri, b"inner").unwrap();
    assert_eq!(packet[0], PROTOCOL_VERSION);
    let (back, inner) = parse_routing_header(&packet).unwrap();
    assert_eq!(back, ri);
    assert_eq!(inner, b"inner");
    assert_eq!(parse_routing_header(&packet[..2]), Err(WireError::TooShort));
    let mut bad = packet.clone();
    bad[0] = PROTOCOL_VERSION + 1;
    assert_eq!(parse_routing_header(&bad), Err(WireError::VersionMismatch(PROTOCOL_VERSION + 1)));
    assert_eq!(parse_routing_header(&packet[..10]), Err(WireError::TruncatedRouting));
    let hp = build_handshake_packet(&ri, b"hs".to_vec()).unwrap();
    assert_eq!(parse_routing_header(&hp).unwrap().1, b"hs");
}

#[test]
fn routing_header_too_large_is_refused() {
    let hops = vec![udp(1); 5000];
    let ri = RoutingInfo { hop_index: 0, route: Route { hops } };
    assert_eq!(build_routed_packet(&ri, b"x"), Err(WireError::RoutingHeaderTooLarge));
}

#[test]
fn encrypted_packet_opens_at_the_exit() {
    let key = dev_default_aead_key();
    let mut sender = SessionCrypto::new(key);
    let mut receiver = SessionCrypto::new(key);
    let ri = RoutingInfo { hop_index: 0, route: route3() };
    let msg = TunnelMessage::new(MsgType::Data, 4, 5, 0, b"payload".to_vec());
    let packet = build_encrypted_packet(&mut sender, &ri, msg).unwrap();
    let (_, inner) = parse_routing_header(&packet).unwrap();
    let opened = receiver.open_message(inner).unwrap();
    assert_eq!(opened.payload, b"payload");
    assert_eq!(opened.header.stream_id, 5);
}

fn self_addr(port: u16) -> SocketAddress {
    SocketAddress { ip: IpAddress::V4(0x0a00_0001), port }
}

#[test]
fn relay_forwards_and_returns_along_route() {
    let client = NodeAddr::from_socket_addr(SocketAddress { ip: IpAddress::V4(0xc0a8_0001), port: 5555 });
    let mut relay = RelayState::new();
    // the first relay receives a client packet (hop index 0) and forwards to the next hop
    let fwd = build_routed_packet(&RoutingInfo { hop_index: 0, route: route3() }, b"abc").unwrap();
    match relay.handle_packet(self_addr(1000), client, &fwd, false) {
        RelayAction::Send { to, packet } => {
            assert_eq!(to, udp(2000));
            let (ri, inner) = parse_routing_header(&packet).unwrap();
            assert_eq!(ri.hop_index, 1);
            assert_eq!(inner, b"abc");
        },
        other => panic!("unexpected {:?}", other),
    }
    assert_eq!(relay.client_addr, Some(client));
    // a reply from downstream goes back to the client
    match relay.handle_packet(self_addr(1000), udp(2000), &fwd, false) {
        RelayAction::Send { to, packet } => {
            assert_eq!(to, client);
            assert_eq!(parse_routing_header(&packet).unwrap().0.hop_index, 0);
        },
        other => panic!("unexpected {:?}", other),
    }
}

#[test]
fn relay_drops() {
    let mut relay = RelayState::new();
    let pkt = build_routed_packet(&RoutingInfo { hop_index: 0, route: route3() }, b"x").unwrap();
    assert!(matches!(
        relay.handle_packet(self_addr(1000), udp(2000), &pkt, false),
        RelayAction::Drop(RelayDrop::NoClientYet)
    ));
    assert!(matches!(
        relay.handle_packet(self_addr(4242), udp(7), &pkt, false),
        RelayAction::Drop(RelayDrop::NotInRoute)
    ));
    match relay.handle_packet(self_addr(2000), udp(1000), &pkt, false) {
        RelayAction::Send { to, .. } => assert_eq!(to, udp(3000)),
        other => panic!("unexpected {:?}", other),
    }
    match relay.handle_packet(self_addr(2000), udp(3000), &pkt, false) {
        RelayAction::Send { to, .. } => assert_eq!(to, udp(1000)),
        other => panic!("unexpected {:?}", other),
    }
    assert!(matches!(
        relay.handle_packet(self_addr(3000), udp(9), &pkt, false),
        RelayAction::Drop(RelayDrop::NoDownstream)
    ));
    assert!(matches!(
        relay.handle_packet(self_addr(1000), udp(9), &pkt, true),
        RelayAction::Drop(RelayDrop::Draining)
    ));
    assert!(matches!(
        relay.handle_packet(self_addr(1000), udp(9), &[1, 2], false),
        RelayAction::Drop(RelayDrop::BadHeader(WireError::TooShort))
    ));
    let empty = build_routed_packet(&RoutingInfo { hop_index: 0, route: Route { hops: vec![] } }, b"x").unwrap();
    assert!(matches!(
        relay.handle_packet(self_addr(1000), udp(9), &empty, false),
        RelayAction::Drop(RelayDrop::EmptyRoute)
    ));
    // an unspecified listening address matches by port
    let any = SocketAddress { ip: IpAddress::V4(0), port: 2000 };
    assert!(matches!(relay.handle_packet(any, udp(1000), &pkt, false), RelayAction::Send { .. }));
}
