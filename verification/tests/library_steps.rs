use vpnnode::addr::{IpAddress, NodeAddr, SocketAddress};
use vpnnode::crypto::AeadKey;
use vpnnode::flow::FlowTable;
use vpnnode::packet::FlowKey;
use vpnnode::handshake::encode_plaintext;
use vpnnode::protocol::{Header, MsgType, TunnelMessage, PROTOCOL_VERSION};
use vpnnode::roles::client::candidate_routes;
use vpnnode::roles::exit_session::{exit_packet_plan, ExitPacket};
use vpnnode::route::Route;
use vpnnode::route_store::retransmit_rate_ppm;
use vpnnode::session::SessionCrypto;
use vpnnode::wire::{build_encrypted_packet, build_handshake_packet, RoutingInfo};

fn node(port: u16) -> NodeAddr {
    NodeAddr::from_socket_addr(SocketAddress { ip: IpAddress::V4(0x7f00_0001), port })
}

fn message(msg_type: MsgType, payload: &[u8]) -> TunnelMessage {
    TunnelMessage {
        header: Header { version: PROTOCOL_VERSION, msg_type, session_id: 9, stream_id: 2, seq: 0, hop_index: 0 },
        payload: payload.to_vec(),
    }
}

fn plaintext_packet(hops: Vec<NodeAddr>, hop_index: u8, msg: &TunnelMessage) -> Vec<u8> {
    let routing = RoutingInfo { hop_index, route: Route { hops } };
    build_handshake_packet(&routing, encode_plaintext(msg).unwrap()).unwrap()
}

#[test]
fn retransmit_rate_is_rounded_parts_per_million() {
    assert_eq!(retransmit_rate_ppm(1, 3), 333_333);
    assert_eq!(retransmit_rate_ppm(2, 3), 666_667);
    assert_eq!(retransmit_rate_ppm(1, 2), 500_000);
    assert_eq!(retransmit_rate_ppm(0, 7), 0);
    assert_eq!(retransmit_rate_ppm(5, 0), 0);
    assert_eq!(retransmit_rate_ppm(10, 1), 1_000_000);
    assert_eq!(retransmit_rate_ppm(u64::MAX, u64::MAX), 1_000_000);
}

#[test]
fn candidate_routes_keep_first_occurrence_of_each_hop_list() {
    let exit = node(1);
    let relay = node(2);
    let relay2 = node(3);
    let primary = Route { hops: vec![relay, exit] };
    let routes = candidate_routes(&primary, exit, Some(relay), Some(relay2));
    let hops: Vec<Vec<NodeAddr>> = routes.into_iter().map(|r| r.hops).collect();
    assert_eq!(hops, vec![vec![exit], vec![relay, exit], vec![relay, relay2, exit]]);

    let other = Route { hops: vec![relay2, exit] };
    let routes = candidate_routes(&other, exit, None, Some(relay2));
    let hops: Vec<Vec<NodeAddr>> = routes.into_iter().map(|r| r.hops).collect();
    assert_eq!(hops, vec![vec![exit], vec![relay2, exit]]);
}

#[test]
fn exit_packet_plan_sorts_packets_before_a_session() {
    let mut crypto: Option<SessionCrypto> = None;
    assert!(matches!(exit_packet_plan(&mut crypto, &[1], false), ExitPacket::BadRouting(_)));

    let init = message(MsgType::HandshakeInit, b"init");
    let packet = plaintext_packet(vec![node(5)], 0, &init);
    assert!(matches!(exit_packet_plan(&mut crypto, &packet, true), ExitPacket::DrainRefused));
    match exit_packet_plan(&mut crypto, &packet, false) {
        ExitPacket::HandshakeInit(routing, msg) => {
            assert_eq!(routing.hop_index, 0);
            assert_eq!(routing.route.hops, vec![node(5)]);
            assert_eq!(msg.payload, b"init".to_vec());
        },
        other => panic!("unexpected {:?}", other),
    }
    let data = plaintext_packet(vec![node(5)], 0, &message(MsgType::Data, b"x"));
    assert!(matches!(exit_packet_plan(&mut crypto, &data, false), ExitPacket::NotHandshake(MsgType::Data)));
    assert!(crypto.is_none());
}

#[test]
fn exit_packet_plan_opens_session_traffic() {
    let routing = RoutingInfo { hop_index: 1, route: Route { hops: vec![node(6), node(7)] } };
    let mut client = SessionCrypto::new(AeadKey([7u8; 32]));
    let packet = build_encrypted_packet(&mut client, &routing, message(MsgType::Data, b"hello")).unwrap();

    let mut crypto = Some(SessionCrypto::new(AeadKey([7u8; 32])));
    match exit_packet_plan(&mut crypto, &packet, false) {
        ExitPacket::Session(r, msg) => {
            assert_eq!(r.route.hops, vec![node(6), node(7)]);
            assert_eq!(msg.payload, b"hello".to_vec());
        },
        other => panic!("unexpected {:?}", other),
    }
    // the same packet again is a replay
    assert!(matches!(exit_packet_plan(&mut crypto, &packet, false), ExitPacket::OpenFailed(_)));

    let not_last = RoutingInfo { hop_index: 0, route: Route { hops: vec![node(6), node(7)] } };
    let packet = build_encrypted_packet(&mut client, &not_last, message(MsgType::Data, b"x")).unwrap();
    assert!(matches!(exit_packet_plan(&mut crypto, &packet, false), ExitPacket::NotFinalHop));

    let mut other_key = Some(SessionCrypto::new(AeadKey([8u8; 32])));
    let retry = plaintext_packet(vec![node(6)], 0, &message(MsgType::HandshakeInit, b"again"));
    assert!(matches!(exit_packet_plan(&mut other_key, &retry, false), ExitPacket::HandshakeRetry(_, _)));
}

#[test]
fn flow_table_reports_flows_and_pruned_count() {
    let mut table = FlowTable::new();
    let mut next = 1u32;
    let a = FlowKey::new([10, 0, 0, 1], [10, 0, 0, 2], 1111, 80, 6);
    let b = FlowKey::new([10, 0, 0, 3], [10, 0, 0, 4], 2222, 80, 6);
    assert!(!table.has_flow(&a));
    assert_eq!(table.get_or_create(a, &mut next, 0), 1);
    assert_eq!(table.get_or_create(b, &mut next, 0), 2);
    assert!(table.has_flow(&a) && table.has_flow(&b));
    assert_eq!(table.prune_idle(10, 100), 2);
    assert!(!table.has_flow(&a) && !table.has_flow(&b));
    assert_eq!(table.prune_idle(10, 200), 0);
}
