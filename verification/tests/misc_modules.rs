use sha2::Digest;
use vpnnode::addr::{IpAddress, NodeAddr, Protocol};
use vpnnode::build_info::BuildInfo;
use vpnnode::discovery::store::DiscoveryStore;
use vpnnode::discovery::types::NodeAdvertisement;
use vpnnode::discovery::{
    build_discovery_response_payload, build_plaintext_packet, clamp_query_max_results, decode_query, decode_response,
    encode_advertisement, encode_query, encode_response, make_self_advertisement_at, node_id_from_addr,
    parse_discovery_message, DiscoveryMessage, DiscoveryQueryPayload, DiscoveryResponsePayload,
    MAX_DISCOVERY_RESPONSE_ADS,
};
use vpnnode::http::{
    extract_connect_host_from_request, extract_http_host_from_request, extract_http_status_code,
    extract_site_from_request, extract_tls_sni_from_request, find_bytes, http_content_length, http_header_end,
    http_status_code, strip_port_from_host_bytes,
};
use vpnnode::iptext::ip_text_bytes;
use vpnnode::linger::LingerTable;
use vpnnode::node_config::NodeRole;
use vpnnode::pheromone::{default_dest_hint, key_for_transport, PheromoneKey};
use vpnnode::protocol::{MsgType, TunnelMessage};
use vpnnode::route_store::{
    ema_u32, ema_u64, LocalRouteObservation, ResponseQualityFeedback, RouteFailureKind, RouteQualityStats,
    TransportStats,
};
use vpnnode::seqmap::{insert_sorted, lower_bound};
use vpnnode::wire::parse_routing_header;

#[test]
fn http_header_and_content_length() {
    let r = b"HTTP/1.1 404 Not Found\r\nContent-Length:   12\r\n\r\nbody";
    assert_eq!(http_header_end(r), Some(r.len() - 4));
    assert_eq!(http_content_length(r), Some((r.len() - 4, 12)));
    assert_eq!(http_status_code(r), Some(404));
    assert_eq!(extract_http_status_code(r), Some(404));
    assert_eq!(http_header_end(b"HTTP/1.1 200 OK\r\n"), None);
    assert_eq!(http_content_length(b"HTTP/1.1 200 OK\r\n\r\n"), None);
    assert_eq!(http_status_code(b"HTTP/1.1 2x0"), None);
    assert_eq!(find_bytes(b"abcabc", b"ca"), Some(2));
    assert_eq!(find_bytes(b"abc", b"abcd"), None);
}

#[test]
fn http_hosts() {
    assert_eq!(strip_port_from_host_bytes(b"example.com:443"), Some(&b"example.com"[..]));
    assert_eq!(strip_port_from_host_bytes(b"[::1]:443"), Some(&b"::1"[..]));
    assert_eq!(strip_port_from_host_bytes(b"[]"), None);
    assert_eq!(strip_port_from_host_bytes(b"host:abc"), Some(&b"host:abc"[..]));
    assert_eq!(strip_port_from_host_bytes(b""), None);
    assert_eq!(extract_http_host_from_request(b"GET / HTTP/1.1\r\nHost:  a.b:80\r\n\r\n"), Some("a.b"));
    assert_eq!(extract_http_host_from_request(b"GET / HTTP/1.1\r\n\r\n"), None);
    assert_eq!(extract_connect_host_from_request(b"CONNECT x.y:443 HTTP/1.1\r\n\r\n"), Some("x.y"));
    assert_eq!(extract_connect_host_from_request(b"GET x.y:443 HTTP/1.1\r\n\r\n"), None);
    assert_eq!(extract_site_from_request(b"CONNECT c.d:443 HTTP/1.1\r\nHost: e.f\r\n\r\n"), Some("c.d"));
    assert_eq!(extract_site_from_request(b"GET / HTTP/1.1\r\nHost: e.f\r\n\r\n"), Some("e.f"));
}

fn client_hello_with_sni(name: &[u8]) -> Vec<u8> {
    // server_name extension
    let mut sni = Vec::new();
    let list_len = (name.len() + 3) as u16;
    sni.extend_from_slice(&list_len.to_be_bytes());
    sni.push(0);
    sni.extend_from_slice(&(name.len() as u16).to_be_bytes());
    sni.extend_from_slice(name);
    let mut ext = Vec::new();
    ext.extend_from_slice(&[0, 0]);
    ext.extend_from_slice(&(sni.len() as u16).to_be_bytes());
    ext.extend_from_slice(&sni);
    // ClientHello body
    let mut body = Vec::new();
    body.extend_from_slice(&[3, 3]);
    body.extend_from_slice(&[0u8; 32]);
    body.push(0); // session id
    body.extend_from_slice(&[0, 2, 0x13, 0x01]); // cipher suites
    body.extend_from_slice(&[1, 0]); // compression
    body.extend_from_slice(&(ext.len() as u16).to_be_bytes());
    body.extend_from_slice(&ext);
    let mut hs = vec![1u8];
    let l = body.len() as u32;
    hs.extend_from_slice(&[(l >> 16) as u8, (l >> 8) as u8, l as u8]);
    hs.extend_from_slice(&body);
    let mut rec = vec![0x16, 3, 1];
    rec.extend_from_slice(&(hs.len() as u16).to_be_bytes());
    rec.extend_from_slice(&hs);
    rec
}

#[test]
fn tls_sni_is_found() {
    let hello = client_hello_with_sni(b"sni.example");
    assert_eq!(extract_tls_sni_from_request(&hello), Some("sni.example"));
    assert_eq!(extract_site_from_request(&hello), Some("sni.example"));
    assert_eq!(extract_tls_sni_from_request(&hello[..hello.len() - 1]), None);
    assert_eq!(extract_tls_sni_from_request(b"\x17abcdefghij"), None);
}

#[test]
fn ip_text_matches_std_display() {
    let v6 = |parts: [u16; 8]| {
        let mut x: u128 = 0;
        for p in parts {
            x = (x << 16) | p as u128;
        }
        IpAddress::V6(x)
    };
    let cases: Vec<(IpAddress, &str)> = vec![
        (IpAddress::V4(0x7f00_0001), "127.0.0.1"),
        (IpAddress::V4(0), "0.0.0.0"),
        (IpAddress::V4(u32::MAX), "255.255.255.255"),
        (v6([0, 0, 0, 0, 0, 0, 0, 0]), "::"),
        (v6([0, 0, 0, 0, 0, 0, 0, 1]), "::1"),
        (v6([0x2001, 0xdb8, 0, 0, 0, 0x8a2e, 0x370, 0x7334]), "2001:db8::8a2e:370:7334"),
        (v6([0x2001, 0xdb8, 0, 0, 1, 0, 0, 1]), "2001:db8::1:0:0:1"),
        (v6([0, 0, 0, 0, 0, 0xffff, 0xc0a8, 0x0101]), "::ffff:192.168.1.1"),
        (v6([0xfe80, 0, 0, 0, 1, 0, 0, 0]), "fe80::1:0:0:0"),
        (v6([1, 0, 2, 3, 4, 5, 6, 7]), "1:0:2:3:4:5:6:7"),
    ];
    for (ip, text) in cases {
        assert_eq!(String::from_utf8(ip_text_bytes(&ip)).unwrap(), text);
    }
}

#[test]
fn moving_averages() {
    let mut slot: Option<u64> = None;
    ema_u64(&mut slot, 100);
    assert_eq!(slot, Some(100));
    ema_u64(&mut slot, 200);
    assert_eq!(slot, Some(130));
    ema_u64(&mut slot, u64::MAX);
    assert!(slot.unwrap() >= 130);
    let mut s32: Option<u32> = Some(10);
    ema_u32(&mut s32, 0);
    assert_eq!(s32, Some(7));
}

#[test]
fn transport_and_route_quality_counters() {
    let mut t = TransportStats::default();
    t.record_failure(RouteFailureKind::ProtocolMismatch, 5);
    assert_eq!(t.failure_count, 6);
    t.record_failure(RouteFailureKind::Timeout, 6);
    assert_eq!(t.failure_count, 7);
    t.record_success(Some(u64::MAX), 9);
    assert_eq!(t.failure_count, 6);
    assert_eq!(t.success_count, 1);
    assert_eq!(t.recent_rtt_ms, Some(u32::MAX));
    assert_eq!(t.last_success_at_ms, Some(9));
    assert_eq!(t.last_failure_at_ms, Some(6));

    let mut q = RouteQualityStats::default();
    let obs = LocalRouteObservation {
        success: true,
        status_code: Some(200),
        ttfb_ms: Some(40),
        total_ms: 100,
        response_bytes: 1000,
    };
    q.record_local_observation(&obs, 50);
    q.record_local_observation(&LocalRouteObservation { total_ms: 200, ttfb_ms: None, ..obs }, 60);
    assert_eq!(q.local_samples, 2);
    assert_eq!(q.local_total_ms, Some(130));
    assert_eq!(q.local_ttfb_ms, Some(40));
    assert_eq!(q.success_count, 2);
    assert_eq!(q.last_http_code, Some(200));

    let fb = ResponseQualityFeedback {
        stream_id: 1,
        route_len: 2,
        resp_bytes: 5000,
        frames_sent: 5,
        stream_duration_ms: 1000,
        first_target_byte_ms: Some(10),
        first_overlay_send_ms: Some(30),
        ack_latency_ms_avg: Some(50),
        ack_latency_ms_p50: Some(45),
        ack_latency_ms_p95: Some(90),
        ack_latency_ms_max: Some(120),
        total_retransmits: 0,
        retransmit_rate_ppm: 0,
        window_wait_events: 1,
        window_wait_total_ms: 250,
        window_wait_max_ms: 250,
        http_code: Some(200),
    };
    q.record_feedback(&fb, 70);
    assert_eq!(q.feedback_samples, 1);
    assert_eq!(q.last_feedback_at_ms, Some(70));
    assert_eq!(q.ack_latency_ms_avg, Some(50));
    assert_eq!(q.window_wait_ratio_ppm, Some(250_000));
}

#[test]
fn pheromone_keys() {
    assert_eq!(default_dest_hint(), 0);
    assert_eq!(key_for_transport(Protocol::Udp, 9), PheromoneKey { dest_hint: 0, protocol: Protocol::Udp, port: 9 });
}

#[test]
fn build_info_short_line() {
    let b = BuildInfo::current();
    assert_eq!(b.version, "0.1.0");
    assert_eq!(b.short(), "vpnnode v0.1.0");
    let full = BuildInfo { version: "1.2.3", git_commit: Some("0123456789abcdef"), build_ts_ms: Some("42") };
    assert_eq!(full.short(), "vpnnode v1.2.3 commit=01234567 build_ts_ms=42");
    let short_commit = BuildInfo { version: "1", git_commit: Some("abc"), build_ts_ms: None };
    assert_eq!(short_commit.short(), "vpnnode v1 commit=abc");
}

#[test]
fn sorted_vector_helpers() {
    let mut v: Vec<(u64, &str)> = Vec::new();
    insert_sorted(&mut v, 5, "five", true);
    insert_sorted(&mut v, 1, "one", true);
    insert_sorted(&mut v, 3, "three", true);
    insert_sorted(&mut v, 3, "THREE", false);
    assert_eq!(v, vec![(1, "one"), (3, "three"), (5, "five")]);
    insert_sorted(&mut v, 3, "THREE", true);
    assert_eq!(v[1], (3, "THREE"));
    assert_eq!(lower_bound(&v, 0), 0);
    assert_eq!(lower_bound(&v, 3), 1);
    assert_eq!(lower_bound(&v, 4), 2);
    assert_eq!(lower_bound(&v, 9), 3);
}

#[test]
fn linger_table_purges_old_then_over_cap() {
    let mut t: LingerTable<u8> = LingerTable::new();
    t.insert(1, 100, 1);
    t.insert(2, 200, 2);
    t.insert(3, 300, 3);
    t.purge(300, 200, 10);
    assert!(t.contains(1));
    t.purge(301, 200, 10);
    assert!(!t.contains(1));
    assert_eq!(t.len(), 2);
    t.purge(301, 1_000, 1);
    assert_eq!(t.len(), 1);
    assert!(t.contains(3));
    assert_eq!(t.take(3), Some((300, 3)));
    assert_eq!(t.len(), 0);
}

fn adv(id: u8, role: NodeRole, port: u16, at: u64, ttl: u64) -> NodeAdvertisement {
    make_self_advertisement_at(
        [id; 32],
        role,
        NodeAddr { ip: IpAddress::V4(0x0a00_0000 + id as u32), port, protocol: Protocol::Udp },
        "0.1.0".to_string(),
        ttl,
        at,
    )
}

#[test]
fn discovery_store_insert_replace_evict_purge() {
    let mut s = DiscoveryStore::new(2);
    s.insert_at(adv(1, NodeRole::Relay, 1, 1_000, 10_000), 1_000);
    s.insert_at(adv(2, NodeRole::Exit, 2, 1_000, 20_000), 1_000);
    assert_eq!(s.all_known().len(), 2);
    // replacing keeps the size
    s.insert_at(adv(1, NodeRole::Relay, 11, 2_000, 10_000), 2_000);
    assert_eq!(s.get(&[1u8; 32]).unwrap().addr.port, 11);
    // a full cache evicts the entry that expires first (node 1: 12_000 < 21_000)
    s.insert_at(adv(3, NodeRole::Relay, 3, 2_000, 50_000), 2_000);
    assert!(s.get(&[1u8; 32]).is_none());
    assert!(s.get(&[3u8; 32]).is_some());
    // expired or zero-ttl advertisements are rejected
    s.insert_at(adv(4, NodeRole::Relay, 4, 0, 10), 5_000);
    s.insert_at(adv(5, NodeRole::Relay, 5, 5_000, 0), 5_000);
    let stats = s.stats();
    assert_eq!(stats.advertisements_received, 6);
    assert_eq!(stats.advertisements_rejected_expired, 2);
    assert_eq!(stats.advertisements_accepted, 4);
    assert_eq!(s.known_relays().len(), 1);
    assert_eq!(s.known_exits().len(), 1);
    s.purge_expired(30_000);
    assert_eq!(s.all_known().len(), 1);
    s.on_query_sent();
    s.on_response_received();
    assert_eq!(s.stats().queries_sent, 1);
    assert_eq!(s.stats().responses_received, 1);
}

#[test]
fn discovery_query_answer_is_newest_first_and_bounded() {
    let mut s = DiscoveryStore::new(16);
    for i in 1..=5u8 {
        s.insert_at(adv(i, NodeRole::Relay, i as u16, 1_000 * i as u64, 100_000), 5_000);
    }
    s.insert_at(adv(9, NodeRole::Exit, 9, 9_000, 100_000), 9_000);
    let q = DiscoveryQueryPayload { max_results: 3, role: Some(NodeRole::Relay), protocol: Some(Protocol::Udp) };
    let answer = build_discovery_response_payload(&s, &q, 10_000);
    let ids: Vec<u8> = answer.advertisements.iter().map(|a| a.node_id[0]).collect();
    assert_eq!(ids, vec![5, 4, 3]);
    assert_eq!(clamp_query_max_results(0), 0);
    assert_eq!(clamp_query_max_results(200), MAX_DISCOVERY_RESPONSE_ADS);
    let none = DiscoveryQueryPayload { max_results: 0, role: None, protocol: None };
    assert!(build_discovery_response_payload(&s, &none, 10_000).advertisements.is_empty());
}

#[test]
fn discovery_messages_roundtrip() {
    let q = DiscoveryQueryPayload { max_results: 7, role: Some(NodeRole::Exit), protocol: None };
    let back = decode_query(&encode_query(&q)).unwrap();
    assert_eq!(back.max_results, 7);
    assert_eq!(back.role, Some(NodeRole::Exit));
    assert_eq!(back.protocol, None);

    let p = DiscoveryResponsePayload { advertisements: vec![adv(1, NodeRole::Relay, 1, 5, 6), adv(2, NodeRole::Exit, 2, 7, 8)] };
    let bytes = encode_response(&p);
    let back = decode_response(&bytes).unwrap();
    assert_eq!(back.advertisements.len(), 2);
    assert_eq!(back.advertisements[1].node_id, [2u8; 32]);
    assert_eq!(back.advertisements[1].version, "0.1.0");
    assert_eq!(back.advertisements[0].ttl_ms, 6);
    assert!(decode_response(&bytes[..bytes.len() - 1]).is_none());

    let a = adv(3, NodeRole::Client, 3, 1, 2);
    let msg = TunnelMessage::new(MsgType::DiscoveryAdvertise, 0, 0, 0, encode_advertisement(&a));
    match parse_discovery_message(&msg) {
        Some(DiscoveryMessage::Advertise(b)) => {
            assert_eq!(b.node_id, a.node_id);
            assert_eq!(b.addr, a.addr);
        },
        other => panic!("unexpected {:?}", other),
    }
    let data = TunnelMessage::new(MsgType::Data, 0, 0, 0, vec![]);
    assert!(parse_discovery_message(&data).is_none());
    let to = NodeAddr { ip: IpAddress::V4(1), port: 2, protocol: Protocol::Udp };
    let packet = build_plaintext_packet(&to, &msg).unwrap();
    let (ri, _) = parse_routing_header(&packet).unwrap();
    assert_eq!(ri.hop_index, 0);
    assert_eq!(ri.route.hops, vec![to]);
}

#[test]
fn node_id_is_sha256_of_address_text() {
    let addr = NodeAddr { ip: IpAddress::V4(0x7f00_0001), port: 9000, protocol: Protocol::Udp };
    let id = node_id_from_addr(&addr);
    let expected = sha2::Sha256::digest(b"Udp|127.0.0.1|9000");
    assert_eq!(&id[..], expected.as_slice());
    let other = node_id_from_addr(&NodeAddr { port: 9001, ..addr });
    assert_ne!(id, other);
}
