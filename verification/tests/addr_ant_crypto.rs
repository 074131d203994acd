use vpnnode::addr::{IpAddress, NodeAddr, Protocol, SocketAddress};
use vpnnode::ant::{Ant, AntDedup, AntType, Observation, MAX_OBSERVATIONS, MAX_PATH, MAX_TTL};
use vpnnode::clock::now_ms;
use vpnnode::crypto::{derive_aead_key, dev_default_aead_key, generate_x25519_keypair, open, seal, CryptoError};

fn v4(a: u8, b: u8, c: u8, d: u8) -> IpAddress {
    IpAddress::V4(u32::from_be_bytes([a, b, c, d]))
}

fn na(port: u16) -> NodeAddr {
    NodeAddr::from_socket_addr(SocketAddress { ip: v4(127, 0, 0, 1), port })
}

#[test]
fn nodeaddr_from_socketaddr_defaults_udp() {
    let sa = SocketAddress { ip: v4(127, 0, 0, 1), port: 1234 };
    let na = NodeAddr::from_socket_addr(sa);
    assert_eq!(na.protocol, Protocol::Udp);
    assert_eq!(na.as_socket_addr(), Some(sa));
}

#[test]
fn non_udp_node_has_no_socket_addr() {
    let n = NodeAddr { ip: v4(10, 0, 0, 1), port: 443, protocol: Protocol::Quic };
    assert_eq!(n.as_socket_addr(), None);
}

fn ant_with(ttl: u8, path: usize, observations: usize) -> Ant {
    let obs = Observation { node: na(1), rtt_ms: Some(5), success: Some(true), timestamp_ms: 1 };
    Ant {
        id: [0u8; 16],
        ant_type: AntType::Echo,
        ttl,
        path: vec![na(1); path],
        observations: vec![obs; observations],
        created_at_ms: now_ms(),
    }
}

#[test]
fn ant_validate_limits() {
    let a = ant_with(1, MAX_PATH + 1, 0);
    assert!(!a.validate());
}

#[test]
fn ant_validate_edges() {
    assert!(ant_with(1, MAX_PATH, MAX_OBSERVATIONS).validate());
    assert!(!ant_with(0, 0, 0).validate());
    assert!(ant_with(MAX_TTL, 0, 0).validate());
    assert!(!ant_with(MAX_TTL + 1, 0, 0).validate());
    assert!(!ant_with(1, 0, MAX_OBSERVATIONS + 1).validate());
}

#[test]
fn dedup_rejects_duplicates() {
    let mut d = AntDedup::new(32, 60_000);
    let id = [7u8; 16];
    assert!(d.check_and_mark(id));
    assert!(!d.check_and_mark(id));
}

#[test]
fn dedup_forgets_after_ttl() {
    let mut d = AntDedup::new(32, 1_000);
    let id = [9u8; 16];
    assert!(d.check_and_mark_at(id, 10_000));
    assert!(!d.check_and_mark_at(id, 10_500));
    assert!(d.check_and_mark_at(id, 11_001));
}

#[test]
fn dedup_capacity_evicts_oldest() {
    // capacity is raised to at least 16
    let mut d = AntDedup::new(2, 1_000_000);
    for i in 0..17u8 {
        assert!(d.check_and_mark_at([i; 16], 5));
    }
    // the first id was pushed out by the seventeenth
    assert!(d.check_and_mark_at([0u8; 16], 6));
    assert!(!d.check_and_mark_at([16u8; 16], 6));
}

#[test]
fn test_seal_open_roundtrip() {
    let kp1 = generate_x25519_keypair();
    let kp2 = generate_x25519_keypair();
    let k1 = derive_aead_key(&kp1.secret, &kp2.public);
    let k2 = derive_aead_key(&kp2.secret, &kp1.public);

    let msg = b"hello vpnnode";
    let ct = seal(&k1, 42, msg).unwrap();
    let pt = open(&k2, 42, &ct).unwrap();
    assert_eq!(pt, msg);
}

#[test]
fn keypair_public_is_not_secret_and_keys_differ() {
    let kp = generate_x25519_keypair();
    assert_ne!(kp.public, kp.secret);
    let other = generate_x25519_keypair();
    let k = derive_aead_key(&kp.secret, &other.public);
    assert_ne!(k.0, other.public);
    assert_ne!(k.0, kp.secret);
}

#[test]
fn sealed_differs_from_plaintext_and_grows_by_tag() {
    let key = dev_default_aead_key();
    assert_eq!(key.0, [0x42u8; 32]);
    let msg = [1u8, 2, 3, 4];
    let ct = seal(&key, 1, &msg).unwrap();
    assert_eq!(ct.len(), msg.len() + 16);
    assert_ne!(&ct[..4], &msg[..]);
}

#[test]
fn open_with_wrong_nonce_or_tampered_fails() {
    let key = dev_default_aead_key();
    let ct = seal(&key, 7, b"payload").unwrap();
    assert_eq!(open(&key, 8, &ct), Err(CryptoError::Decrypt));
    let mut bad = ct.clone();
    bad[0] ^= 1;
    assert_eq!(open(&key, 7, &bad), Err(CryptoError::Decrypt));
    assert_eq!(open(&key, 7, &ct[..3]), Err(CryptoError::Decrypt));
}
