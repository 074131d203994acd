//! Stateless handshake cookie against amplification:
//! cookie = HMAC-SHA256(server secret, client ip text || client port (2 bytes big-endian)
//! || client public key || client nonce || time bucket (8 bytes big-endian)), where the
//! time bucket is the Unix time in seconds divided by 30. Verification recomputes the
//! cookie for the current and the previous bucket.
use crate::addr::{IpAddress, SocketAddress};
use crate::clock::unix_time;
use crate::codec::{be_u16, be_u64, bytes32_eq, put_be_u16, put_be_u64, put_bytes};
use crate::iptext::{ip_text, push_ip_text};
use hmac::Mac;
use std::collections::HashMap;
use vstd::prelude::*;

verus! {

broadcast use vstd::std_specs::hash::group_hash_axioms;

pub const COOKIE_LEN: usize = 32;

pub const BUCKET_SECS: u64 = 30;

/// HMAC-SHA256 tag of `msg` under `key`.
pub uninterp spec fn hmac_sha256_tag(key: Seq<u8>, msg: Seq<u8>) -> Seq<u8>;

/// `Hmac::<Sha256>::new_from_slice(key)`, `update(msg)`, `finalize()`: the 32-byte tag is a
/// function of the key and the message. HMAC accepts keys of any length, so creating the
/// MAC cannot fail.
#[verifier::external_body]
fn hmac_sha256(key: &[u8], msg: &[u8]) -> (r: [u8; 32])
    ensures
        r@ == hmac_sha256_tag(key@, msg@),
{
    let mut mac = hmac::Hmac::<sha2::Sha256>::new_from_slice(key).expect("HMAC takes keys of any length");
    mac.update(msg);
    let tag = mac.finalize().into_bytes();
    let mut out = [0u8; 32];
    out.copy_from_slice(tag.as_slice());
    out
}

/// Why a cookie could not be produced or checked.
#[derive(Debug, Clone, Copy, PartialEq, Eq, Structural)]
pub enum CookieError {
    /// The system clock is set before the Unix epoch.
    ClockBeforeEpoch,
}

/// The bytes the cookie authenticates.
pub open spec fn cookie_input(client: SocketAddress, pk: Seq<u8>, nonce: Seq<u8>, bucket: u64) -> Seq<u8> {
    ip_text(client.ip) + be_u16(client.port) + pk + nonce + be_u64(bucket)
}

/// The cookie of a client for a time bucket.
pub open spec fn cookie_for(secret: Seq<u8>, client: SocketAddress, pk: Seq<u8>, nonce: Seq<u8>, bucket: u64) -> Seq<u8> {
    hmac_sha256_tag(secret, cookie_input(client, pk, nonce, bucket))
}

/// The time bucket of a Unix time in seconds.
pub open spec fn bucket_of(secs: u64) -> u64 {
    secs / BUCKET_SECS
}

/// Whether `cookie` is the client's cookie for the bucket of `now_secs` or the one before.
pub open spec fn cookie_valid_at(
    secret: Seq<u8>,
    cookie: Seq<u8>,
    client: SocketAddress,
    pk: Seq<u8>,
    nonce: Seq<u8>,
    now_secs: u64,
) -> bool {
    let b = bucket_of(now_secs);
    cookie == cookie_for(secret, client, pk, nonce, b) || cookie == cookie_for(
        secret,
        client,
        pk,
        nonce,
        if b == 0 {
            0
        } else {
            (b - 1) as u64
        },
    )
}

/// The cookie of a client for an explicit time bucket.
pub fn compute_cookie_for_bucket(
    secret: &[u8],
    client_addr: SocketAddress,
    client_pubkey: &[u8; 32],
    client_nonce: &[u8; 32],
    timestamp_bucket: u64,
) -> (r: [u8; 32])
    ensures
        r@ == cookie_for(secret@, client_addr, client_pubkey@, client_nonce@, timestamp_bucket),
{
    let mut msg: Vec<u8> = Vec::new();
    push_ip_text(&mut msg, &client_addr.ip);
    put_be_u16(&mut msg, client_addr.port);
    put_bytes(&mut msg, client_pubkey.as_slice());
    put_bytes(&mut msg, client_nonce.as_slice());
    put_be_u64(&mut msg, timestamp_bucket);
    assert(msg@ =~= cookie_input(client_addr, client_pubkey@, client_nonce@, timestamp_bucket));
    hmac_sha256(secret, msg.as_slice())
}

/// The cookie of a client for an explicit time bucket (for tests that simulate expiry).
pub fn generate_cookie_for_bucket(
    secret: &[u8],
    client_addr: SocketAddress,
    client_pubkey: &[u8; 32],
    client_nonce: &[u8; 32],
    timestamp_bucket: u64,
) -> (r: Result<[u8; 32], CookieError>)
    ensures
        r matches Ok(c) && c@ == cookie_for(secret@, client_addr, client_pubkey@, client_nonce@, timestamp_bucket),
{
    Ok(compute_cookie_for_bucket(secret, client_addr, client_pubkey, client_nonce, timestamp_bucket))
}

/// The cookie of a client at Unix time `now_secs`.
pub fn generate_cookie_at(
    secret: &[u8],
    client_addr: SocketAddress,
    client_pubkey: &[u8; 32],
    client_nonce: &[u8; 32],
    now_secs: u64,
) -> (r: [u8; 32])
    ensures
        r@ == cookie_for(secret@, client_addr, client_pubkey@, client_nonce@, bucket_of(now_secs)),
{
    compute_cookie_for_bucket(secret, client_addr, client_pubkey, client_nonce, now_secs / BUCKET_SECS)
}

/// Whether `cookie` is valid for the client at Unix time `now_secs`: it matches the
/// client's cookie for the current bucket or the previous one.
pub fn verify_cookie_at(
    secret: &[u8],
    cookie: &[u8; 32],
    client_addr: SocketAddress,
    client_pubkey: &[u8; 32],
    client_nonce: &[u8; 32],
    now_secs: u64,
) -> (r: bool)
    ensures
        r == cookie_valid_at(secret@, cookie@, client_addr, client_pubkey@, client_nonce@, now_secs),
{
    let now_bucket = now_secs / BUCKET_SECS;
    let current = compute_cookie_for_bucket(secret, client_addr, client_pubkey, client_nonce, now_bucket);
    if bytes32_eq(&current, cookie) {
        return true;
    }
    let previous = compute_cookie_for_bucket(
        secret,
        client_addr,
        client_pubkey,
        client_nonce,
        now_bucket.saturating_sub(1),
    );
    bytes32_eq(&previous, cookie)
}

/// Generate a cookie for the client at the current time; the caller sends it in a
/// HandshakeChallenge.
pub fn generate_cookie(
    secret: &[u8],
    client_addr: SocketAddress,
    client_pubkey: &[u8; 32],
    client_nonce: &[u8; 32],
) -> (r: Result<[u8; 32], CookieError>)
    ensures
        r matches Ok(c) ==> exists|now_secs: u64|
            c@ == #[trigger] cookie_for(secret@, client_addr, client_pubkey@, client_nonce@, bucket_of(now_secs)),
{
    match unix_time() {
        Some((secs, _)) => Ok(generate_cookie_at(secret, client_addr, client_pubkey, client_nonce, secs)),
        None => Err(CookieError::ClockBeforeEpoch),
    }
}

/// Verify a cookie from the client at the current time: true only if it matches and is
/// not older than the previous time bucket.
pub fn verify_cookie(
    secret: &[u8],
    cookie: &[u8; 32],
    client_addr: SocketAddress,
    client_pubkey: &[u8; 32],
    client_nonce: &[u8; 32],
) -> (r: Result<bool, CookieError>)
    ensures
        r matches Ok(ok) ==> exists|now_secs: u64|
            ok == #[trigger] cookie_valid_at(secret@, cookie@, client_addr, client_pubkey@, client_nonce@, now_secs),
{
    match unix_time() {
        Some((secs, _)) => Ok(verify_cookie_at(secret, cookie, client_addr, client_pubkey, client_nonce, secs)),
        None => Err(CookieError::ClockBeforeEpoch),
    }
}

/// A cookie issued at one time verifies at any time in the same or the next time bucket.
pub proof fn lemma_cookie_verifies_in_next_bucket(
    secret: Seq<u8>,
    client: SocketAddress,
    pk: Seq<u8>,
    nonce: Seq<u8>,
    issued_secs: u64,
    now_secs: u64,
)
    requires
        bucket_of(now_secs) == bucket_of(issued_secs) || bucket_of(now_secs) == bucket_of(issued_secs) + 1,
    ensures
        cookie_valid_at(secret, cookie_for(secret, client, pk, nonce, bucket_of(issued_secs)), client, pk, nonce, now_secs),
{
}

/// Per-IP rate limit on handshake attempts: at most `max_per_sec` within each one-second
/// window that starts at an address's first attempt after the previous window ended.
#[derive(Debug)]
pub struct HandshakeRateLimiter {
    max_per_sec: u32,
    /// (attempts in the window, window start in seconds) per IPv4 address
    per_ipv4: HashMap<u32, (u32, u64)>,
    /// (attempts in the window, window start in seconds) per IPv6 address
    per_ipv6: HashMap<u128, (u32, u64)>,
}

/// The window of one address after an attempt at `now_secs`, and whether it is allowed.
pub open spec fn rate_step(max_per_sec: u32, entry: Option<(u32, u64)>, now_secs: u64) -> ((u32, u64), bool) {
    let (count, start) = match entry {
        Some(e) => e,
        None => (0u32, now_secs),
    };
    let (count, start) = if now_secs >= start + 1 {
        (0u32, now_secs)
    } else {
        (count, start)
    };
    if count >= max_per_sec {
        ((count, start), false)
    } else {
        (((count + 1) as u32, start), true)
    }
}

impl HandshakeRateLimiter {
    /// The most attempts allowed per address and window.
    pub closed spec fn limit(&self) -> u32 {
        self.max_per_sec
    }

    /// The window of an address, if it made an attempt.
    pub closed spec fn entry(&self, ip: IpAddress) -> Option<(u32, u64)> {
        match ip {
            IpAddress::V4(a) => if self.per_ipv4@.contains_key(a) {
                Some(self.per_ipv4@[a])
            } else {
                None
            },
            IpAddress::V6(a) => if self.per_ipv6@.contains_key(a) {
                Some(self.per_ipv6@[a])
            } else {
                None
            },
        }
    }

    pub fn new(max_per_sec: u32) -> (r: Self)
        ensures
            r.limit() == max_per_sec,
            forall|ip: IpAddress| r.entry(ip) is None,
    {
        HandshakeRateLimiter { max_per_sec, per_ipv4: HashMap::new(), per_ipv6: HashMap::new() }
    }

    /// Whether an attempt from `ip` at Unix time `now_secs` is allowed; an allowed attempt
    /// uses up one of the window's attempts.
    pub fn allow_at(&mut self, ip: IpAddress, now_secs: u64) -> (r: bool)
        ensures
            final(self).limit() == old(self).limit(),
            ({
                let (e, ok) = rate_step(old(self).limit(), old(self).entry(ip), now_secs);
                &&& r == ok
                &&& final(self).entry(ip) == Some(e)
            }),
            forall|other: IpAddress| other != ip ==> final(self).entry(other) == old(self).entry(other),
    {
        let cur = match ip {
            IpAddress::V4(a) => match self.per_ipv4.get(&a) {
                Some(e) => Some(*e),
                None => None,
            },
            IpAddress::V6(a) => match self.per_ipv6.get(&a) {
                Some(e) => Some(*e),
                None => None,
            },
        };
        assert(cur == old(self).entry(ip));
        let (mut count, mut start) = match cur {
            Some(e) => e,
            None => (0u32, now_secs),
        };
        if now_secs.saturating_sub(start) >= 1 {
            count = 0;
            start = now_secs;
        }
        let allowed = count < self.max_per_sec;
        if allowed {
            count = count + 1;
        }
        match ip {
            IpAddress::V4(a) => {
                self.per_ipv4.insert(a, (count, start));
            },
            IpAddress::V6(a) => {
                self.per_ipv6.insert(a, (count, start));
            },
        }
        proof {
            assert forall|other: IpAddress| other != ip implies self.entry(other) == old(self).entry(other) by {
                match (other, ip) {
                    (IpAddress::V4(x), IpAddress::V4(y)) => assert(x != y),
                    (IpAddress::V6(x), IpAddress::V6(y)) => assert(x != y),
                    _ => {},
                }
            }
        }
        allowed
    }

    /// Whether the client at `ip` may proceed now (using up one attempt); false when the
    /// clock is before the Unix epoch.
    pub fn allow(&mut self, ip: IpAddress) -> (r: bool)
        ensures
            final(self).limit() == old(self).limit(),
            forall|other: IpAddress| other != ip ==> final(self).entry(other) == old(self).entry(other),
            r ==> exists|now_secs: u64|
                {
                    let (e, ok) = #[trigger] rate_step(old(self).limit(), old(self).entry(ip), now_secs);
                    ok && final(self).entry(ip) == Some(e)
                },
            !r ==> final(self).entry(ip) == old(self).entry(ip) || exists|now_secs: u64|
                {
                    let (e, ok) = #[trigger] rate_step(old(self).limit(), old(self).entry(ip), now_secs);
                    !ok && final(self).entry(ip) == Some(e)
                },
    {
        match unix_time() {
            Some((secs, _)) => self.allow_at(ip, secs),
            None => false,
        }
    }
}

} // verus!
