//! Key agreement (X25519), key derivation (HKDF-SHA256) and the session AEAD
//! (ChaCha20-Poly1305 with a 64-bit counter nonce).
use crate::codec::be_u64;
use chacha20poly1305::aead::{Aead, KeyInit};
use rand_core::{OsRng, RngCore};
use vstd::prelude::*;

verus! {

pub const AEAD_KEY_LEN: usize = 32;

/// Length of the AEAD authentication tag appended to every ciphertext.
pub const AEAD_TAG_LEN: usize = 16;

/// The error type of the `aead` crate re-exported by chacha20poly1305.
#[verifier::external_type_specification]
#[verifier::external_body]
pub struct ExAeadError(chacha20poly1305::aead::Error);

/// X25519 public key of a 32-byte static secret (the secret is clamped by the curve code).
pub uninterp spec fn x25519_public(secret: Seq<u8>) -> Seq<u8>;

/// X25519 shared secret of a 32-byte static secret and a peer public key.
pub uninterp spec fn x25519_shared(secret: Seq<u8>, peer_public: Seq<u8>) -> Seq<u8>;

/// The first 32 bytes of HKDF-SHA256 output keying material, without salt.
pub uninterp spec fn hkdf_sha256_okm32(ikm: Seq<u8>, info: Seq<u8>) -> Seq<u8>;

/// ChaCha20-Poly1305 ciphertext (with its tag appended) of `plaintext` under `key`
/// and the 12-byte `nonce`, without associated data.
pub uninterp spec fn chacha20poly1305_sealed(key: Seq<u8>, nonce: Seq<u8>, plaintext: Seq<u8>) -> Seq<u8>;

/// A fresh random X25519 static secret.
/// Calls `x25519_dalek::StaticSecret::random_from_rng` with the OS generator; nothing is
/// promised of the bytes (they come from the operating system), and like rand_core's
/// `OsRng` it panics if the OS entropy source fails.
#[verifier::external_body]
fn random_static_secret() -> (r: [u8; 32]) {
    x25519_dalek::StaticSecret::random_from_rng(OsRng).to_bytes()
}

/// 32 fresh random bytes from `rand_core::OsRng::fill_bytes`; nothing is promised of them,
/// and it panics if the OS entropy source fails.
#[verifier::external_body]
pub(crate) fn random_bytes32() -> (r: [u8; 32]) {
    let mut out = [0u8; 32];
    OsRng.fill_bytes(&mut out);
    out
}

/// `x25519_dalek::PublicKey::from(&StaticSecret)`: the public key is a function of the
/// secret bytes alone.
#[verifier::external_body]
fn x25519_public_key(secret: &[u8; 32]) -> (r: [u8; 32])
    ensures
        r@ == x25519_public(secret@),
{
    let s = x25519_dalek::StaticSecret::from(*secret);
    x25519_dalek::PublicKey::from(&s).to_bytes()
}

/// `x25519_dalek::StaticSecret::diffie_hellman`: the shared secret is a function of the
/// two inputs, and both sides of an exchange obtain the same value (the X25519 agreement
/// property: a's secret with b's public key equals b's secret with a's public key).
#[verifier::external_body]
fn x25519_diffie_hellman(secret: &[u8; 32], peer_public: &[u8; 32]) -> (r: [u8; 32])
    ensures
        r@ == x25519_shared(secret@, peer_public@),
        forall|other: Seq<u8>|
            other.len() == 32 && peer_public@ == #[trigger] x25519_public(other) ==> r@ == x25519_shared(
                other,
                x25519_public(secret@),
            ),
{
    let s = x25519_dalek::StaticSecret::from(*secret);
    let p = x25519_dalek::PublicKey::from(*peer_public);
    s.diffie_hellman(&p).to_bytes()
}

/// `hkdf::Hkdf::<Sha256>::new(None, ikm)` followed by `expand(info, 32 bytes)`; the output
/// is a function of `ikm` and `info`. A 32-byte output is always within HKDF's limit, so
/// the expansion cannot fail.
#[verifier::external_body]
fn hkdf_sha256_expand32(ikm: &[u8], info: &[u8]) -> (r: [u8; 32])
    ensures
        r@ == hkdf_sha256_okm32(ikm@, info@),
{
    let hk = hkdf::Hkdf::<sha2::Sha256>::new(None, ikm);
    let mut okm = [0u8; 32];
    hk.expand(info, &mut okm).expect("32 bytes is a valid HKDF-SHA256 length");
    okm
}

/// `ChaCha20Poly1305::encrypt`: fails exactly when the plaintext has 64 * (2^32 - 1)
/// bytes or more; otherwise returns the deterministic ciphertext. The ciphertext is
/// the plaintext XORed with the key stream followed by the tag, so no two plaintexts
/// give the same ciphertext under one key and nonce.
#[verifier::external_body]
fn chacha20poly1305_encrypt(key: &[u8; 32], nonce: &[u8; 12], plaintext: &[u8]) -> (r: Result<Vec<u8>, chacha20poly1305::aead::Error>)
    requires
        plaintext@.len() + AEAD_TAG_LEN <= isize::MAX,
    ensures
        plaintext@.len() / 64 < 0xffff_ffff ==> (r matches Ok(v) && v@ == chacha20poly1305_sealed(
            key@,
            nonce@,
            plaintext@,
        ) && forall|other: Seq<u8>| #[trigger]
            chacha20poly1305_sealed(key@, nonce@, other) == v@ ==> other == plaintext@),
        plaintext@.len() / 64 >= 0xffff_ffff ==> r is Err,
{
    let cipher = chacha20poly1305::ChaCha20Poly1305::new(chacha20poly1305::Key::from_slice(key));
    cipher.encrypt(chacha20poly1305::Nonce::from_slice(nonce), plaintext)
}

/// `ChaCha20Poly1305::decrypt`: succeeds exactly on the ciphertexts that encryption of
/// some plaintext under the same key and nonce produces, and then returns that plaintext.
#[verifier::external_body]
fn chacha20poly1305_decrypt(key: &[u8; 32], nonce: &[u8; 12], ciphertext: &[u8]) -> (r: Result<Vec<u8>, chacha20poly1305::aead::Error>)
    ensures
        r matches Ok(v) ==> chacha20poly1305_sealed(key@, nonce@, v@) == ciphertext@ && forall|p: Seq<u8>|
            #[trigger] chacha20poly1305_sealed(key@, nonce@, p) == ciphertext@ ==> p == v@,
        r is Err ==> forall|p: Seq<u8>| #[trigger] chacha20poly1305_sealed(key@, nonce@, p) != ciphertext@,
{
    let cipher = chacha20poly1305::ChaCha20Poly1305::new(chacha20poly1305::Key::from_slice(key));
    cipher.decrypt(chacha20poly1305::Nonce::from_slice(nonce), ciphertext)
}

/// A session AEAD key.
#[derive(Clone, Copy, Debug)]
pub struct AeadKey(pub [u8; 32]);

impl View for AeadKey {
    type V = Seq<u8>;

    open spec fn view(&self) -> Seq<u8> {
        self.0@
    }
}

/// An X25519 static secret with its public key.
#[derive(Clone, Copy, Debug)]
pub struct Keypair {
    pub secret: [u8; 32],
    pub public: [u8; 32],
}

impl Keypair {
    /// The public half belongs to the secret half.
    pub open spec fn wf(&self) -> bool {
        self.public@ == x25519_public(self.secret@)
    }
}

/// Why sealing or opening failed.
#[derive(Debug, Clone, Copy, PartialEq, Eq, Structural)]
pub enum CryptoError {
    /// The plaintext is too long for one ChaCha20-Poly1305 message.
    Encrypt,
    /// The ciphertext does not authenticate under the key and nonce.
    Decrypt,
}

/// HKDF info string of the session key: `vpnnode-session-key`.
pub open spec fn session_key_info() -> Seq<u8> {
    seq![118u8, 112, 110, 110, 111, 100, 101, 45, 115, 101, 115, 115, 105, 111, 110, 45, 107, 101, 121]
}

/// The session key both ends derive: HKDF-SHA256 of the X25519 shared secret.
pub open spec fn session_key(local_secret: Seq<u8>, peer_public: Seq<u8>) -> Seq<u8> {
    hkdf_sha256_okm32(x25519_shared(local_secret, peer_public), session_key_info())
}

/// The 12-byte nonce of message number `n`: four zero bytes, then `n` big-endian.
pub open spec fn nonce_of(n: u64) -> Seq<u8> {
    seq![0u8, 0, 0, 0] + be_u64(n)
}

/// The ciphertext of `plaintext` under `key` as message number `n`.
pub open spec fn sealed(key: Seq<u8>, n: u64, plaintext: Seq<u8>) -> Seq<u8> {
    chacha20poly1305_sealed(key, nonce_of(n), plaintext)
}

/// The plaintext that `ciphertext` authenticates as under `key` and message number `n`,
/// if there is one.
pub open spec fn opened(key: Seq<u8>, n: u64, ciphertext: Seq<u8>) -> Option<Seq<u8>> {
    if exists|p: Seq<u8>| #[trigger] sealed(key, n, p) == ciphertext {
        Some(choose|p: Seq<u8>| #[trigger] sealed(key, n, p) == ciphertext)
    } else {
        None
    }
}

/// Whether a plaintext of this length can be sealed.
pub open spec fn sealable_len(len: nat) -> bool {
    len / 64 < 0xffff_ffff
}

fn nonce_bytes(n: u64) -> (r: [u8; 12])
    ensures
        r@ == nonce_of(n),
{
    let mut out = [0u8; 12];
    out[4] = (n >> 56u64) as u8;
    out[5] = (n >> 48u64) as u8;
    out[6] = (n >> 40u64) as u8;
    out[7] = (n >> 32u64) as u8;
    out[8] = (n >> 24u64) as u8;
    out[9] = (n >> 16u64) as u8;
    out[10] = (n >> 8u64) as u8;
    out[11] = n as u8;
    assert(out@ =~= nonce_of(n));
    out
}

/// Generate a fresh X25519 keypair.
pub fn generate_x25519_keypair() -> (kp: Keypair)
    ensures
        kp.wf(),
{
    let secret = random_static_secret();
    let public = x25519_public_key(&secret);
    Keypair { secret, public }
}

/// The keypair of a stored secret.
pub fn keypair_from_secret(secret: [u8; 32]) -> (kp: Keypair)
    ensures
        kp.secret == secret,
        kp.wf(),
{
    let public = x25519_public_key(&secret);
    Keypair { secret, public }
}

/// Derive the session AEAD key from the local secret and the peer's public key.
/// Both ends of an exchange derive the same key: deriving from the other side's
/// secret and this side's public key gives this result too.
pub fn derive_aead_key(local_secret: &[u8; 32], peer_public: &[u8; 32]) -> (k: AeadKey)
    ensures
        k@ == session_key(local_secret@, peer_public@),
        forall|other: Seq<u8>|
            other.len() == 32 && peer_public@ == #[trigger] x25519_public(other) ==> k@ == session_key(
                other,
                x25519_public(local_secret@),
            ),
{
    let shared = x25519_diffie_hellman(local_secret, peer_public);
    let info: [u8; 19] = [118, 112, 110, 110, 111, 100, 101, 45, 115, 101, 115, 115, 105, 111, 110, 45, 107, 101, 121];
    assert(info@ =~= session_key_info());
    let okm = hkdf_sha256_expand32(shared.as_slice(), info.as_slice());
    AeadKey(okm)
}

/// The development-only static key (every byte 0x42).
pub fn dev_default_aead_key() -> (k: AeadKey)
    ensures
        k@ == Seq::new(32, |i: int| 0x42u8),
{
    let k = AeadKey([0x42u8; 32]);
    assert(k@ =~= Seq::new(32, |i: int| 0x42u8));
    k
}

/// Encrypt `plaintext` as message number `nonce_u64`.
/// Opening the result with the same key and number gives the plaintext back.
pub fn seal(aead_key: &AeadKey, nonce_u64: u64, plaintext: &[u8]) -> (r: Result<Vec<u8>, CryptoError>)
    requires
        plaintext@.len() + AEAD_TAG_LEN <= isize::MAX,
    ensures
        sealable_len(plaintext@.len()) ==> (r matches Ok(v) && v@ == sealed(aead_key@, nonce_u64, plaintext@)
            && opened(aead_key@, nonce_u64, v@) == Some(plaintext@)),
        !sealable_len(plaintext@.len()) ==> r == Err::<Vec<u8>, CryptoError>(CryptoError::Encrypt),
{
    let nonce = nonce_bytes(nonce_u64);
    match chacha20poly1305_encrypt(&aead_key.0, &nonce, plaintext) {
        Ok(ct) => {
            proof {
                assert(sealed(aead_key@, nonce_u64, plaintext@) == ct@);
                let p = choose|p: Seq<u8>| #[trigger] sealed(aead_key@, nonce_u64, p) == ct@;
                assert(sealed(aead_key@, nonce_u64, p) == ct@);
                assert(chacha20poly1305_sealed(aead_key@, nonce@, p) == ct@);
            }
            Ok(ct)
        },
        Err(_) => Err(CryptoError::Encrypt),
    }
}

/// Decrypt `ciphertext` as message number `nonce_u64`.
pub fn open(aead_key: &AeadKey, nonce_u64: u64, ciphertext: &[u8]) -> (r: Result<Vec<u8>, CryptoError>)
    ensures
        match opened(aead_key@, nonce_u64, ciphertext@) {
            Some(p) => r matches Ok(v) && v@ == p,
            None => r == Err::<Vec<u8>, CryptoError>(CryptoError::Decrypt),
        },
{
    let nonce = nonce_bytes(nonce_u64);
    match chacha20poly1305_decrypt(&aead_key.0, &nonce, ciphertext) {
        Ok(pt) => {
            proof {
                assert(sealed(aead_key@, nonce_u64, pt@) == ciphertext@);
                let p = choose|p: Seq<u8>| #[trigger] sealed(aead_key@, nonce_u64, p) == ciphertext@;
                assert(chacha20poly1305_sealed(aead_key@, nonce@, p) == ciphertext@);
            }
            Ok(pt)
        },
        Err(_) => {
            proof {
                if exists|p: Seq<u8>| #[trigger] sealed(aead_key@, nonce_u64, p) == ciphertext@ {
                    let p = choose|p: Seq<u8>| #[trigger] sealed(aead_key@, nonce_u64, p) == ciphertext@;
                    assert(chacha20poly1305_sealed(aead_key@, nonce@, p) == ciphertext@);
                }
            }
            Err(CryptoError::Decrypt)
        },
    }
}

} // verus!
