//! Trusted bindings to the cryptographic primitives the chain consumes.
//!
//! Hashing, signature recovery, randomness, key agreement and the storage
//! cipher are external primitives. Each binding below makes exactly one
//! outside call; deterministic results are given an uninterpreted name so
//! that verified callers can state exact contracts over them.
use vstd::prelude::*;

use rand::Rng;
use chacha20poly1305::aead::Aead;
use chacha20poly1305::aead::KeyInit;

verus! {

/// The Keccak-256 digest of a byte string.
pub uninterp spec fn keccak_of(data: Seq<u8>) -> Seq<u8>;

/// Relies on keccak_hash::keccak: the 32-byte Keccak-256 digest of the input,
/// a function of the input bytes alone.
#[verifier::external_body]
pub fn keccak256(data: &Vec<u8>) -> (r: Vec<u8>)
    ensures
        r@ == keccak_of(data@),
        r@.len() == 32,
{
    keccak_hash::keccak(data).0.to_vec()
}

/// The public key recovered from an ECDSA signature over the secp256k1
/// curve, serialized uncompressed, or `None` when the signature does not
/// recover: `msg` is the 32-byte message hash, `rs` the 64-byte `r || s`
/// scalars, `recid` the recovery identifier.
pub uninterp spec fn recover_of(msg: Seq<u8>, rs: Seq<u8>, recid: u8) -> Option<Seq<u8>>;

/// Relies on libsecp256k1::recover: recovers the signer's public key, a
/// function of the message hash, the signature scalars and the recovery id
/// alone. `Signature::parse_standard` rejects scalars at or above the curve
/// order, and `PublicKey::serialize` yields the 65-byte uncompressed form.
#[verifier::external_body]
pub fn recover_public(msg: &Vec<u8>, rs: &Vec<u8>, recid: u8) -> (r: Option<Vec<u8>>)
    requires
        msg@.len() == 32,
        rs@.len() == 64,
        recid < 4,
    ensures
        match r {
            Some(pk) => recover_of(msg@, rs@, recid) == Some(pk@) && pk@.len() == 65,
            None => recover_of(msg@, rs@, recid) is None,
        },
{
    let mut m32 = [0u8; 32];
    m32.copy_from_slice(&msg[..]);
    let mut s64 = [0u8; 64];
    s64.copy_from_slice(&rs[..]);
    let message = libsecp256k1::Message::parse(&m32);
    let signature = libsecp256k1::Signature::parse_standard(&s64).ok()?;
    let rec_id = libsecp256k1::RecoveryId::parse(recid).ok()?;
    let public = libsecp256k1::recover(&message, &signature, &rec_id).ok()?;
    Some(public.serialize().to_vec())
}

/// Relies on rand::rng (the thread-local generator): fills a buffer with
/// random bytes. Nothing is promised of the values beyond the length.
#[verifier::external_body]
pub fn random_bytes(n: usize) -> (r: Vec<u8>)
    ensures
        r@.len() == n,
{
    let mut buf = vec![0u8; n];
    rand::rng().fill_bytes(&mut buf);
    buf
}

/// The Curve25519 public key matching a 32-byte secret.
pub uninterp spec fn x25519_pk_of(sk: Seq<u8>) -> Seq<u8>;

/// Relies on x25519_dalek::PublicKey::from(&StaticSecret): the Diffie-Hellman
/// public key of a secret, a function of the secret bytes alone; the result
/// is 32 bytes.
#[verifier::external_body]
pub fn x25519_public(sk: &Vec<u8>) -> (r: Vec<u8>)
    requires
        sk@.len() == 32,
    ensures
        r@ == x25519_pk_of(sk@),
        r@.len() == 32,
{
    let mut s32 = [0u8; 32];
    s32.copy_from_slice(&sk[..]);
    let secret = x25519_dalek::StaticSecret::from(s32);
    let public = x25519_dalek::PublicKey::from(&secret);
    public.to_bytes().to_vec()
}

/// The ChaCha20-Poly1305 sealing of a plaintext under a 32-byte key and a
/// 12-byte nonce (ciphertext followed by the authentication tag).
pub uninterp spec fn seal_of(key: Seq<u8>, nonce: Seq<u8>, plaintext: Seq<u8>) -> Seq<u8>;

/// The least plaintext length the cipher refuses: sixty-four bytes for each
/// of the keystream's blocks, whose counter is 32 bits wide.
pub const AEAD_PLAINTEXT_LIMIT: u64 = 64 * 0xffffffff;

/// Relies on chacha20poly1305::ChaCha20Poly1305::encrypt: authenticated
/// encryption, a function of key, nonce and plaintext alone. `None` comes
/// only when the plaintext reaches the cipher's length limit (the keystream
/// counter would overflow); every shorter plaintext is sealed.
#[verifier::external_body]
pub fn aead_seal(key: &Vec<u8>, nonce: &Vec<u8>, plaintext: &Vec<u8>) -> (r: Option<Vec<u8>>)
    requires
        key@.len() == 32,
        nonce@.len() == 12,
    ensures
        match r {
            Some(ct) => ct@ == seal_of(key@, nonce@, plaintext@),
            None => plaintext@.len() >= AEAD_PLAINTEXT_LIMIT,
        },
{
    let mut k32 = [0u8; 32];
    k32.copy_from_slice(&key[..]);
    let mut n12 = [0u8; 12];
    n12.copy_from_slice(&nonce[..]);
    let cipher = chacha20poly1305::ChaCha20Poly1305::new(&k32.into());
    cipher.encrypt(&n12.into(), plaintext.as_slice()).ok()
}

/// What ChaCha20-Poly1305 opening yields for a ciphertext under a key and
/// nonce: the plaintext when the tag authenticates, `None` otherwise.
pub uninterp spec fn open_of(key: Seq<u8>, nonce: Seq<u8>, ciphertext: Seq<u8>) -> Option<Seq<u8>>;

/// Relies on chacha20poly1305::ChaCha20Poly1305::decrypt: authenticated
/// decryption, a function of key, nonce and ciphertext alone. Decryption of
/// a sealing under the same key and nonce yields the sealed plaintext back,
/// the documented round trip of the AEAD construction.
#[verifier::external_body]
pub fn aead_open(key: &Vec<u8>, nonce: &Vec<u8>, ciphertext: &Vec<u8>) -> (r: Option<Vec<u8>>)
    requires
        key@.len() == 32,
        nonce@.len() == 12,
    ensures
        match r {
            Some(pt) => open_of(key@, nonce@, ciphertext@) == Some(pt@),
            None => open_of(key@, nonce@, ciphertext@) is None,
        },
        forall|pt: Seq<u8>|
            ciphertext@ == seal_of(key@, nonce@, pt) ==> (r is Some && r.unwrap()@ == pt),
{
    let mut k32 = [0u8; 32];
    k32.copy_from_slice(&key[..]);
    let mut n12 = [0u8; 12];
    n12.copy_from_slice(&nonce[..]);
    let cipher = chacha20poly1305::ChaCha20Poly1305::new(&k32.into());
    cipher.decrypt(&n12.into(), ciphertext.as_slice()).ok()
}

} // verus!
