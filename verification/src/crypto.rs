//! The cryptographic primitives that seal plugin configurations: X25519
//! key agreement (x25519-dalek), HKDF-SHA256 (hkdf, sha2) and AES-256-GCM
//! (aes-gcm). Each is called through a trusted wrapper whose contract names
//! its result; the facts stated beside the names are those the crates'
//! documentation shows.
use aes_gcm::aead::{Aead, AeadCore, KeyInit, OsRng};
use aes_gcm::Aes256Gcm;
use hkdf::Hkdf;
use sha2::Sha256;
use vstd::prelude::*;
use x25519_dalek::{EphemeralSecret, PublicKey, StaticSecret};

verus! {

/// The X25519 function of secret `k` and public point `u`
/// (`x25519_dalek::x25519`, computed alike by every `diffie_hellman`).
pub uninterp spec fn x25519(k: Seq<u8>, u: Seq<u8>) -> Seq<u8>;

/// The X25519 public key of secret `k` (`PublicKey::from` a secret).
pub uninterp spec fn x25519_public(k: Seq<u8>) -> Seq<u8>;

/// The 32 bytes that HKDF-SHA256 without salt expands from `ikm` and `info`.
pub uninterp spec fn hkdf_sha256(ikm: Seq<u8>, info: Seq<u8>) -> Seq<u8>;

/// AES-256-GCM encryption of `plaintext` under `key` and `nonce`, without
/// associated data: ciphertext followed by the 16-byte tag.
pub uninterp spec fn aes256gcm_encrypt(key: Seq<u8>, nonce: Seq<u8>, plaintext: Seq<u8>) -> Seq<u8>;

/// AES-256-GCM decryption of `ciphertext` (with its tag) under `key` and
/// `nonce`, without associated data: `None` when the tag does not verify.
pub uninterp spec fn aes256gcm_decrypt(key: Seq<u8>, nonce: Seq<u8>, ciphertext: Seq<u8>) -> Option<Seq<u8>>;

/// The largest plaintext AES-GCM encrypts (`aes_gcm::P_MAX`, 2^36 bytes).
pub open spec fn aes_gcm_max_plaintext() -> nat {
    0x10_0000_0000
}

/// A fresh ephemeral X25519 secret (`EphemeralSecret::random_from_rng` with
/// `OsRng`) gives its public key (`PublicKey::from`) and the secret it shares
/// with `their_public` (`EphemeralSecret::diffie_hellman`).
///
/// Trusted: the ephemeral secret is random and never leaves this function, so
/// nothing is stated of the two keys alone. What is stated is key agreement,
/// as the crate's documentation shows it for two parties: whoever holds the
/// secret behind `their_public` computes the same shared secret from the
/// ephemeral public key.
#[verifier::external_body]
pub(crate) fn ephemeral_agreement(their_public: &[u8; 32]) -> (r: ([u8; 32], [u8; 32]))
    ensures
        forall|s: Seq<u8>|
            s.len() == 32 && their_public@ == #[trigger] x25519_public(s) ==> x25519(s, r.0@)
                == r.1@,
{
    let secret = EphemeralSecret::random_from_rng(OsRng);
    let public = PublicKey::from(&secret);
    let shared = secret.diffie_hellman(&PublicKey::from(*their_public));
    (public.to_bytes(), shared.to_bytes())
}

/// The X25519 public key of `secret` (`PublicKey::from(&StaticSecret::from(secret))`).
///
/// Trusted: the result is the public key of the secret, a function of it alone.
#[verifier::external_body]
pub(crate) fn public_key(secret: &[u8; 32]) -> (r: [u8; 32])
    ensures
        r@ == x25519_public(secret@),
{
    PublicKey::from(&StaticSecret::from(*secret)).to_bytes()
}

/// The secret that `secret` shares with `their_public`
/// (`StaticSecret::diffie_hellman`).
///
/// Trusted: the result is the X25519 function of the two arguments.
#[verifier::external_body]
pub(crate) fn static_agreement(secret: &[u8; 32], their_public: &[u8; 32]) -> (r: [u8; 32])
    ensures
        r@ == x25519(secret@, their_public@),
{
    StaticSecret::from(*secret).diffie_hellman(&PublicKey::from(*their_public)).to_bytes()
}

/// 32 bytes of HKDF-SHA256 output (`Hkdf::<Sha256>::new(None, ikm).expand(info, ..)`).
///
/// Trusted: the result is the HKDF expansion of the arguments; 32 bytes are
/// within what `expand` allows (255 hash lengths), so it does not fail.
#[verifier::external_body]
pub(crate) fn hkdf_expand(ikm: &[u8; 32], info: &[u8]) -> (r: [u8; 32])
    ensures
        r@ == hkdf_sha256(ikm@, info@),
{
    let mut okm = [0u8; 32];
    Hkdf::<Sha256>::new(None, ikm).expand(info, &mut okm).expect("32-byte key always fits");
    okm
}

/// A random 96-bit nonce (`Aes256Gcm::generate_nonce` with `OsRng`).
///
/// Trusted: nothing is stated of the bytes, which are random.
#[verifier::external_body]
pub(crate) fn random_nonce() -> (r: [u8; 12]) {
    Aes256Gcm::generate_nonce(OsRng).into()
}

/// AES-256-GCM encryption (`Aes256Gcm::encrypt`), `None` where it fails.
///
/// Trusted: as the crate's source shows, it fails exactly on plaintexts longer
/// than `P_MAX`, and otherwise gives the ciphertext with a 16-byte tag; as its
/// documentation shows, decrypting that under the same key and nonce gives the
/// plaintext back.
#[verifier::external_body]
pub(crate) fn aes_encrypt(key: &[u8; 32], nonce: &[u8; 12], plaintext: &[u8]) -> (r: Option<Vec<u8>>)
    ensures
        r is Some <==> plaintext@.len() <= aes_gcm_max_plaintext(),
        r matches Some(c) ==> c@ == aes256gcm_encrypt(key@, nonce@, plaintext@) && c@.len()
            == plaintext@.len() + 16 && aes256gcm_decrypt(key@, nonce@, c@) == Some(plaintext@),
{
    let cipher = Aes256Gcm::new_from_slice(key).expect("32-byte key is valid");
    cipher.encrypt(aes_gcm::Nonce::from_slice(nonce), plaintext).ok()
}

/// AES-256-GCM decryption (`Aes256Gcm::decrypt`), `None` where it fails.
///
/// Trusted: the result is the decryption of the arguments.
#[verifier::external_body]
pub(crate) fn aes_decrypt(key: &[u8; 32], nonce: &[u8; 12], ciphertext: &[u8]) -> (r: Option<Vec<u8>>)
    ensures
        match r {
            Some(p) => aes256gcm_decrypt(key@, nonce@, ciphertext@) == Some(p@),
            None => aes256gcm_decrypt(key@, nonce@, ciphertext@) is None,
        },
{
    let cipher = Aes256Gcm::new_from_slice(key).expect("32-byte key is valid");
    cipher.decrypt(aes_gcm::Nonce::from_slice(nonce), ciphertext).ok()
}

} // verus!
