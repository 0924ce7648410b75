//! Trusted boundary to the cryptographic crates: Ed25519 signing and
//! verification, AES-256-GCM sealing of the secret seed, and the random
//! bytes for seeds and nonces.
//!
//! Everything here is believed, not proved; each item names the outside
//! function it relies on.  The deterministic results are given names
//! (`ed25519_public_of`, `ed25519_sig_of`, `aes256gcm_plaintext_of`,
//! `aes256gcm_ciphertext_of`) that the verified contracts elsewhere speak
//! through.

use vstd::prelude::*;

use aes_gcm::aead::generic_array::GenericArray;
use aes_gcm::aead::Aead;
use aes_gcm::KeyInit;
use ed25519_dalek::Signer;
use ed25519_dalek::Verifier;
use rand::RngCore;

verus! {

/// The Ed25519 public key derived from a 32-byte seed; a function of the
/// seed alone.
pub uninterp spec fn ed25519_public_of(seed: Seq<u8>) -> Seq<u8>;

/// The Ed25519 signature over a message under the keypair of a seed;
/// Ed25519 signing is deterministic, so a function of seed and message.
pub uninterp spec fn ed25519_sig_of(seed: Seq<u8>, message: Seq<char>) -> Seq<u8>;

/// Whether Ed25519 verification accepts a signature over a message under
/// a public key; a function of its three arguments alone.
pub uninterp spec fn ed25519_verifies(public_key: Seq<u8>, message: Seq<char>, sig: Seq<u8>) -> bool;

/// The plaintext that AES-256-GCM decryption recovers from a ciphertext
/// under a key and nonce, or nothing when authentication fails; a
/// function of its three arguments alone.
pub uninterp spec fn aes256gcm_plaintext_of(key: Seq<u8>, nonce: Seq<u8>, ciphertext: Seq<u8>) -> Option<Seq<u8>>;

/// The ciphertext (with its tag) that AES-256-GCM encryption produces;
/// encryption is deterministic, so a function of key, nonce and
/// plaintext alone.
pub uninterp spec fn aes256gcm_ciphertext_of(key: Seq<u8>, nonce: Seq<u8>, plaintext: Seq<u8>) -> Seq<u8>;

/// Relies on rand's `thread_rng` and `RngCore::fill_bytes`: fills a
/// buffer from a cryptographically secure generator.  Nothing is assumed
/// of the values, only the length.
#[verifier::external_body]
pub fn random_bytes(n: usize) -> (r: Vec<u8>)
    ensures
        r@.len() == n,
{
    let mut buf = vec![0u8; n];
    rand::thread_rng().fill_bytes(&mut buf);
    buf
}

/// Relies on ed25519_dalek's `SigningKey::from_bytes` and
/// `verifying_key`: the public key is derived deterministically from the
/// 32-byte seed and is 32 bytes long.
#[verifier::external_body]
pub fn ed25519_public_key(seed: &Vec<u8>) -> (r: Vec<u8>)
    requires
        seed@.len() == 32,
    ensures
        r@ == ed25519_public_of(seed@),
        r@.len() == 32,
{
    let bytes: [u8; 32] = seed.as_slice().try_into().unwrap();
    let key = ed25519_dalek::SigningKey::from_bytes(&bytes);
    key.verifying_key().to_bytes().to_vec()
}

/// Relies on ed25519_dalek's `Signer::sign` for `SigningKey`: Ed25519
/// signing is deterministic in seed and message, produces 64 bytes, and
/// what it signs verifies under the seed's public key.
#[verifier::external_body]
pub fn ed25519_sign(seed: &Vec<u8>, message: &str) -> (r: Vec<u8>)
    requires
        seed@.len() == 32,
    ensures
        r@ == ed25519_sig_of(seed@, message@),
        r@.len() == 64,
        ed25519_verifies(ed25519_public_of(seed@), message@, r@),
{
    let bytes: [u8; 32] = seed.as_slice().try_into().unwrap();
    let key = ed25519_dalek::SigningKey::from_bytes(&bytes);
    key.sign(message.as_bytes()).to_bytes().to_vec()
}

/// Relies on ed25519_dalek's `VerifyingKey::verify` (with
/// `VerifyingKey::from_bytes` and `Signature::from_slice` converting the
/// arguments): acceptance is a function of key, message and signature; a
/// malformed key or signature is rejected.
#[verifier::external_body]
pub fn ed25519_verify(public_key: &Vec<u8>, message: &str, signature: &Vec<u8>) -> (r: bool)
    ensures
        r == ed25519_verifies(public_key@, message@, signature@),
{
    let kb: [u8; 32] = match public_key.as_slice().try_into() {
        Ok(b) => b,
        Err(_) => return false,
    };
    let key = match ed25519_dalek::VerifyingKey::from_bytes(&kb) {
        Ok(k) => k,
        Err(_) => return false,
    };
    let sig = match ed25519_dalek::Signature::from_slice(signature.as_slice()) {
        Ok(s) => s,
        Err(_) => return false,
    };
    key.verify(message.as_bytes(), &sig).is_ok()
}

/// Relies on aes_gcm's `Aes256Gcm::encrypt`: authenticated encryption is
/// deterministic in key, nonce and plaintext, appends a 16-byte tag, and
/// decryption under the same key and nonce recovers exactly the
/// plaintext.  Encryption of a short plaintext cannot fail.
#[verifier::external_body]
pub fn aes256gcm_encrypt(key: &Vec<u8>, nonce: &Vec<u8>, plaintext: &Vec<u8>) -> (r: Vec<u8>)
    requires
        key@.len() == 32,
        nonce@.len() == 12,
        plaintext@.len() <= 1024,
    ensures
        r@ == aes256gcm_ciphertext_of(key@, nonce@, plaintext@),
        r@.len() == plaintext@.len() + 16,
        aes256gcm_plaintext_of(key@, nonce@, r@) == Some(plaintext@),
{
    let cipher = aes_gcm::Aes256Gcm::new(GenericArray::from_slice(key.as_slice()));
    cipher.encrypt(GenericArray::from_slice(nonce.as_slice()), plaintext.as_slice()).unwrap()
}

/// Relies on aes_gcm's `Aes256Gcm::decrypt`: returns the authenticated
/// plaintext, or nothing when the key is wrong or the data was altered.
#[verifier::external_body]
pub fn aes256gcm_decrypt(key: &Vec<u8>, nonce: &Vec<u8>, ciphertext: &Vec<u8>) -> (r: Option<
    Vec<u8>,
>)
    requires
        key@.len() == 32,
        nonce@.len() == 12,
    ensures
        r matches Some(p) ==> aes256gcm_plaintext_of(key@, nonce@, ciphertext@) == Some(p@),
        r is None ==> aes256gcm_plaintext_of(key@, nonce@, ciphertext@) is None,
{
    let cipher = aes_gcm::Aes256Gcm::new(GenericArray::from_slice(key.as_slice()));
    cipher.decrypt(GenericArray::from_slice(nonce.as_slice()), ciphertext.as_slice()).ok()
}

} // verus!
