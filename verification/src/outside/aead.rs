//! AES-256-GCM.
use vstd::prelude::*;

verus! {

/// What AES-256-GCM makes of a plaintext under a key and a nonce: ciphertext and tag.
pub uninterp spec fn aes_gcm_seal(key: Seq<u8>, nonce: Seq<u8>, plain: Seq<u8>) -> Seq<u8>;

/// What AES-256-GCM reads from ciphertext and tag under a key and a nonce, or nothing if
/// the tag does not fit.
pub uninterp spec fn aes_gcm_open(key: Seq<u8>, nonce: Seq<u8>, sealed: Seq<u8>) -> Option<Seq<u8>>;

/// The longest plaintext that the cipher takes, in bytes.
pub const MAX_PLAINTEXT: u64 = 0x10_0000_0000;

/// Calls `encrypt` of `aes_gcm::Aes256Gcm`: it takes any plaintext up to its limit, adds a
/// tag of sixteen bytes, and what it makes can be decrypted again.
#[verifier::external_body]
pub(crate) fn aead_encrypt(key: &[u8; 32], nonce: &[u8; 12], plain: &[u8]) -> (r: Option<Vec<u8>>)
    ensures
        r is Some <==> plain@.len() <= MAX_PLAINTEXT,
        r matches Some(c) ==> c@ == aes_gcm_seal(key@, nonce@, plain@),
        r matches Some(c) ==> c@.len() == plain@.len() + 16,
        r matches Some(c) ==> aes_gcm_open(key@, nonce@, c@) == Some(plain@),
{
    let cipher = <aes_gcm::Aes256Gcm as aes_gcm::KeyInit>::new(key.into());
    aes_gcm::aead::Aead::encrypt(&cipher, nonce.into(), plain).ok()
}

/// Calls `decrypt` of `aes_gcm::Aes256Gcm`: the plaintext, sixteen bytes shorter, or
/// nothing if the tag does not fit.
#[verifier::external_body]
pub(crate) fn aead_decrypt(key: &[u8; 32], nonce: &[u8; 12], sealed: &[u8]) -> (r: Option<Vec<u8>>)
    ensures
        r is None <==> aes_gcm_open(key@, nonce@, sealed@) is None,
        r matches Some(p) ==> aes_gcm_open(key@, nonce@, sealed@) == Some(p@),
        r matches Some(p) ==> p@.len() + 16 == sealed@.len(),
{
    let cipher = <aes_gcm::Aes256Gcm as aes_gcm::KeyInit>::new(key.into());
    aes_gcm::aead::Aead::decrypt(&cipher, nonce.into(), sealed).ok()
}

/// Calls `fill_bytes` of `aes_gcm::aead::OsRng` for a key: random bytes. Nothing is said of
/// the result.
#[verifier::external_body]
pub(crate) fn random_key() -> [u8; 32] {
    let mut b = [0u8; 32];
    aes_gcm::aead::rand_core::RngCore::fill_bytes(&mut aes_gcm::aead::OsRng, &mut b);
    b
}

/// Calls `fill_bytes` of `aes_gcm::aead::OsRng` for a nonce: random bytes. Nothing is said
/// of the result.
#[verifier::external_body]
pub(crate) fn random_nonce() -> [u8; 12] {
    let mut b = [0u8; 12];
    aes_gcm::aead::rand_core::RngCore::fill_bytes(&mut aes_gcm::aead::OsRng, &mut b);
    b
}

} // verus!
