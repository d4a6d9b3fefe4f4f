//! Message authentication: digests, codes, their text form and their comparison.
use vstd::prelude::*;

verus! {

/// The SHA-256 digest of a message.
pub uninterp spec fn sha256_of(data: Seq<u8>) -> Seq<u8>;

/// The HMAC-SHA256 code of a message under a key.
pub uninterp spec fn hmac_sha256_of(key: Seq<u8>, data: Seq<u8>) -> Seq<u8>;

/// Calls `sha2::Sha256::digest`: 32 bytes.
#[verifier::external_body]
pub(crate) fn sha256(data: &[u8]) -> (r: Vec<u8>)
    ensures
        r@ == sha256_of(data@),
        r@.len() == 32,
{
    <sha2::Sha256 as sha2::Digest>::digest(data).to_vec()
}

/// Calls `hmac::Hmac::<sha2::Sha256>`, which takes a key of any length: 32 bytes.
#[verifier::external_body]
pub(crate) fn hmac_sha256(key: &[u8], data: &[u8]) -> (r: Vec<u8>)
    ensures
        r@ == hmac_sha256_of(key@, data@),
        r@.len() == 32,
{
    let mut mac = <hmac::Hmac<sha2::Sha256> as hmac::Mac>::new_from_slice(key).unwrap();
    hmac::Mac::update(&mut mac, data);
    hmac::Mac::finalize(mac).into_bytes().to_vec()
}

/// The character for six bits in the URL-safe base64 alphabet.
pub open spec fn b64_char(d: nat) -> char {
    if d < 26 {
        ('A' as u32 + d) as char
    } else if d < 52 {
        ('a' as u32 + (d - 26)) as char
    } else if d < 62 {
        ('0' as u32 + (d - 52)) as char
    } else if d == 62 {
        '-'
    } else {
        '_'
    }
}

/// Bytes in URL-safe base64 without padding: three bytes give four characters, one byte at
/// the end two, and two bytes three.
pub open spec fn b64url(b: Seq<u8>) -> Seq<char>
    decreases b.len(),
{
    if b.len() == 0 {
        Seq::empty()
    } else {
        let x = b[0] as nat;
        let y = if b.len() > 1 { b[1] as nat } else { 0 };
        let z = if b.len() > 2 { b[2] as nat } else { 0 };
        let c0 = b64_char(x / 4);
        let c1 = b64_char((x % 4) * 16 + y / 16);
        let c2 = b64_char((y % 16) * 4 + z / 64);
        let c3 = b64_char(z % 64);
        if b.len() == 1 {
            seq![c0, c1]
        } else if b.len() == 2 {
            seq![c0, c1, c2]
        } else {
            seq![c0, c1, c2, c3] + b64url(b.skip(3))
        }
    }
}

/// Calls `encode` of `base64::engine::general_purpose::URL_SAFE_NO_PAD`: the bytes in the
/// URL-safe alphabet, without padding.
#[verifier::external_body]
pub(crate) fn base64_url(bytes: &[u8]) -> (r: String)
    ensures
        r@ == b64url(bytes@),
{
    base64::Engine::encode(&base64::engine::general_purpose::URL_SAFE_NO_PAD, bytes)
}

/// Calls `ct_eq` of `subtle::ConstantTimeEq`: whether two byte strings are equal, in time
/// that depends on their lengths only.
#[verifier::external_body]
pub(crate) fn same_bytes(a: &[u8], b: &[u8]) -> (r: bool)
    ensures
        r == (a@ == b@),
{
    subtle::ConstantTimeEq::ct_eq(a, b).into()
}

/// Calls `chrono::Utc::now` and `timestamp`: the clock, in seconds. Nothing is said of the
/// result.
#[verifier::external_body]
pub(crate) fn unix_now() -> i64 {
    chrono::Utc::now().timestamp()
}

} // verus!
